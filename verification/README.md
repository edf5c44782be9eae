# media_archiver

The backend of a Matrix media archiver: it signs into a Matrix account,
watches and scans the rooms it is in, queues every media attachment it sees,
downloads each one once, and files it under the destination folder by room and
category, named by its SHA-256 hash.

The crate is written in Verus. Its library (`src/`) holds the rules of the
backend, each with a contract that Verus proves:

- `settings`, `store`: the settings, their storage keys and bounds, the room
  scan checkpoints and the activity log, with read-back laws.
- `queue`: the download queue (discovery, claiming, cooling down, permanent
  failure, retention), with the order in which jobs are claimed and listed.
- `history`, `events`: how timeline batches move a room's checkpoint, when
  the initial scan stops, and what each event asks for (a download, a chat
  command).
- `pipeline`: the steps of one download, from the downloaded file to the
  archived one, as a function from step and outcome to the next action.
- `spaces`, `rooms`, `catalog`: space links, the plan that brings a space's
  children in line, the reading of a space hierarchy, room records, folder
  labels and the category of files sent as files.
- `identity`, `commands`, `protocol`, `runtime`, `verification`, `media`,
  `paths`, `clock`, `text`: Matrix identifiers, owner commands, the command
  protocol, the published runtime state, URLs, storage paths and instants.

Calls into outside crates (`chrono`, `reqwest`'s URL parser, `ruma`'s
identifier checks, `mime`, `sha2`, `image`, `urlencoding`, `uuid`) stand in
small trusted wrappers whose contracts say what the library relies on.

`app/` is the service around the library: the Matrix client, HTTP downloads,
files, the SQLite file the stores are kept in, and the JSON command protocol
over standard input and output. `tests/` runs the library on concrete values.
