//! Timeline events: which media they announce, what a batch of them asks of
//! the queue and of the command handler, and which owner commands run.

use vstd::prelude::*;
use crate::clock::{chrono_millis_valid, millis_in_chrono_range};
use crate::commands::{join_command_target, parse_join_command};
use crate::domain::{AppLogLevel, AttachmentDiscovery, MediaCategory};
use crate::catalog::{extension_category_of, extension_text, file_category, file_category_of, mime_category_of};
use crate::error::ArchiveError;
use crate::history::{counted, EventStamp, TimelineSource};
use crate::media::{encode_media_source, encoded_source, source_view, StoredMediaSource};
use crate::queue::copy_opt_string;
use crate::text::{
    contains_string, decimal_seq, push_decimal, push_str,
    string_views,
};

verus! {

/// The kind of message content that may carry media.
#[derive(Clone, Copy, Debug, PartialEq, Eq, Structural)]
pub enum MessageKind {
    Image,
    Video,
    Audio,
    File,
    Sticker,
    /// Text and every other kind, which carry no attachment.
    Other,
}

/// What a message says about the media it carries.
#[derive(Clone, Debug)]
pub struct MediaMessage {
    pub kind: MessageKind,
    /// The message body (a sticker's description, or a file's name when no
    /// separate file name is given).
    pub body: String,
    pub filename: Option<String>,
    pub mime_type: Option<String>,
    pub source: StoredMediaSource,
}

/// The file name recorded for an attachment: a sticker's body; for other
/// media the given file name, else the body.
pub open spec fn attachment_filename(m: MediaMessage) -> Seq<char> {
    if m.kind == MessageKind::Sticker {
        m.body@
    } else {
        match m.filename.deep_view() {
            Some(f) => f,
            None => m.body@,
        }
    }
}

/// The category of an attachment: fixed by the message kind, and for plain
/// files the one its MIME type, else its file name, names.
pub open spec fn attachment_category(m: MediaMessage) -> MediaCategory {
    match m.kind {
        MessageKind::Video => MediaCategory::Videos,
        MessageKind::Audio => MediaCategory::Audio,
        MessageKind::File => file_category_of(Some(attachment_filename(m)), m.mime_type.deep_view()),
        _ => MediaCategory::Images,
    }
}

/// The attachment a message announces in a room, if it carries media.
pub fn attachment_discovery(
    room_id: &str,
    event_id: &str,
    timestamp: i64,
    message: &MediaMessage,
) -> (r: Option<AttachmentDiscovery>)
    ensures
        message.kind == MessageKind::Other <==> r is None,
        r matches Some(d) ==> {
            &&& d.room_id@ == room_id@
            &&& d.event_id@ == event_id@
            &&& d.origin_server_timestamp == timestamp
            &&& d.mxc_url@ == encoded_source(source_view(message.source))
            &&& d.original_filename.deep_view() == Some(attachment_filename(*message))
            &&& d.mime_type == message.mime_type
            &&& d.category == attachment_category(*message)
        },
{
    let filename = match message.kind {
        MessageKind::Other => {
            return None;
        },
        MessageKind::Sticker => message.body.clone(),
        _ => match &message.filename {
            Some(f) => f.clone(),
            None => message.body.clone(),
        },
    };
    let category = match message.kind {
        MessageKind::Video => MediaCategory::Videos,
        MessageKind::Audio => MediaCategory::Audio,
        MessageKind::File => {
            let mime = match &message.mime_type {
                Some(t) => Some(t.as_str()),
                None => None,
            };
            file_category(Some(filename.as_str()), mime)
        },
        _ => MediaCategory::Images,
    };
    Some(
        AttachmentDiscovery {
            room_id: room_id.to_owned(),
            event_id: event_id.to_owned(),
            origin_server_timestamp: timestamp,
            mxc_url: encode_media_source(&message.source),
            original_filename: Some(filename),
            mime_type: copy_opt_string(&message.mime_type),
            category,
        },
    )
}

/// The identifier given to a remote event that has none:
/// `remote-<milliseconds>-<sender>`.
pub open spec fn fallback_event_id_text(timestamp: u64, sender: Seq<char>) -> Seq<char> {
    "remote-"@ + decimal_seq(timestamp as nat) + seq!['-'] + sender
}

pub fn fallback_event_id(timestamp: u64, sender: &str) -> (r: String)
    ensures
        r@ == fallback_event_id_text(timestamp, sender@),
{
    let mut r = String::new();
    push_str(&mut r, "remote-");
    push_decimal(&mut r, timestamp);
    push_str(&mut r, "-");
    push_str(&mut r, sender);
    proof {
        reveal_strlit("-");
        assert(r@ =~= fallback_event_id_text(timestamp, sender@));
    }
    r
}

/// An event's server time in milliseconds, refused when it is no valid time.
pub fn event_timestamp(ms: u64) -> (r: Result<i64, ArchiveError>)
    ensures
        ms <= i64::MAX && chrono_millis_valid(ms as i64) ==> r == Ok::<i64, ArchiveError>(ms as i64),
        !(ms <= i64::MAX && chrono_millis_valid(ms as i64)) ==> (r matches Err(
            ArchiveError::InvalidTimestamp { value },
        ) && value@ == decimal_seq(ms as nat)),
{
    if ms <= 9223372036854775807u64 && millis_in_chrono_range(ms as i64) {
        Ok(ms as i64)
    } else {
        let mut value = String::new();
        push_decimal(&mut value, ms);
        proof {
            assert(value@ =~= decimal_seq(ms as nat));
        }
        Err(ArchiveError::InvalidTimestamp { value })
    }
}

/// A timeline event as the archiver sees it.
#[derive(Clone, Debug)]
pub struct ObservedEvent {
    pub stamp: EventStamp,
    pub sender: String,
    /// The message body, when the event is a message.
    pub command_body: Option<String>,
    /// The attachment the event announces.
    pub discovery: Option<AttachmentDiscovery>,
}

/// What processing a batch asks for, event by event.
#[derive(Clone, Debug)]
pub enum EventAction {
    /// Queue an attachment for download.
    Enqueue(AttachmentDiscovery),
    /// Hand a message to the owner-command handler.
    Command { event_id: String, sender: String, body: String },
}

/// The actions of one event: its attachment is queued unless the room is a
/// space, and its message goes to the command handler unless the batch is
/// the initial history scan; events that catch-up skips do nothing.
pub open spec fn event_actions(
    e: ObservedEvent,
    source: TimelineSource,
    cutoff: Option<i64>,
    is_space_room: bool,
) -> Seq<EventAction> {
    if !counted(e.stamp, source, cutoff) {
        Seq::empty()
    } else {
        let enqueue = match e.discovery {
            Some(d) => if !is_space_room {
                seq![EventAction::Enqueue(d)]
            } else {
                Seq::empty()
            },
            None => Seq::empty(),
        };
        let command = match e.command_body {
            Some(b) => if source != TimelineSource::InitialBackfill {
                seq![EventAction::Command { event_id: e.stamp.event_id, sender: e.sender, body: b }]
            } else {
                Seq::empty()
            },
            None => Seq::empty(),
        };
        enqueue + command
    }
}

pub open spec fn batch_actions(
    events: Seq<ObservedEvent>,
    source: TimelineSource,
    cutoff: Option<i64>,
    is_space_room: bool,
) -> Seq<EventAction>
    decreases events.len(),
{
    if events.len() == 0 {
        Seq::empty()
    } else {
        batch_actions(events.drop_last(), source, cutoff, is_space_room) + event_actions(
            events.last(),
            source,
            cutoff,
            is_space_room,
        )
    }
}

fn copy_discovery(d: &AttachmentDiscovery) -> (r: AttachmentDiscovery)
    ensures
        r == *d,
{
    AttachmentDiscovery {
        room_id: d.room_id.clone(),
        event_id: d.event_id.clone(),
        origin_server_timestamp: d.origin_server_timestamp,
        mxc_url: d.mxc_url.clone(),
        original_filename: copy_opt_string(&d.original_filename),
        mime_type: copy_opt_string(&d.mime_type),
        category: d.category,
    }
}

/// The actions a batch of timeline events asks for, in event order.
pub fn route_events(
    events: &Vec<ObservedEvent>,
    source: TimelineSource,
    cutoff: Option<i64>,
    is_space_room: bool,
) -> (r: Vec<EventAction>)
    ensures
        r@ == batch_actions(events@, source, cutoff, is_space_room),
{
    let mut r: Vec<EventAction> = Vec::new();
    let mut i: usize = 0;
    while i < events.len()
        invariant
            i <= events@.len(),
            r@ == batch_actions(events@.take(i as int), source, cutoff, is_space_room),
        decreases events@.len() - i,
    {
        proof {
            assert(events@.take(i + 1).drop_last() =~= events@.take(i as int));
        }
        let e = &events[i];
        let ghost before = r@;
        let is_counted = match cutoff {
            Some(c) => !(source == TimelineSource::ReconnectCatchUp && e.stamp.timestamp <= c),
            None => true,
        };
        if is_counted {
            if !is_space_room {
                if let Some(d) = &e.discovery {
                    r.push(EventAction::Enqueue(copy_discovery(d)));
                }
            }
            if source != TimelineSource::InitialBackfill {
                if let Some(b) = &e.command_body {
                    r.push(
                        EventAction::Command {
                            event_id: e.stamp.event_id.clone(),
                            sender: e.sender.clone(),
                            body: b.clone(),
                        },
                    );
                }
            }
        }
        proof {
            assert(r@ =~= before + event_actions(events@[i as int], source, cutoff, is_space_room));
        }
        i = i + 1;
    }
    proof {
        assert(events@.take(events@.len() as int) =~= events@);
    }
    r
}

/// The command events already acted upon.
pub struct HandledEvents {
    ids: Vec<String>,
}

impl HandledEvents {
    pub closed spec fn ids(&self) -> Seq<Seq<char>> {
        string_views(self.ids@)
    }

    pub fn new() -> (h: Self)
        ensures
            h.ids().len() == 0,
    {
        HandledEvents { ids: Vec::new() }
    }

    /// Decides on a message sent to the backend: only the owner's messages
    /// count, each event once; a `!matrixdl join <room>` command gives the
    /// room to join. The event is remembered when it came from the owner.
    pub fn accept_owner_command(
        &mut self,
        owner_user_id: &str,
        event_id: &str,
        sender: &str,
        body: &str,
    ) -> (r: Option<String>)
        ensures
            final(self).ids() == ids_after_command(old(self).ids(), owner_user_id@, event_id@, sender@),
            !command_is_new(old(self).ids(), owner_user_id@, event_id@, sender@) ==> r is None,
            command_is_new(old(self).ids(), owner_user_id@, event_id@, sender@) ==> match r {
                None => join_command_target(body@) is None,
                Some(t) => join_command_target(body@) == Some(t@),
            },
    {
        if sender.to_owned() != owner_user_id.to_owned() {
            return None;
        }
        if contains_string(&self.ids, event_id) {
            return None;
        }
        let ghost before = self.ids@;
        self.ids.push(event_id.to_owned());
        proof {
            assert(string_views(self.ids@) =~= string_views(before).push(event_id@));
        }
        parse_join_command(body)
    }
}

/// Whether a message is a command to act upon: sent by the owner, and not
/// acted upon before.
pub open spec fn command_is_new(
    handled: Seq<Seq<char>>,
    owner_user_id: Seq<char>,
    event_id: Seq<char>,
    sender: Seq<char>,
) -> bool {
    sender == owner_user_id && !handled.contains(event_id)
}

/// The command events acted upon after a message arrives.
pub open spec fn ids_after_command(
    handled: Seq<Seq<char>>,
    owner_user_id: Seq<char>,
    event_id: Seq<char>,
    sender: Seq<char>,
) -> Seq<Seq<char>> {
    if command_is_new(handled, owner_user_id, event_id, sender) {
        handled.push(event_id)
    } else {
        handled
    }
}

/// A command event is acted upon at most once: after it was acted upon, the
/// same event, delivered again by whoever, is refused and changes nothing.
/// A message of anyone but the owner is never acted upon.
pub proof fn law_owner_command_acted_on_once(
    handled: Seq<Seq<char>>,
    owner_user_id: Seq<char>,
    event_id: Seq<char>,
    first_sender: Seq<char>,
    second_sender: Seq<char>,
)
    ensures
        ({
            let after = ids_after_command(handled, owner_user_id, event_id, first_sender);
            command_is_new(handled, owner_user_id, event_id, first_sender) ==> {
                &&& !command_is_new(after, owner_user_id, event_id, second_sender)
                &&& ids_after_command(after, owner_user_id, event_id, second_sender) == after
            }
        }),
        first_sender != owner_user_id ==> !command_is_new(
            handled,
            owner_user_id,
            event_id,
            first_sender,
        ) && ids_after_command(handled, owner_user_id, event_id, first_sender) == handled,
{
    let after = ids_after_command(handled, owner_user_id, event_id, first_sender);
    if command_is_new(handled, owner_user_id, event_id, first_sender) {
        assert(after[handled.len() as int] == event_id);
        assert(after.contains(event_id));
    }
}

/// The reply sent to the owner: a prefix and a detail, separated by a space.
pub open spec fn owner_reply_text(prefix: Seq<char>, detail: Seq<char>) -> Seq<char> {
    prefix + seq![' '] + detail
}

pub fn owner_reply(prefix: &str, detail: &str) -> (r: String)
    ensures
        r@ == owner_reply_text(prefix@, detail@),
{
    let mut r = prefix.to_owned();
    push_str(&mut r, " ");
    push_str(&mut r, detail);
    proof {
        reveal_strlit(" ");
        assert(r@ =~= owner_reply_text(prefix@, detail@));
    }
    r
}

/// The log line for an owner command as it arrives.
pub fn command_log(sender: &str, room_id: &str, body: &str) -> (r: String)
    ensures
        r@ == "Command from "@ + sender@ + " in "@ + room_id@ + ": "@ + body@,
{
    let mut text = String::new();
    push_str(&mut text, "Command from ");
    push_str(&mut text, sender);
    push_str(&mut text, " in ");
    push_str(&mut text, room_id);
    push_str(&mut text, ": ");
    push_str(&mut text, body);
    text
}

/// The log line and the reply to the owner once a join command was
/// followed, or failed with the error `error`.
pub open spec fn join_command_outcome_text(target: Seq<char>, error: Option<Seq<char>>) -> (
    AppLogLevel,
    Seq<char>,
    Seq<char>,
) {
    match error {
        None => (
            AppLogLevel::Info,
            "Followed join command: "@ + target,
            owner_reply_text("Joined"@, target),
        ),
        Some(e) => (
            AppLogLevel::Error,
            "Join command failed for "@ + target + ": "@ + e,
            owner_reply_text("Join failed for"@, target + ": "@ + e),
        ),
    }
}

pub fn join_command_outcome(target: &str, error: Option<&str>) -> (r: (AppLogLevel, String, String))
    ensures
        r.0 == join_command_outcome_text(target@, error.deep_view()).0,
        r.1@ == join_command_outcome_text(target@, error.deep_view()).1,
        r.2@ == join_command_outcome_text(target@, error.deep_view()).2,
{
    let mut log = String::new();
    match error {
        None => {
            push_str(&mut log, "Followed join command: ");
            push_str(&mut log, target);
            let reply = owner_reply("Joined", target);
            proof {
                reveal_strlit("Joined");
            }
            (AppLogLevel::Info, log, reply)
        },
        Some(e) => {
            push_str(&mut log, "Join command failed for ");
            push_str(&mut log, target);
            push_str(&mut log, ": ");
            push_str(&mut log, e);
            let mut detail = target.to_owned();
            push_str(&mut detail, ": ");
            push_str(&mut detail, e);
            let reply = owner_reply("Join failed for", detail.as_str());
            (AppLogLevel::Error, log, reply)
        },
    }
}

/// The changes a timeline stream reports.
#[derive(Clone, Copy, Debug, PartialEq, Eq, Structural)]
pub enum TimelineChangeKind {
    Append,
    Reset,
    PushBack,
    PushFront,
    Insert,
    Replace,
    Clear,
    Remove,
    PopBack,
    PopFront,
    Truncate,
}

/// Whether the items a timeline change carries are observed: new or
/// replaced items are, removals are not.
pub fn change_carries_items(kind: TimelineChangeKind) -> (r: bool)
    ensures
        r == (kind == TimelineChangeKind::Append || kind == TimelineChangeKind::Reset || kind
            == TimelineChangeKind::PushBack || kind == TimelineChangeKind::PushFront || kind
            == TimelineChangeKind::Insert || kind == TimelineChangeKind::Replace),
{
    match kind {
        TimelineChangeKind::Append | TimelineChangeKind::Reset | TimelineChangeKind::PushBack
        | TimelineChangeKind::PushFront | TimelineChangeKind::Insert | TimelineChangeKind::Replace => true,
        _ => false,
    }
}

/// A remote timeline event as the archiver records it: its ID (or one made
/// from its time and sender), its checked time, its message body and the
/// attachment it announces.
pub fn observe_event(
    room_id: &str,
    event_id: Option<&str>,
    timestamp_ms: u64,
    sender: &str,
    message_body: Option<&str>,
    media: Option<&MediaMessage>,
) -> (r: Result<ObservedEvent, ArchiveError>)
    ensures
        !(timestamp_ms <= i64::MAX && chrono_millis_valid(timestamp_ms as i64)) ==> r matches Err(
            ArchiveError::InvalidTimestamp { .. },
        ),
        (timestamp_ms <= i64::MAX && chrono_millis_valid(timestamp_ms as i64)) ==> (r matches Ok(e)
            && e.stamp.timestamp == timestamp_ms as i64 && e.stamp.event_id@ == match event_id {
            Some(id) => id@,
            None => fallback_event_id_text(timestamp_ms, sender@),
        } && e.sender@ == sender@ && e.command_body.deep_view() == message_body.deep_view() && match media {
            Some(m) => (m.kind == MessageKind::Other <==> e.discovery is None) && (e.discovery matches Some(
                d,
            ) ==> d.event_id@ == e.stamp.event_id@ && d.room_id@ == room_id@ && d.origin_server_timestamp
                == timestamp_ms as i64 && d.mxc_url@ == encoded_source(source_view(m.source))
                && d.original_filename.deep_view() == Some(attachment_filename(*m)) && d.mime_type
                == m.mime_type && d.category == attachment_category(*m)),
            None => e.discovery is None,
        }),
{
    let timestamp = match event_timestamp(timestamp_ms) {
        Ok(t) => t,
        Err(e) => return Err(e),
    };
    let id = match event_id {
        Some(id) => id.to_owned(),
        None => fallback_event_id(timestamp_ms, sender),
    };
    let discovery = match media {
        Some(m) => attachment_discovery(room_id, id.as_str(), timestamp, m),
        None => None,
    };
    let body = match message_body {
        Some(b) => Some(b.to_owned()),
        None => None,
    };
    Ok(
        ObservedEvent {
            stamp: EventStamp { event_id: id, timestamp },
            sender: sender.to_owned(),
            command_body: body,
            discovery,
        },
    )
}

/// A file message's category is the classification of its recorded file name
/// (the given file name, else the body) together with its MIME type: a MIME
/// type of images, video or audio decides; otherwise the recorded name's
/// extension decides (`song.mp3` is audio), and a name without a known
/// extension is `Other`.
pub proof fn law_file_category_from_name_and_mime(m: MediaMessage)
    requires
        m.kind == MessageKind::File,
    ensures
        attachment_filename(m) == match m.filename {
            Some(f) => f@,
            None => m.body@,
        },
        attachment_category(m) == file_category_of(
            Some(attachment_filename(m)),
            m.mime_type.deep_view(),
        ),
        m.mime_type matches Some(t) ==> (mime_category_of(t@) matches Some(c) ==> attachment_category(m)
            == c),
        (m.mime_type is None || mime_category_of(m.mime_type->0@) is None) ==> attachment_category(m)
            == match extension_text(attachment_filename(m)) {
            Some(e) => extension_category_of(e),
            None => MediaCategory::Other,
        },
        (m.mime_type is None || mime_category_of(m.mime_type->0@) is None) && extension_text(
            attachment_filename(m),
        ) == Some("mp3"@) ==> attachment_category(m) == MediaCategory::Audio,
{
    reveal_strlit("mp3");
    reveal_strlit("jpg");
    reveal_strlit("jpeg");
    reveal_strlit("png");
    reveal_strlit("gif");
    reveal_strlit("webp");
    reveal_strlit("bmp");
    reveal_strlit("heic");
    reveal_strlit("heif");
    reveal_strlit("tif");
    reveal_strlit("tiff");
    reveal_strlit("avif");
    reveal_strlit("svg");
    reveal_strlit("mp4");
    reveal_strlit("m4v");
    reveal_strlit("mov");
    reveal_strlit("mkv");
    reveal_strlit("webm");
    reveal_strlit("avi");
    reveal_strlit("wmv");
    reveal_strlit("flv");
    reveal_strlit("3gp");
    reveal_strlit("mpg");
    reveal_strlit("mpeg");
    assert("jpg"@[0] != "mp3"@[0]);
    assert("jpeg"@.len() != "mp3"@.len());
    assert("png"@[0] != "mp3"@[0]);
    assert("gif"@[0] != "mp3"@[0]);
    assert("webp"@.len() != "mp3"@.len());
    assert("bmp"@[0] != "mp3"@[0]);
    assert("heic"@.len() != "mp3"@.len());
    assert("heif"@.len() != "mp3"@.len());
    assert("tif"@[0] != "mp3"@[0]);
    assert("tiff"@.len() != "mp3"@.len());
    assert("avif"@.len() != "mp3"@.len());
    assert("svg"@[0] != "mp3"@[0]);
    assert("mp4"@[2] != "mp3"@[2]);
    assert("m4v"@[1] != "mp3"@[1]);
    assert("mov"@[1] != "mp3"@[1]);
    assert("mkv"@[1] != "mp3"@[1]);
    assert("webm"@.len() != "mp3"@.len());
    assert("avi"@[0] != "mp3"@[0]);
    assert("wmv"@[0] != "mp3"@[0]);
    assert("flv"@[0] != "mp3"@[0]);
    assert("3gp"@[0] != "mp3"@[0]);
    assert("mpg"@[2] != "mp3"@[2]);
    assert("mpeg"@.len() != "mp3"@.len());
    assert(extension_category_of("mp3"@) == MediaCategory::Audio);
}

} // verus!
