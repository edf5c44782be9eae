//! What the backend keeps between launches, besides the download queue and
//! the space links: its settings, each room's scan checkpoint, and the
//! activity log.

use vstd::prelude::*;
use crate::domain::{ActivityLogEntry, AppLogLevel, AppSettings, RoomCheckpoint};
use crate::history::{is_fresh_checkpoint, new_checkpoint, reset_checkpoint_for_rescan};
use crate::queue::{copy_opt_string, JobQueue};
use crate::settings::{
    clamp_download_worker_count, clamped_worker_count, default_settings, is_default_settings,
    MAX_DOWNLOAD_WORKERS, MIN_DOWNLOAD_WORKERS,
};
use crate::text::str_eq;

verus! {

/// A copy of settings.
pub fn copy_settings(s: &AppSettings) -> (r: AppSettings)
    ensures
        r == *s,
{
    AppSettings {
        homeserver_url: s.homeserver_url.clone(),
        username: s.username.clone(),
        owner_user_id: s.owner_user_id.clone(),
        destination_root_path: s.destination_root_path.clone(),
        message_limit: s.message_limit,
        time_window_value: s.time_window_value,
        time_window_unit: s.time_window_unit,
        retry_cooldown_minutes: s.retry_cooldown_minutes,
        retry_limit: s.retry_limit,
        download_worker_count: s.download_worker_count,
        failed_job_retention_value: s.failed_job_retention_value,
        failed_job_retention_unit: s.failed_job_retention_unit,
        desired_power_state: s.desired_power_state,
    }
}

/// Settings as they are stored: the download worker count within bounds.
pub open spec fn stored_form(s: AppSettings) -> AppSettings {
    AppSettings { download_worker_count: clamped_worker_count(s.download_worker_count), ..s }
}

/// The stored settings.
pub struct SettingsStore {
    current: Option<AppSettings>,
}

impl SettingsStore {
    pub closed spec fn current(&self) -> Option<AppSettings> {
        self.current
    }

    pub fn new() -> (s: Self)
        ensures
            s.current() is None,
    {
        SettingsStore { current: None }
    }

    /// Stores new settings in place of the old ones.
    pub fn save_settings(&mut self, settings: &AppSettings)
        ensures
            final(self).current() == Some(stored_form(*settings)),
    {
        let mut s = copy_settings(settings);
        s.download_worker_count = clamp_download_worker_count(settings.download_worker_count);
        self.current = Some(s);
    }

    /// The stored settings; the first time, defaults with the given
    /// destination folder, which are then stored.
    pub fn load_settings(&mut self, default_destination_root_path: &str) -> (r: AppSettings)
        ensures
            old(self).current() matches Some(s) ==> r == s && final(self).current() == old(self).current(),
            old(self).current() is None ==> is_default_settings(r, default_destination_root_path@)
                && final(self).current() == Some(r),
    {
        match &self.current {
            Some(s) => copy_settings(s),
            None => {
                let d = default_settings(default_destination_root_path);
                self.save_settings(&d);
                proof {
                    assert(stored_form(d) == d);
                }
                d
            },
        }
    }
}

/// Settings read back after a save are the saved settings, but for the
/// download worker count, which is brought between one and six; settings
/// saved with a count in that range come back unchanged.
pub proof fn law_settings_read_back(saved: AppSettings, store: SettingsStore, loaded: AppSettings)
    requires
        store.current() == Some(stored_form(saved)),
        store.current() matches Some(s) ==> loaded == s,
    ensures
        loaded == (AppSettings {
            download_worker_count: clamped_worker_count(saved.download_worker_count),
            ..saved
        }),
        MIN_DOWNLOAD_WORKERS <= loaded.download_worker_count <= MAX_DOWNLOAD_WORKERS,
        MIN_DOWNLOAD_WORKERS <= saved.download_worker_count <= MAX_DOWNLOAD_WORKERS ==> loaded
            == saved,
{
}

/// A copy of a checkpoint.
pub fn copy_checkpoint(c: &RoomCheckpoint) -> (r: RoomCheckpoint)
    ensures
        r == *c,
{
    RoomCheckpoint {
        room_id: c.room_id.clone(),
        last_processed_event_id: copy_opt_string(&c.last_processed_event_id),
        last_processed_timestamp: c.last_processed_timestamp,
        oldest_backfilled_event_id: copy_opt_string(&c.oldest_backfilled_event_id),
        oldest_backfilled_timestamp: c.oldest_backfilled_timestamp,
        historical_message_count: c.historical_message_count,
        initial_backfill_complete: c.initial_backfill_complete,
        last_history_mode: c.last_history_mode,
        last_history_run_at: c.last_history_run_at,
    }
}

/// The position of a room's checkpoint.
pub open spec fn checkpoint_at(s: Seq<RoomCheckpoint>, room_id: Seq<char>, i: int) -> bool {
    0 <= i < s.len() && s[i].room_id@ == room_id
}

pub open spec fn has_checkpoint(s: Seq<RoomCheckpoint>, room_id: Seq<char>) -> bool {
    exists|i: int| #[trigger] checkpoint_at(s, room_id, i)
}

/// One checkpoint per room.
pub open spec fn rooms_unique(s: Seq<RoomCheckpoint>) -> bool {
    forall|i: int, j: int| 0 <= i < j < s.len() ==> s[i].room_id@ != s[j].room_id@
}

/// The scan checkpoints of the rooms.
pub struct CheckpointStore {
    checkpoints: Vec<RoomCheckpoint>,
}

impl CheckpointStore {
    pub closed spec fn checkpoints(&self) -> Seq<RoomCheckpoint> {
        self.checkpoints@
    }

    pub open spec fn wf(&self) -> bool {
        rooms_unique(self.checkpoints())
    }

    pub fn new() -> (s: Self)
        ensures
            s.wf(),
            s.checkpoints().len() == 0,
    {
        CheckpointStore { checkpoints: Vec::new() }
    }

    fn position(&self, room_id: &str) -> (r: Option<usize>)
        ensures
            match r {
                Some(i) => checkpoint_at(self.checkpoints(), room_id@, i as int),
                None => !has_checkpoint(self.checkpoints(), room_id@),
            },
    {
        let mut i: usize = 0;
        while i < self.checkpoints.len()
            invariant
                i <= self.checkpoints@.len(),
                forall|j: int| 0 <= j < i ==> self.checkpoints@[j].room_id@ != room_id@,
            decreases self.checkpoints@.len() - i,
        {
            if str_eq(self.checkpoints[i].room_id.as_str(), room_id) {
                return Some(i);
            }
            i = i + 1;
        }
        proof {
            assert forall|j: int| !#[trigger] checkpoint_at(self.checkpoints@, room_id@, j) by {}
        }
        None
    }

    /// A room's checkpoint; a room without one gets a fresh checkpoint,
    /// which is stored.
    pub fn load_checkpoint(&mut self, room_id: &str) -> (r: RoomCheckpoint)
        requires
            old(self).wf(),
        ensures
            final(self).wf(),
            has_checkpoint(old(self).checkpoints(), room_id@) ==> final(self).checkpoints() == old(self).checkpoints() && forall|i: int|
                #[trigger] checkpoint_at(old(self).checkpoints(), room_id@, i) ==> r == old(self).checkpoints()[i],
            !has_checkpoint(old(self).checkpoints(), room_id@) ==> is_fresh_checkpoint(r, room_id@)
                && final(self).checkpoints() == old(self).checkpoints().push(r),
    {
        match self.position(room_id) {
            Some(i) => {
                proof {
                    assert forall|j: int| #[trigger] checkpoint_at(self.checkpoints@, room_id@, j) implies j
                        == i by {
                        if j < i {
                            assert(self.checkpoints@[j].room_id@ != self.checkpoints@[i as int].room_id@);
                        } else if j > i {
                            assert(self.checkpoints@[i as int].room_id@ != self.checkpoints@[j].room_id@);
                        }
                    }
                }
                copy_checkpoint(&self.checkpoints[i])
            },
            None => {
                let c = new_checkpoint(room_id);
                let ghost before = self.checkpoints@;
                self.checkpoints.push(copy_checkpoint(&c));
                proof {
                    assert forall|a: int, b: int|
                        0 <= a < b < self.checkpoints@.len() implies self.checkpoints@[a].room_id@
                        != self.checkpoints@[b].room_id@ by {
                        if b == before.len() {
                            assert(!checkpoint_at(before, room_id@, a));
                        }
                    }
                }
                c
            },
        }
    }

    /// Stores a room's checkpoint in place of its old one.
    pub fn save_checkpoint(&mut self, checkpoint: &RoomCheckpoint)
        requires
            old(self).wf(),
        ensures
            final(self).wf(),
            has_checkpoint(old(self).checkpoints(), checkpoint.room_id@) ==> forall|i: int|
                #[trigger] checkpoint_at(old(self).checkpoints(), checkpoint.room_id@, i) ==> final(self).checkpoints() == old(self).checkpoints().update(i, *checkpoint),
            !has_checkpoint(old(self).checkpoints(), checkpoint.room_id@) ==> final(self).checkpoints()
                == old(self).checkpoints().push(*checkpoint),
    {
        let ghost before = self.checkpoints@;
        match self.position(checkpoint.room_id.as_str()) {
            Some(i) => {
                self.checkpoints.set(i, copy_checkpoint(checkpoint));
                proof {
                    assert forall|j: int| #[trigger] checkpoint_at(before, checkpoint.room_id@, j) implies j
                        == i by {
                        if j < i {
                            assert(before[j].room_id@ != before[i as int].room_id@);
                        } else if j > i {
                            assert(before[i as int].room_id@ != before[j].room_id@);
                        }
                    }
                    assert forall|a: int, b: int|
                        0 <= a < b < self.checkpoints@.len() implies self.checkpoints@[a].room_id@
                        != self.checkpoints@[b].room_id@ by {
                        assert(before[a].room_id@ != before[b].room_id@);
                    }
                }
            },
            None => {
                self.checkpoints.push(copy_checkpoint(checkpoint));
                proof {
                    assert forall|a: int, b: int|
                        0 <= a < b < self.checkpoints@.len() implies self.checkpoints@[a].room_id@
                        != self.checkpoints@[b].room_id@ by {
                        if b == before.len() {
                            assert(!checkpoint_at(before, checkpoint.room_id@, a));
                        }
                    }
                }
            },
        }
    }

    /// Forgets the scan progress of every room, so that all are scanned again.
    pub fn reset_all_history_scans(&mut self)
        requires
            old(self).wf(),
        ensures
            final(self).wf(),
            final(self).checkpoints().len() == old(self).checkpoints().len(),
            forall|i: int|
                0 <= i < final(self).checkpoints().len() ==> is_fresh_checkpoint(
                    #[trigger] final(self).checkpoints()[i],
                    old(self).checkpoints()[i].room_id@,
                ),
    {
        let ghost before = self.checkpoints@;
        let mut i: usize = 0;
        while i < self.checkpoints.len()
            invariant
                self.checkpoints@.len() == before.len(),
                i <= before.len(),
                forall|j: int| 0 <= j < before.len() ==> #[trigger] self.checkpoints@[j].room_id@ == before[j].room_id@,
                forall|j: int| 0 <= j < i ==> is_fresh_checkpoint(#[trigger] self.checkpoints@[j], before[j].room_id@),
                forall|j: int| i <= j < before.len() ==> #[trigger] self.checkpoints@[j] == before[j],
            decreases before.len() - i,
        {
            let fresh = reset_checkpoint_for_rescan(&self.checkpoints[i]);
            self.checkpoints.set(i, fresh);
            i = i + 1;
        }
        proof {
            assert forall|a: int, b: int|
                0 <= a < b < self.checkpoints@.len() implies self.checkpoints@[a].room_id@
                != self.checkpoints@[b].room_id@ by {
                assert(before[a].room_id@ != before[b].room_id@);
            }
        }
    }
}

/// Saving a checkpoint and loading the room's checkpoint again gives it
/// back: whether the room had a checkpoint or not, the store then holds
/// exactly one checkpoint for the room, the one saved.
pub proof fn law_checkpoint_read_back(before: Seq<RoomCheckpoint>, after: Seq<RoomCheckpoint>, c: RoomCheckpoint)
    requires
        rooms_unique(before),
        has_checkpoint(before, c.room_id@) ==> forall|i: int|
            #[trigger] checkpoint_at(before, c.room_id@, i) ==> after == before.update(i, c),
        !has_checkpoint(before, c.room_id@) ==> after == before.push(c),
    ensures
        rooms_unique(after),
        has_checkpoint(after, c.room_id@),
        forall|j: int| #[trigger] checkpoint_at(after, c.room_id@, j) ==> after[j] == c,
{
    if has_checkpoint(before, c.room_id@) {
        let i = choose|i: int| #[trigger] checkpoint_at(before, c.room_id@, i);
        assert(after == before.update(i, c));
        assert forall|a: int, b: int| 0 <= a < b < after.len() implies after[a].room_id@ != after[b].room_id@ by {
            assert(before[a].room_id@ != before[b].room_id@);
        }
        assert(checkpoint_at(after, c.room_id@, i));
        assert forall|j: int| #[trigger] checkpoint_at(after, c.room_id@, j) implies after[j] == c by {
            if j != i {
                if j < i {
                    assert(after[j].room_id@ != after[i].room_id@);
                } else {
                    assert(after[i].room_id@ != after[j].room_id@);
                }
            }
        }
    } else {
        assert forall|a: int, b: int| 0 <= a < b < after.len() implies after[a].room_id@ != after[b].room_id@ by {
            if b == before.len() {
                assert(!checkpoint_at(before, c.room_id@, a));
            }
        }
        assert(checkpoint_at(after, c.room_id@, before.len() as int));
        assert forall|j: int| #[trigger] checkpoint_at(after, c.room_id@, j) implies after[j] == c by {
            if j < before.len() {
                assert(checkpoint_at(before, c.room_id@, j));
            }
        }
    }
}

/// How long log lines are kept: thirty days, in milliseconds.
pub const LOG_RETENTION_MS: i64 = 2_592_000_000;

/// How many log lines are kept at most.
pub const MAX_RETAINED_LOG_ENTRIES: usize = 5_000;

/// The log lines of `s` created at or after `cutoff`, in order.
pub open spec fn logs_since(s: Seq<ActivityLogEntry>, cutoff: int) -> Seq<ActivityLogEntry>
    decreases s.len(),
{
    if s.len() == 0 {
        s
    } else {
        let rest = logs_since(s.drop_last(), cutoff);
        if s.last().created_at >= cutoff {
            rest.push(s.last())
        } else {
            rest
        }
    }
}

/// The newest `n` lines of `s`.
pub open spec fn newest(s: Seq<ActivityLogEntry>, n: int) -> Seq<ActivityLogEntry> {
    if s.len() <= n {
        s
    } else {
        s.skip(s.len() - n)
    }
}

/// Log ids increase along the log and stay below the next id.
pub open spec fn log_ids_ordered(s: Seq<ActivityLogEntry>, next_id: int) -> bool {
    &&& forall|i: int, j: int| 0 <= i < j < s.len() ==> s[i].id < s[j].id
    &&& forall|i: int| 0 <= i < s.len() ==> 1 <= #[trigger] s[i].id < next_id
}

fn copy_entry(e: &ActivityLogEntry) -> (r: ActivityLogEntry)
    ensures
        r == *e,
{
    ActivityLogEntry {
        id: e.id,
        created_at: e.created_at,
        level: e.level,
        subsystem: e.subsystem.clone(),
        message: e.message.clone(),
    }
}

/// The activity log.
pub struct ActivityLog {
    entries: Vec<ActivityLogEntry>,
    next_id: i64,
}

impl ActivityLog {
    pub closed spec fn entries(&self) -> Seq<ActivityLogEntry> {
        self.entries@
    }

    pub closed spec fn next_id(&self) -> int {
        self.next_id as int
    }

    pub open spec fn wf(&self) -> bool {
        &&& log_ids_ordered(self.entries(), self.next_id())
        &&& self.entries().len() <= MAX_RETAINED_LOG_ENTRIES
        &&& 1 <= self.next_id()
    }

    pub fn new() -> (l: Self)
        ensures
            l.wf(),
            l.entries().len() == 0,
            l.next_id() == 1,
    {
        ActivityLog { entries: Vec::new(), next_id: 1 }
    }

    /// Adds a line at `now`, then drops lines older than thirty days and
    /// keeps the newest five thousand. Refused once every id is used.
    pub fn insert_log(&mut self, level: AppLogLevel, subsystem: &str, message: &str, now: i64) -> (r: Result<
        (),
        crate::error::ArchiveError,
    >)
        requires
            old(self).wf(),
            now >= i64::MIN + LOG_RETENTION_MS,
        ensures
            final(self).wf(),
            r is Ok <==> old(self).next_id() < i64::MAX,
            old(self).next_id() == i64::MAX ==> r is Err && final(self).entries() == old(self).entries(),
            old(self).next_id() < i64::MAX ==> r is Ok && final(self).next_id() == old(self).next_id() + 1
                && final(self).entries().len() > 0 && ({
                let added = final(self).entries().last();
                &&& added.id == old(self).next_id()
                &&& added.created_at == now
                &&& added.level == level
                &&& added.subsystem@ == subsystem@
                &&& added.message@ == message@
                &&& final(self).entries() == newest(
                    logs_since(old(self).entries().push(added), now - LOG_RETENTION_MS),
                    MAX_RETAINED_LOG_ENTRIES as int,
                )
            }),
    {
        if self.next_id == i64::MAX {
            return Err(crate::error::ArchiveError::QueueFull);
        }
        let entry = ActivityLogEntry {
            id: self.next_id,
            created_at: now,
            level,
            subsystem: subsystem.to_owned(),
            message: message.to_owned(),
        };
        let ghost added = entry;
        let ghost all = self.entries@.push(entry);
        self.next_id = self.next_id + 1;
        let cutoff = now - LOG_RETENTION_MS;
        let mut kept: Vec<ActivityLogEntry> = Vec::new();
        let mut i: usize = 0;
        let n = self.entries.len();
        while i < n
            invariant
                n == self.entries@.len(),
                all == self.entries@.push(added),
                i <= n,
                kept@ == logs_since(all.take(i as int), cutoff as int),
            decreases n - i,
        {
            proof {
                assert(all.take(i + 1).drop_last() =~= all.take(i as int));
            }
            if self.entries[i].created_at >= cutoff {
                kept.push(copy_entry(&self.entries[i]));
            }
            i = i + 1;
        }
        proof {
            assert(all.take(n + 1).drop_last() =~= all.take(n as int));
            assert(all.take(n + 1) =~= all);
        }
        kept.push(entry);
        proof {
            assert(kept@ == logs_since(all, cutoff as int));
        }
        let ghost since = kept@;
        let mut result: Vec<ActivityLogEntry> = Vec::new();
        let start: usize = if kept.len() > MAX_RETAINED_LOG_ENTRIES {
            kept.len() - MAX_RETAINED_LOG_ENTRIES
        } else {
            0
        };
        let mut j: usize = start;
        while j < kept.len()
            invariant
                kept@ == since,
                start <= j <= since.len(),
                result@ == since.subrange(start as int, j as int),
            decreases since.len() - j,
        {
            result.push(copy_entry(&kept[j]));
            j = j + 1;
            proof {
                assert(result@ =~= since.subrange(start as int, j as int));
            }
        }
        proof {
            assert(result@ =~= newest(since, MAX_RETAINED_LOG_ENTRIES as int));
            lemma_logs_since_sub(all, cutoff as int);
            assert(since.last() == added);
            assert(result@.last() == added);
        }
        self.entries = result;
        proof {
            let s = self.entries@;
            assert forall|a: int, b: int| 0 <= a < b < s.len() implies s[a].id < s[b].id by {
                let x = s[a];
                let y = s[b];
                assert(x == since[a + start]);
                assert(y == since[b + start]);
                lemma_logs_since_order(all, cutoff as int, a + start, b + start);
            }
            assert forall|a: int| 0 <= a < s.len() implies 1 <= #[trigger] s[a].id < self.next_id by {
                assert(s[a] == since[a + start]);
                lemma_logs_since_member(all, cutoff as int, a + start);
            }
        }
        Ok(())
    }

    /// The newest `limit` lines, oldest first; all of them for a negative
    /// limit.
    pub fn fetch_recent_logs(&self, limit: i64) -> (r: Vec<ActivityLogEntry>)
        ensures
            limit < 0 ==> r@ == self.entries(),
            limit >= 0 ==> r@ == newest(self.entries(), limit as int),
    {
        let n = self.entries.len();
        let start: usize = if limit < 0 || (limit as u64) >= (n as u64) {
            0
        } else {
            n - (limit as usize)
        };
        let mut r: Vec<ActivityLogEntry> = Vec::new();
        let mut j: usize = start;
        while j < n
            invariant
                n == self.entries@.len(),
                start <= j <= n,
                r@ == self.entries@.subrange(start as int, j as int),
            decreases n - j,
        {
            r.push(copy_entry(&self.entries[j]));
            j = j + 1;
            proof {
                assert(r@ =~= self.entries@.subrange(start as int, j as int));
            }
        }
        proof {
            assert(r@ =~= self.entries@.subrange(start as int, n as int));
            if limit < 0 || limit >= n {
                assert(r@ =~= self.entries@);
            } else {
                assert(r@ =~= self.entries@.skip(n - limit));
            }
        }
        r
    }
}

proof fn lemma_logs_since_sub(s: Seq<ActivityLogEntry>, cutoff: int)
    ensures
        logs_since(s, cutoff).len() <= s.len(),
        forall|k: int|
            0 <= k < logs_since(s, cutoff).len() ==> exists|m: int|
                0 <= m < s.len() && s[m] == #[trigger] logs_since(s, cutoff)[k],
    decreases s.len(),
{
    if s.len() > 0 {
        let t = s.drop_last();
        lemma_logs_since_sub(t, cutoff);
        let r = logs_since(t, cutoff);
        assert forall|k: int| 0 <= k < logs_since(s, cutoff).len() implies exists|m: int|
            0 <= m < s.len() && s[m] == #[trigger] logs_since(s, cutoff)[k] by {
            if k < r.len() {
                let m = choose|m: int| 0 <= m < t.len() && t[m] == #[trigger] r[k];
                assert(s[m] == t[m]);
                assert(logs_since(s, cutoff)[k] == r[k]);
            } else {
                assert(s[s.len() - 1] == logs_since(s, cutoff)[k]);
            }
        }
    }
}

proof fn lemma_logs_since_member(s: Seq<ActivityLogEntry>, cutoff: int, k: int)
    requires
        0 <= k < logs_since(s, cutoff).len(),
    ensures
        exists|m: int| 0 <= m < s.len() && s[m] == logs_since(s, cutoff)[k],
{
    lemma_logs_since_sub(s, cutoff);
    assert(exists|m: int| 0 <= m < s.len() && s[m] == #[trigger] logs_since(s, cutoff)[k]);
}

proof fn lemma_logs_since_order(s: Seq<ActivityLogEntry>, cutoff: int, a: int, b: int)
    requires
        forall|i: int, j: int| 0 <= i < j < s.len() ==> s[i].id < s[j].id,
        0 <= a < b < logs_since(s, cutoff).len(),
    ensures
        logs_since(s, cutoff)[a].id < logs_since(s, cutoff)[b].id,
    decreases s.len(),
{
    let t = s.drop_last();
    let r = logs_since(t, cutoff);
    lemma_logs_since_sub(t, cutoff);
    if b < r.len() {
        assert(logs_since(s, cutoff)[a] == r[a] && logs_since(s, cutoff)[b] == r[b]);
        lemma_logs_since_order(t, cutoff, a, b);
    } else {
        let m = choose|m: int| 0 <= m < t.len() && t[m] == #[trigger] r[a];
        assert(logs_since(s, cutoff)[a] == r[a]);
        assert(s[m] == t[m]);
        assert(logs_since(s, cutoff)[b] == s.last());
    }
}

/// Starts every room's history over: each room's checkpoint is reset, and
/// every discovered attachment and download job is forgotten.
pub fn reset_all_history_scans_for_full_rescan(checkpoints: &mut CheckpointStore, queue: &mut JobQueue)
    requires
        old(checkpoints).wf(),
        old(queue).wf(),
    ensures
        final(checkpoints).wf(),
        final(queue).wf(),
        final(checkpoints).checkpoints().len() == old(checkpoints).checkpoints().len(),
        forall|i: int|
            0 <= i < final(checkpoints).checkpoints().len() ==> is_fresh_checkpoint(
                #[trigger] final(checkpoints).checkpoints()[i],
                old(checkpoints).checkpoints()[i].room_id@,
            ),
        final(queue).jobs().len() == 0,
        final(queue).discovered().len() == 0,
        final(queue).next_id() == old(queue).next_id(),
{
    checkpoints.reset_all_history_scans();
    queue.clear_for_full_rescan();
}

impl SettingsStore {
    /// The stored settings, if any were stored.
    pub fn stored_settings(&self) -> (r: Option<AppSettings>)
        ensures
            r == self.current(),
    {
        match &self.current {
            Some(s) => Some(copy_settings(s)),
            None => None,
        }
    }

    /// Settings read back from disk.
    pub fn restore(current: Option<AppSettings>) -> (s: Self)
        ensures
            s.current() == current,
    {
        SettingsStore { current }
    }
}

impl CheckpointStore {
    /// Every checkpoint, to be kept on disk.
    pub fn all_checkpoints(&self) -> (r: Vec<RoomCheckpoint>)
        ensures
            r@ == self.checkpoints(),
    {
        let mut r: Vec<RoomCheckpoint> = Vec::new();
        let mut i: usize = 0;
        while i < self.checkpoints.len()
            invariant
                i <= self.checkpoints@.len(),
                r@ == self.checkpoints@.take(i as int),
            decreases self.checkpoints@.len() - i,
        {
            r.push(copy_checkpoint(&self.checkpoints[i]));
            i = i + 1;
            proof {
                assert(r@ =~= self.checkpoints@.take(i as int));
            }
        }
        proof {
            assert(self.checkpoints@.take(self.checkpoints@.len() as int) =~= self.checkpoints@);
        }
        r
    }

    /// Checkpoints read back from disk; refused when a room has two.
    pub fn restore(checkpoints: Vec<RoomCheckpoint>) -> (r: Option<Self>)
        ensures
            r is Some <==> rooms_unique(checkpoints@),
            r matches Some(s) ==> s.checkpoints() == checkpoints@,
    {
        let mut k: usize = 0;
        while k < checkpoints.len()
            invariant
                k <= checkpoints@.len(),
                forall|a: int, b: int| 0 <= a < b < k ==> checkpoints@[a].room_id@ != checkpoints@[b].room_id@,
            decreases checkpoints@.len() - k,
        {
            let mut a: usize = 0;
            while a < k
                invariant
                    a <= k < checkpoints@.len(),
                    forall|x: int| 0 <= x < a ==> checkpoints@[x].room_id@ != checkpoints@[k as int].room_id@,
                decreases k - a,
            {
                if str_eq(checkpoints[a].room_id.as_str(), checkpoints[k].room_id.as_str()) {
                    return None;
                }
                a = a + 1;
            }
            k = k + 1;
        }
        Some(CheckpointStore { checkpoints })
    }
}

impl ActivityLog {
    /// The id the next line will get.
    pub fn next_log_id(&self) -> (r: i64)
        ensures
            r == self.next_id(),
    {
        self.next_id
    }

    /// A log read back from disk; refused unless its ids increase and stay
    /// below the next id, and it holds no more lines than are kept.
    pub fn restore(entries: Vec<ActivityLogEntry>, next_id: i64) -> (r: Option<Self>)
        ensures
            r is Some <==> (log_ids_ordered(entries@, next_id as int) && entries@.len()
                <= MAX_RETAINED_LOG_ENTRIES && 1 <= next_id),
            r matches Some(l) ==> l.wf() && l.entries() == entries@ && l.next_id() == next_id,
    {
        if next_id < 1 || entries.len() > MAX_RETAINED_LOG_ENTRIES {
            return None;
        }
        let mut i: usize = 0;
        while i < entries.len()
            invariant
                1 <= next_id,
                i <= entries@.len(),
                forall|a: int, b: int| 0 <= a < b < i ==> entries@[a].id < entries@[b].id,
                forall|a: int| 0 <= a < i ==> 1 <= #[trigger] entries@[a].id < next_id,
            decreases entries@.len() - i,
        {
            let id = entries[i].id;
            if id < 1 || id >= next_id {
                return None;
            }
            if i > 0 && entries[i - 1].id >= id {
                return None;
            }
            proof {
                assert forall|a: int| 0 <= a < i implies entries@[a].id < entries@[i as int].id by {
                    if a < i - 1 {
                        assert(entries@[a].id < entries@[i - 1].id);
                    }
                }
            }
            i = i + 1;
        }
        Some(ActivityLog { entries, next_id })
    }
}

} // verus!
