//! History-scan bookkeeping: when the initial backfill stops, what a batch of
//! timeline events does to a room's checkpoint, and what the worker reports.

use vstd::prelude::*;
use crate::domain::{AppSettings, RoomCheckpoint, RoomHistoryMode};
use crate::error::ArchiveError;
use crate::queue::copy_opt_string;
use crate::settings::{history_window_ms, sane_instant};
use crate::text::{decimal_seq, push_decimal, push_signed_decimal, push_str, signed_decimal_seq};

verus! {

/// Where a batch of timeline events comes from.
#[derive(Clone, Copy, Debug, PartialEq, Eq, Structural)]
pub enum TimelineSource {
    Live,
    InitialBackfill,
    ReconnectCatchUp,
}

/// What a history worker does for a room.
#[derive(Clone, Copy, Debug, PartialEq, Eq, Structural)]
pub enum HistoryTask {
    /// A space: reconcile its child rooms.
    SpaceRefresh,
    /// A room scanned before: recover messages missed while offline.
    ReconnectCatchUp,
    /// A room never scanned completely: walk its history backwards.
    InitialBackfill,
}

/// A timeline event's identity and time.
#[derive(Clone, Debug)]
pub struct EventStamp {
    pub event_id: String,
    pub timestamp: i64,
}

/// What a batch of events contributes to a checkpoint.
#[derive(Clone, Debug)]
pub struct BatchSummary {
    /// How many events of the batch were processed.
    pub processed: u64,
    /// The earliest processed event (the first one at that time).
    pub oldest: Option<EventStamp>,
    /// The latest processed event (the last one at that time).
    pub newest: Option<EventStamp>,
}

/// The initial backfill of a room is done at `now`: the message limit is
/// reached, or the oldest scanned message lies beyond the time window.
pub open spec fn initial_backfill_done(
    checkpoint: RoomCheckpoint,
    settings: AppSettings,
    now: int,
) -> bool {
    ||| (settings.message_limit > 0 && checkpoint.historical_message_count
        >= settings.message_limit)
    ||| match (history_window_ms(settings), checkpoint.oldest_backfilled_timestamp) {
        (Some(w), Some(t)) => t <= now - w,
        _ => false,
    }
}

/// Whether the initial backfill of a room stops at `now`.
pub fn should_stop_initial_backfill(
    checkpoint: &RoomCheckpoint,
    settings: &AppSettings,
    now: i64,
) -> (r: Result<bool, ArchiveError>)
    requires
        sane_instant(now as int),
    ensures
        r == Ok::<bool, ArchiveError>(initial_backfill_done(*checkpoint, *settings, now as int)),
{
    if settings.message_limit > 0 && checkpoint.historical_message_count >= settings.message_limit {
        return Ok(true);
    }
    let cutoff = crate::settings::history_cutoff(settings, now);
    match (cutoff, checkpoint.oldest_backfilled_timestamp) {
        (Some(c), Some(t)) => Ok(t <= c),
        _ => Ok(false),
    }
}

pub open spec fn backfill_detail_text(checkpoint: RoomCheckpoint, settings: AppSettings) -> Seq<
    char,
> {
    if settings.message_limit > 0 {
        "Scanning "@ + signed_decimal_seq(checkpoint.historical_message_count as int) + " / "@
            + signed_decimal_seq(settings.message_limit as int) + " messages"@
    } else {
        "Scanning "@ + signed_decimal_seq(checkpoint.historical_message_count as int)
            + " messages"@
    }
}

/// The progress line of an initial backfill.
pub fn backfill_detail(checkpoint: &RoomCheckpoint, settings: &AppSettings) -> (r: String)
    ensures
        r@ == backfill_detail_text(*checkpoint, *settings),
{
    let mut r = String::new();
    push_str(&mut r, "Scanning ");
    push_signed_decimal(&mut r, checkpoint.historical_message_count);
    if settings.message_limit > 0 {
        push_str(&mut r, " / ");
        push_signed_decimal(&mut r, settings.message_limit);
    }
    push_str(&mut r, " messages");
    assert(r@ =~= backfill_detail_text(*checkpoint, *settings));
    r
}

pub open spec fn space_tracking_text(children: nat) -> Seq<char> {
    if children == 1 {
        "Tracking 1 space room"@
    } else {
        "Tracking "@ + decimal_seq(children) + " space rooms"@
    }
}

/// The status line of a space after its children were reconciled.
pub fn space_tracking_detail(children: usize) -> (r: String)
    ensures
        r@ == space_tracking_text(children as nat),
{
    let mut r = String::new();
    if children == 1 {
        push_str(&mut r, "Tracking 1 space room");
    } else {
        push_str(&mut r, "Tracking ");
        push_decimal(&mut r, children as u64);
        push_str(&mut r, " space rooms");
    }
    assert(r@ =~= space_tracking_text(children as nat));
    r
}

pub open spec fn is_fresh_checkpoint(c: RoomCheckpoint, room_id: Seq<char>) -> bool {
    &&& c.room_id@ == room_id
    &&& c.last_processed_event_id is None
    &&& c.last_processed_timestamp is None
    &&& c.oldest_backfilled_event_id is None
    &&& c.oldest_backfilled_timestamp is None
    &&& c.historical_message_count == 0
    &&& !c.initial_backfill_complete
    &&& c.last_history_mode == RoomHistoryMode::Idle
    &&& c.last_history_run_at is None
}

/// The checkpoint of a room that has never been scanned.
pub fn new_checkpoint(room_id: &str) -> (r: RoomCheckpoint)
    ensures
        is_fresh_checkpoint(r, room_id@),
{
    RoomCheckpoint {
        room_id: room_id.to_owned(),
        last_processed_event_id: None,
        last_processed_timestamp: None,
        oldest_backfilled_event_id: None,
        oldest_backfilled_timestamp: None,
        historical_message_count: 0,
        initial_backfill_complete: false,
        last_history_mode: RoomHistoryMode::Idle,
        last_history_run_at: None,
    }
}

/// A checkpoint with its scan progress forgotten, so that the room is scanned again.
pub fn reset_checkpoint_for_rescan(checkpoint: &RoomCheckpoint) -> (r: RoomCheckpoint)
    ensures
        is_fresh_checkpoint(r, checkpoint.room_id@),
        r.room_id == checkpoint.room_id,
{
    RoomCheckpoint {
        room_id: checkpoint.room_id.clone(),
        last_processed_event_id: None,
        last_processed_timestamp: None,
        oldest_backfilled_event_id: None,
        oldest_backfilled_timestamp: None,
        historical_message_count: 0,
        initial_backfill_complete: false,
        last_history_mode: RoomHistoryMode::Idle,
        last_history_run_at: None,
    }
}

/// The checkpoint of a room whose initial scan finished at `now`.
pub fn complete_checkpoint(checkpoint: RoomCheckpoint, now: i64) -> (r: RoomCheckpoint)
    ensures
        r == (RoomCheckpoint {
            initial_backfill_complete: true,
            last_history_mode: RoomHistoryMode::Complete,
            last_history_run_at: Some(now),
            ..checkpoint
        }),
{
    let mut r = checkpoint;
    r.initial_backfill_complete = true;
    r.last_history_mode = RoomHistoryMode::Complete;
    r.last_history_run_at = Some(now);
    r
}

/// What the history worker does for a room.
pub open spec fn history_task_for(initial_backfill_complete: bool, is_space: bool) -> HistoryTask {
    if is_space {
        HistoryTask::SpaceRefresh
    } else if initial_backfill_complete {
        HistoryTask::ReconnectCatchUp
    } else {
        HistoryTask::InitialBackfill
    }
}

pub fn plan_history_task(checkpoint: &RoomCheckpoint, is_space: bool) -> (r: HistoryTask)
    ensures
        r == history_task_for(checkpoint.initial_backfill_complete, is_space),
{
    if is_space {
        HistoryTask::SpaceRefresh
    } else if checkpoint.initial_backfill_complete {
        HistoryTask::ReconnectCatchUp
    } else {
        HistoryTask::InitialBackfill
    }
}

pub open spec fn history_task_status_text(task: HistoryTask) -> (RoomHistoryMode, Seq<char>) {
    match task {
        HistoryTask::SpaceRefresh => (RoomHistoryMode::InitialBackfill, "Scanning space rooms"@),
        HistoryTask::ReconnectCatchUp => (
            RoomHistoryMode::ReconnectCatchUp,
            "Recovering missed messages"@,
        ),
        HistoryTask::InitialBackfill => (RoomHistoryMode::InitialBackfill, "Scanning room history"@),
    }
}

/// The mode and line a room worker shows while a history task runs.
pub fn history_task_status(task: HistoryTask) -> (r: (RoomHistoryMode, String))
    ensures
        r.0 == history_task_status_text(task).0,
        r.1@ == history_task_status_text(task).1,
{
    match task {
        HistoryTask::SpaceRefresh => (
            RoomHistoryMode::InitialBackfill,
            String::from_str("Scanning space rooms"),
        ),
        HistoryTask::ReconnectCatchUp => (
            RoomHistoryMode::ReconnectCatchUp,
            String::from_str("Recovering missed messages"),
        ),
        HistoryTask::InitialBackfill => (
            RoomHistoryMode::InitialBackfill,
            String::from_str("Scanning room history"),
        ),
    }
}

/// An event of a batch counts: catch-up skips events at or before the
/// last processed instant.
pub open spec fn counted(e: EventStamp, source: TimelineSource, cutoff: Option<i64>) -> bool {
    !(source == TimelineSource::ReconnectCatchUp && cutoff is Some && e.timestamp
        <= cutoff->0)
}

pub open spec fn count_counted(
    s: Seq<EventStamp>,
    source: TimelineSource,
    cutoff: Option<i64>,
) -> nat
    decreases s.len(),
{
    if s.len() == 0 {
        0
    } else {
        count_counted(s.drop_last(), source, cutoff) + if counted(s.last(), source, cutoff) {
            1nat
        } else {
            0nat
        }
    }
}

/// `o` is the earliest counted event of `s`, the first one at its time.
pub open spec fn is_oldest(
    s: Seq<EventStamp>,
    source: TimelineSource,
    cutoff: Option<i64>,
    o: EventStamp,
) -> bool {
    exists|k: int|
        #![trigger s[k]]
        0 <= k < s.len() && s[k] == o && counted(s[k], source, cutoff) && (forall|j: int|
            0 <= j < s.len() && counted(#[trigger] s[j], source, cutoff) ==> o.timestamp
                <= s[j].timestamp) && (forall|j: int|
            0 <= j < k && counted(#[trigger] s[j], source, cutoff) ==> o.timestamp
                < s[j].timestamp)
}

/// `n` is the latest counted event of `s`, the last one at its time.
pub open spec fn is_newest(
    s: Seq<EventStamp>,
    source: TimelineSource,
    cutoff: Option<i64>,
    n: EventStamp,
) -> bool {
    exists|k: int|
        #![trigger s[k]]
        0 <= k < s.len() && s[k] == n && counted(s[k], source, cutoff) && (forall|j: int|
            0 <= j < s.len() && counted(#[trigger] s[j], source, cutoff) ==> s[j].timestamp
                <= n.timestamp) && (forall|j: int|
            k < j < s.len() && counted(#[trigger] s[j], source, cutoff) ==> s[j].timestamp
                < n.timestamp)
}

pub open spec fn summarizes(
    r: BatchSummary,
    s: Seq<EventStamp>,
    source: TimelineSource,
    cutoff: Option<i64>,
) -> bool {
    &&& r.processed == count_counted(s, source, cutoff)
    &&& (r.oldest is None <==> r.processed == 0)
    &&& (r.newest is None <==> r.processed == 0)
    &&& (r.oldest matches Some(o) ==> is_oldest(s, source, cutoff, o))
    &&& (r.newest matches Some(n) ==> is_newest(s, source, cutoff, n))
}

proof fn lemma_count_counted_zero(s: Seq<EventStamp>, source: TimelineSource, cutoff: Option<i64>)
    ensures
        count_counted(s, source, cutoff) == 0 <==> forall|j: int|
            0 <= j < s.len() ==> !counted(#[trigger] s[j], source, cutoff),
        count_counted(s, source, cutoff) <= s.len(),
    decreases s.len(),
{
    if s.len() > 0 {
        lemma_count_counted_zero(s.drop_last(), source, cutoff);
        if count_counted(s, source, cutoff) == 0 {
            assert forall|j: int| 0 <= j < s.len() implies !counted(
                #[trigger] s[j],
                source,
                cutoff,
            ) by {
                if j < s.len() - 1 {
                    assert(s.drop_last()[j] == s[j]);
                }
            }
        } else {
            if !counted(s.last(), source, cutoff) {
                let j = choose|j: int|
                    0 <= j < s.drop_last().len() && counted(
                        #[trigger] s.drop_last()[j],
                        source,
                        cutoff,
                    );
                assert(s[j] == s.drop_last()[j]);
            }
        }
    }
}

fn copy_stamp(e: &EventStamp) -> (r: EventStamp)
    ensures
        r == *e,
{
    EventStamp { event_id: e.event_id.clone(), timestamp: e.timestamp }
}

fn is_counted(e: &EventStamp, source: TimelineSource, cutoff: Option<i64>) -> (b: bool)
    ensures
        b == counted(*e, source, cutoff),
{
    match cutoff {
        Some(c) => !(source == TimelineSource::ReconnectCatchUp && e.timestamp <= c),
        None => true,
    }
}

/// What a batch of events contributes: how many count, and the earliest and
/// latest of them.
pub fn summarize_events(events: &Vec<EventStamp>, source: TimelineSource, cutoff: Option<i64>) -> (r:
    BatchSummary)
    ensures
        summarizes(r, events@, source, cutoff),
{
    let ghost s = events@;
    let mut processed: u64 = 0;
    let mut oldest: Option<usize> = None;
    let mut newest: Option<usize> = None;
    let mut i: usize = 0;
    while i < events.len()
        invariant
            s == events@,
            i <= s.len(),
            processed == count_counted(s.take(i as int), source, cutoff),
            processed <= i,
            oldest is None <==> processed == 0,
            newest is None <==> processed == 0,
            oldest matches Some(k) ==> {
                &&& k < i
                &&& counted(s[k as int], source, cutoff)
                &&& forall|j: int|
                    0 <= j < i && counted(#[trigger] s[j], source, cutoff) ==> s[k as int].timestamp
                        <= s[j].timestamp
                &&& forall|j: int|
                    0 <= j < k && counted(#[trigger] s[j], source, cutoff) ==> s[k as int].timestamp
                        < s[j].timestamp
            },
            newest matches Some(k) ==> {
                &&& k < i
                &&& counted(s[k as int], source, cutoff)
                &&& forall|j: int|
                    0 <= j < i && counted(#[trigger] s[j], source, cutoff) ==> s[j].timestamp
                        <= s[k as int].timestamp
                &&& forall|j: int|
                    k < j < i && counted(#[trigger] s[j], source, cutoff) ==> s[j].timestamp
                        < s[k as int].timestamp
            },
        decreases s.len() - i,
    {
        proof {
            assert(s.take(i + 1).drop_last() =~= s.take(i as int));
            assert(s.take(i + 1).last() == s[i as int]);
            lemma_count_counted_zero(s.take(i as int), source, cutoff);
            assert forall|j: int| 0 <= j < i implies #[trigger] s.take(i as int)[j] == s[j] by {}
            if processed == 0 {
                assert forall|j: int| 0 <= j < i implies !counted(#[trigger] s[j], source, cutoff) by {
                    assert(s.take(i as int)[j] == s[j]);
                }
            }
        }
        if is_counted(&events[i], source, cutoff) {
            processed = processed + 1;
            let t = events[i].timestamp;
            match oldest {
                None => {
                    oldest = Some(i);
                },
                Some(k) => {
                    if t < events[k].timestamp {
                        oldest = Some(i);
                    }
                },
            }
            match newest {
                None => {
                    newest = Some(i);
                },
                Some(k) => {
                    if t >= events[k].timestamp {
                        newest = Some(i);
                    }
                },
            }
        } else {
            proof {
                if processed == 0 {
                    assert forall|j: int| 0 <= j < i + 1 implies !counted(
                        #[trigger] s[j],
                        source,
                        cutoff,
                    ) by {
                        if j < i {
                            assert(s.take(i as int)[j] == s[j]);
                        }
                    }
                }
            }
        }
        i = i + 1;
    }
    proof {
        assert(s.take(s.len() as int) =~= s);
    }
    let oldest_stamp = match oldest {
        None => None,
        Some(k) => Some(copy_stamp(&events[k])),
    };
    let newest_stamp = match newest {
        None => None,
        Some(k) => Some(copy_stamp(&events[k])),
    };
    BatchSummary { processed, oldest: oldest_stamp, newest: newest_stamp }
}

/// What a processed batch does to the room's checkpoint at `now`. Live and
/// catch-up batches move the last processed event forward (never back);
/// backfill batches add to the scanned count and move the oldest scanned
/// event back (never forward). An empty batch changes nothing.
pub open spec fn checkpoint_after(
    c: RoomCheckpoint,
    source: TimelineSource,
    summary: BatchSummary,
    now: i64,
) -> RoomCheckpoint {
    if summary.processed == 0 {
        c
    } else {
        match source {
            TimelineSource::Live | TimelineSource::ReconnectCatchUp => match summary.newest {
                Some(n) => if c.last_processed_timestamp is None || n.timestamp
                    >= c.last_processed_timestamp->0 {
                    RoomCheckpoint {
                        last_processed_event_id: Some(n.event_id),
                        last_processed_timestamp: Some(n.timestamp),
                        ..c
                    }
                } else {
                    c
                },
                None => c,
            },
            TimelineSource::InitialBackfill => {
                let counted_c = RoomCheckpoint {
                    historical_message_count: (c.historical_message_count
                        + summary.processed) as i64,
                    last_history_mode: RoomHistoryMode::InitialBackfill,
                    last_history_run_at: Some(now),
                    ..c
                };
                match summary.oldest {
                    Some(o) => if c.oldest_backfilled_timestamp is None || o.timestamp
                        < c.oldest_backfilled_timestamp->0 {
                        RoomCheckpoint {
                            oldest_backfilled_event_id: Some(o.event_id),
                            oldest_backfilled_timestamp: Some(o.timestamp),
                            ..counted_c
                        }
                    } else {
                        counted_c
                    },
                    None => counted_c,
                }
            },
        }
    }
}

/// Applies a batch summary to a checkpoint.
pub fn apply_batch(checkpoint: RoomCheckpoint, source: TimelineSource, summary: &BatchSummary, now: i64) -> (r:
    RoomCheckpoint)
    requires
        source == TimelineSource::InitialBackfill ==> checkpoint.historical_message_count
            + summary.processed <= i64::MAX,
    ensures
        r == checkpoint_after(checkpoint, source, *summary, now),
{
    if summary.processed == 0 {
        return checkpoint;
    }
    let mut c = checkpoint;
    match source {
        TimelineSource::Live | TimelineSource::ReconnectCatchUp => {
            if let Some(n) = &summary.newest {
                let forward = match c.last_processed_timestamp {
                    None => true,
                    Some(t) => n.timestamp >= t,
                };
                if forward {
                    c.last_processed_event_id = Some(n.event_id.clone());
                    c.last_processed_timestamp = Some(n.timestamp);
                }
            }
        },
        TimelineSource::InitialBackfill => {
            let total: i128 = c.historical_message_count as i128 + summary.processed as i128;
            c.historical_message_count = total as i64;
            if let Some(o) = &summary.oldest {
                let backward = match c.oldest_backfilled_timestamp {
                    None => true,
                    Some(t) => o.timestamp < t,
                };
                if backward {
                    c.oldest_backfilled_event_id = Some(o.event_id.clone());
                    c.oldest_backfilled_timestamp = Some(o.timestamp);
                }
            }
            c.last_history_mode = RoomHistoryMode::InitialBackfill;
            c.last_history_run_at = Some(now);
        },
    }
    c
}

/// The last processed event of a room never moves back: after a live or
/// catch-up batch it is at least as late as before.
pub proof fn law_last_processed_never_moves_back(
    c: RoomCheckpoint,
    source: TimelineSource,
    summary: BatchSummary,
    now: i64,
)
    requires
        source != TimelineSource::InitialBackfill,
    ensures
        ({
            let after = checkpoint_after(c, source, summary, now);
            &&& c.last_processed_timestamp matches Some(t) ==> (after.last_processed_timestamp
                matches Some(u) && u >= t)
            &&& after.oldest_backfilled_timestamp == c.oldest_backfilled_timestamp
            &&& after.historical_message_count == c.historical_message_count
        }),
{
}

/// The oldest scanned message of a room never moves forward, and the
/// scanned count grows by the number of processed events of each backfill batch.
pub proof fn law_backfill_only_reaches_further_back(
    c: RoomCheckpoint,
    summary: BatchSummary,
    now: i64,
)
    requires
        c.historical_message_count + summary.processed <= i64::MAX,
    ensures
        ({
            let after = checkpoint_after(c, TimelineSource::InitialBackfill, summary, now);
            &&& c.oldest_backfilled_timestamp matches Some(t) ==> (
            after.oldest_backfilled_timestamp matches Some(u) && u <= t)
            &&& after.historical_message_count == c.historical_message_count + summary.processed
            &&& after.last_processed_timestamp == c.last_processed_timestamp
        }),
{
}

/// The end of one round of the initial backfill at `now`: when the start of
/// the room was reached or the scan limits are met, the completed checkpoint
/// to store; otherwise `None`, and the scan goes on.
pub fn finish_backfill_round(
    checkpoint: &RoomCheckpoint,
    settings: &AppSettings,
    reached_start: bool,
    now: i64,
) -> (r: Option<RoomCheckpoint>)
    requires
        sane_instant(now as int),
    ensures
        (reached_start || initial_backfill_done(*checkpoint, *settings, now as int)) ==> r == Some(
            RoomCheckpoint {
                initial_backfill_complete: true,
                last_history_mode: RoomHistoryMode::Complete,
                last_history_run_at: Some(now),
                ..*checkpoint
            },
        ),
        !(reached_start || initial_backfill_done(*checkpoint, *settings, now as int)) ==> r is None,
{
    let done = match should_stop_initial_backfill(checkpoint, settings, now) {
        Ok(b) => b,
        Err(_) => false,
    };
    if reached_start || done {
        let c = RoomCheckpoint {
            room_id: checkpoint.room_id.clone(),
            last_processed_event_id: copy_opt_string(&checkpoint.last_processed_event_id),
            last_processed_timestamp: checkpoint.last_processed_timestamp,
            oldest_backfilled_event_id: copy_opt_string(&checkpoint.oldest_backfilled_event_id),
            oldest_backfilled_timestamp: checkpoint.oldest_backfilled_timestamp,
            historical_message_count: checkpoint.historical_message_count,
            initial_backfill_complete: checkpoint.initial_backfill_complete,
            last_history_mode: checkpoint.last_history_mode,
            last_history_run_at: checkpoint.last_history_run_at,
        };
        Some(complete_checkpoint(c, now))
    } else {
        None
    }
}

/// How many pages a reconnect catch-up reads back at most.
pub const CATCH_UP_PAGES: u32 = 10;

/// Whether a reconnect catch-up reads another page after page `page`
/// (counted from zero): not once the start of the room is reached, and not
/// beyond the page limit.
pub fn catch_up_continues(page: u32, reached_start: bool) -> (r: bool)
    ensures
        r == (!reached_start && page + 1 < CATCH_UP_PAGES),
{
    !reached_start && page < CATCH_UP_PAGES - 1
}

/// A room counts as a space when its hierarchy, the client or the room's
/// stored record says so.
pub fn room_is_space(hierarchy_says: Option<bool>, client_says: bool, record_says: Option<bool>) -> (r:
    bool)
    ensures
        r == (hierarchy_says == Some(true) || client_says || record_says == Some(true)),
{
    let h = match hierarchy_says {
        Some(b) => b,
        None => false,
    };
    let rec = match record_says {
        Some(b) => b,
        None => false,
    };
    h || client_says || rec
}

/// A live or catch-up batch with processed events moves the last processed
/// event to the batch's newest event when that is at or after the stored one
/// (or nothing was stored), and otherwise keeps the stored one; a backfill
/// batch with processed events moves the oldest scanned event to the batch's
/// oldest event when that is earlier than the stored one (or nothing was
/// stored), and otherwise keeps the stored one.
pub proof fn law_checkpoint_follows_the_batch(
    c: RoomCheckpoint,
    source: TimelineSource,
    summary: BatchSummary,
    now: i64,
)
    requires
        summary.processed > 0,
    ensures
        source != TimelineSource::InitialBackfill ==> match summary.newest {
            Some(n) => {
                let advance = match c.last_processed_timestamp {
                    None => true,
                    Some(t) => t <= n.timestamp,
                };
                &&& advance ==> checkpoint_after(c, source, summary, now).last_processed_event_id
                    == Some(n.event_id)
                &&& advance ==> checkpoint_after(c, source, summary, now).last_processed_timestamp
                    == Some(n.timestamp)
                &&& !advance ==> checkpoint_after(c, source, summary, now) == c
            },
            None => checkpoint_after(c, source, summary, now) == c,
        },
        source == TimelineSource::InitialBackfill ==> match summary.oldest {
            Some(o) => {
                let further = match c.oldest_backfilled_timestamp {
                    None => true,
                    Some(t) => o.timestamp < t,
                };
                &&& further ==> checkpoint_after(c, source, summary, now).oldest_backfilled_event_id
                    == Some(o.event_id)
                &&& further ==> checkpoint_after(c, source, summary, now).oldest_backfilled_timestamp
                    == Some(o.timestamp)
                &&& !further ==> checkpoint_after(c, source, summary, now).oldest_backfilled_timestamp
                    == c.oldest_backfilled_timestamp
                &&& !further ==> checkpoint_after(c, source, summary, now).oldest_backfilled_event_id
                    == c.oldest_backfilled_event_id
            },
            None => checkpoint_after(c, source, summary, now).oldest_backfilled_timestamp
                == c.oldest_backfilled_timestamp,
        },
{
}

} // verus!
