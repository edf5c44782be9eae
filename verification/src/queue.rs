//! The download queue: discovered attachments, their jobs, and the rules by
//! which jobs are claimed, listed, retried and cleared.

use vstd::prelude::*;
use crate::domain::{
    AppSettings, AttachmentDiscovery, DownloadJobRecord, DownloadJobState, MediaCategory,
};
use crate::error::ArchiveError;
use crate::text::{ascii_lower_seq, contains_text, has_substring, to_ascii_lowercase};

verus! {

/// The earliest instant the backend works with (milliseconds since the epoch).
pub const EARLIEST_INSTANT_MS: i64 = -8_000_000_000_000_000;

/// The latest instant the backend works with (milliseconds since the epoch).
pub const LATEST_INSTANT_MS: i64 = 8_000_000_000_000_000;

/// What becomes of a job whose download failed.
#[derive(Clone, Copy, Debug, PartialEq, Eq, Structural)]
pub enum FailureDecision {
    /// The media could not be decrypted: wait for keys, without counting a retry.
    Undecryptable { next_eligible_at: i64 },
    /// Count a retry; cool down, or fail permanently once the limit is reached.
    CoolDown { retry_count: i32, next_eligible_at: i64, permanently_failed: bool },
}

/// The error text speaks of decryption (or an unable-to-decrypt event).
pub open spec fn mentions_decryption(description: Seq<char>) -> bool {
    has_substring(ascii_lower_seq(description), "decrypt"@) || has_substring(
        ascii_lower_seq(description),
        "utd"@,
    )
}

/// The retry delay in milliseconds: the configured minutes, at least one.
pub open spec fn retry_delay_ms(settings: AppSettings) -> int {
    (if settings.retry_cooldown_minutes < 1 {
        1
    } else {
        settings.retry_cooldown_minutes as int
    }) * 60_000
}

pub open spec fn failure_decision(
    description: Seq<char>,
    retry_count: i32,
    settings: AppSettings,
    now: i64,
) -> FailureDecision {
    let next = (now + retry_delay_ms(settings)) as i64;
    if mentions_decryption(description) {
        FailureDecision::Undecryptable { next_eligible_at: next }
    } else {
        FailureDecision::CoolDown {
            retry_count: (retry_count + 1) as i32,
            next_eligible_at: next,
            permanently_failed: retry_count + 1 >= settings.retry_limit,
        }
    }
}

/// Decides what a failed download does to its job at `now`: errors about
/// decryption wait for keys; any other error counts a retry and fails the job
/// permanently once the retry limit is reached. Either way the job waits the
/// configured cooldown (at least a minute).
pub fn decide_job_failure(description: &str, retry_count: i32, settings: &AppSettings, now: i64) -> (r:
    FailureDecision)
    requires
        EARLIEST_INSTANT_MS <= now <= LATEST_INSTANT_MS,
        retry_count < i32::MAX,
    ensures
        r == failure_decision(description@, retry_count, *settings, now),
{
    let minutes: i64 = if settings.retry_cooldown_minutes < 1 {
        1
    } else {
        settings.retry_cooldown_minutes as i64
    };
    let next = now + minutes * 60_000;
    let lowered = to_ascii_lowercase(description);
    let decrypt = contains_text(lowered.as_str(), "decrypt");
    let utd = contains_text(lowered.as_str(), "utd");
    proof {
        reveal_strlit("decrypt");
        reveal_strlit("utd");
    }
    if decrypt || utd {
        FailureDecision::Undecryptable { next_eligible_at: next }
    } else {
        let count = retry_count + 1;
        FailureDecision::CoolDown {
            retry_count: count,
            next_eligible_at: next,
            permanently_failed: count >= settings.retry_limit,
        }
    }
}

/// An attachment the queue has seen, keyed by room and event.
#[derive(Clone, Debug)]
pub struct DiscoveryRecord {
    pub room_id: String,
    pub event_id: String,
    pub origin_timestamp: i64,
}

/// The discovered attachments and download jobs of the archive.
pub struct JobQueue {
    jobs: Vec<DownloadJobRecord>,
    discovered: Vec<DiscoveryRecord>,
    next_id: i64,
}

/// A change that the queue applies to selected jobs.
#[derive(Clone, Debug)]
pub enum JobUpdate {
    /// Back into the queue with an optional note.
    Requeue { last_error: Option<String>, clock: i64 },
    /// A permanently failed job gets a fresh start.
    Retry { clock: i64 },
    /// Taken by a download worker.
    Claim { clock: i64 },
    /// Saved under a new file.
    Complete { sha256: String, saved_relative_path: String, clock: i64 },
    /// The same content was already archived.
    Duplicate { sha256: String, saved_relative_path: Option<String>, clock: i64 },
    /// A failed attempt: cool down, or give up.
    CoolDown { retry_count: i32, next_eligible_at: i64, error: String, permanently_failed: bool, clock: i64 },
    /// The media could not be decrypted yet.
    Undecryptable { next_eligible_at: i64, error: String, clock: i64 },
    /// A download that was running when the backend stopped; `note` becomes
    /// its error text when it has none.
    Interrupted { note: String, clock: i64 },
}

/// Which jobs an operation touches.
#[derive(Clone, Copy, Debug)]
pub enum JobSelector {
    Id(i64),
    IdInState(i64, DownloadJobState),
    State(DownloadJobState),
    /// Permanently failed, last touched at or before the instant.
    FailedNoLaterThan(i64),
}

pub open spec fn interrupted_note() -> Seq<char> {
    "Interrupted download was reset on launch"@
}

/// The instant by which jobs queue up: the last failure, else creation.
pub open spec fn queue_instant(j: DownloadJobRecord) -> int {
    match j.last_failure_at {
        Some(t) => t as int,
        None => j.created_at as int,
    }
}

/// The instant after which a permanently failed job may be pruned.
pub open spec fn last_touched(j: DownloadJobRecord) -> int {
    match j.last_failure_at {
        Some(t) => t as int,
        None => j.updated_at as int,
    }
}

/// A retry delay, if any, has passed at `now`.
pub open spec fn retry_due(j: DownloadJobRecord, now: int) -> bool {
    match j.next_eligible_at {
        Some(t) => t <= now,
        None => true,
    }
}

/// A job that a download worker may take at `now`.
pub open spec fn claimable(j: DownloadJobRecord, now: int) -> bool {
    ||| j.state == DownloadJobState::Queued
    ||| (j.state == DownloadJobState::CoolingDown && retry_due(j, now))
    ||| (j.state == DownloadJobState::UndecryptablePending && retry_due(j, now))
}

/// Jobs still waiting to be downloaded.
pub open spec fn waiting(j: DownloadJobRecord) -> bool {
    ||| j.state == DownloadJobState::Queued
    ||| j.state == DownloadJobState::CoolingDown
    ||| j.state == DownloadJobState::UndecryptablePending
}

/// Jobs the queue page lists: waiting or permanently failed.
pub open spec fn listed(j: DownloadJobRecord) -> bool {
    waiting(j) || j.state == DownloadJobState::FailedPermanent
}

/// `a` is claimed before `b`: earlier queue instant, then lower id.
pub open spec fn claim_before(a: DownloadJobRecord, b: DownloadJobRecord) -> bool {
    queue_instant(a) < queue_instant(b) || (queue_instant(a) == queue_instant(b) && a.id < b.id)
}

/// Where a job stands on the queue page at `now`: ready jobs first, then
/// jobs still cooling down, then permanent failures.
pub open spec fn list_rank(j: DownloadJobRecord, now: int) -> int {
    match j.state {
        DownloadJobState::Queued => 0,
        DownloadJobState::CoolingDown | DownloadJobState::UndecryptablePending => if retry_due(
            j,
            now,
        ) {
            0
        } else {
            1
        },
        DownloadJobState::FailedPermanent => 2,
        _ => 3,
    }
}

/// `a` is listed before `b` at `now`.
pub open spec fn list_before(a: DownloadJobRecord, b: DownloadJobRecord, now: int) -> bool {
    list_rank(a, now) < list_rank(b, now) || (list_rank(a, now) == list_rank(b, now)
        && claim_before(a, b))
}

pub open spec fn selected(j: DownloadJobRecord, sel: JobSelector) -> bool {
    match sel {
        JobSelector::Id(id) => j.id == id,
        JobSelector::IdInState(id, s) => j.id == id && j.state == s,
        JobSelector::State(s) => j.state == s,
        JobSelector::FailedNoLaterThan(t) => j.state == DownloadJobState::FailedPermanent
            && last_touched(j) <= t,
    }
}

pub open spec fn updated(j: DownloadJobRecord, u: JobUpdate) -> DownloadJobRecord {
    match u {
        JobUpdate::Requeue { last_error, clock } => DownloadJobRecord {
            state: DownloadJobState::Queued,
            last_error,
            next_eligible_at: None,
            updated_at: clock,
            ..j
        },
        JobUpdate::Retry { clock } => DownloadJobRecord {
            state: DownloadJobState::Queued,
            retry_count: 0,
            next_eligible_at: None,
            last_failure_at: None,
            last_error: None,
            updated_at: clock,
            ..j
        },
        JobUpdate::Claim { clock } => DownloadJobRecord {
            state: DownloadJobState::Downloading,
            last_error: None,
            next_eligible_at: None,
            updated_at: clock,
            ..j
        },
        JobUpdate::Complete { sha256, saved_relative_path, clock } => DownloadJobRecord {
            state: DownloadJobState::Completed,
            sha256: Some(sha256),
            saved_relative_path: Some(saved_relative_path),
            updated_at: clock,
            ..j
        },
        JobUpdate::Duplicate { sha256, saved_relative_path, clock } => DownloadJobRecord {
            state: DownloadJobState::DuplicateCompleted,
            sha256: Some(sha256),
            saved_relative_path,
            updated_at: clock,
            ..j
        },
        JobUpdate::CoolDown {
            retry_count,
            next_eligible_at,
            error,
            permanently_failed,
            clock,
        } => DownloadJobRecord {
            state: if permanently_failed {
                DownloadJobState::FailedPermanent
            } else {
                DownloadJobState::CoolingDown
            },
            retry_count,
            next_eligible_at: Some(next_eligible_at),
            last_failure_at: Some(clock),
            last_error: Some(error),
            updated_at: clock,
            ..j
        },
        JobUpdate::Undecryptable { next_eligible_at, error, clock } => DownloadJobRecord {
            state: DownloadJobState::UndecryptablePending,
            next_eligible_at: Some(next_eligible_at),
            last_failure_at: Some(clock),
            last_error: Some(error),
            updated_at: clock,
            ..j
        },
        JobUpdate::Interrupted { note, clock } => DownloadJobRecord {
            state: DownloadJobState::Queued,
            updated_at: clock,
            last_error: match j.last_error {
                Some(e) => Some(e),
                None => Some(note),
            },
            ..j
        },
    }
}

/// The job that a new discovery puts into the queue.
pub open spec fn new_job(d: AttachmentDiscovery, id: i64, clock: i64) -> DownloadJobRecord {
    DownloadJobRecord {
        id,
        room_id: d.room_id,
        event_id: d.event_id,
        mxc_url: d.mxc_url,
        original_filename: d.original_filename,
        mime_type: d.mime_type,
        category: d.category,
        state: DownloadJobState::Queued,
        retry_count: 0,
        next_eligible_at: None,
        last_failure_at: None,
        last_error: None,
        sha256: None,
        saved_relative_path: None,
        created_at: clock,
        updated_at: clock,
    }
}

/// The jobs of `s` that `sel` does not select, in order.
pub open spec fn without_selected(s: Seq<DownloadJobRecord>, sel: JobSelector) -> Seq<
    DownloadJobRecord,
>
    decreases s.len(),
{
    if s.len() == 0 {
        s
    } else {
        let rest = without_selected(s.drop_last(), sel);
        if selected(s.last(), sel) {
            rest
        } else {
            rest.push(s.last())
        }
    }
}

/// How many jobs of `s` satisfy `sel`.
pub open spec fn count_selected(s: Seq<DownloadJobRecord>, sel: JobSelector) -> nat
    decreases s.len(),
{
    if s.len() == 0 {
        0
    } else {
        count_selected(s.drop_last(), sel) + if selected(s.last(), sel) {
            1nat
        } else {
            0nat
        }
    }
}

/// How many jobs of `s` are waiting.
pub open spec fn count_waiting(s: Seq<DownloadJobRecord>) -> nat
    decreases s.len(),
{
    if s.len() == 0 {
        0
    } else {
        count_waiting(s.drop_last()) + if waiting(s.last()) {
            1nat
        } else {
            0nat
        }
    }
}

/// Job ids increase along the queue and stay below the next id to hand out.
pub open spec fn ids_ordered(s: Seq<DownloadJobRecord>, next_id: int) -> bool {
    &&& forall|i: int, k: int| 0 <= i < k < s.len() ==> s[i].id < s[k].id
    &&& forall|i: int| 0 <= i < s.len() ==> 1 <= #[trigger] s[i].id < next_id
}

pub open spec fn has_discovery(s: Seq<DiscoveryRecord>, room: Seq<char>, event: Seq<char>) -> bool {
    exists|i: int| 0 <= i < s.len() && s[i].room_id@ == room && s[i].event_id@ == event
}

pub open spec fn has_job_for(s: Seq<DownloadJobRecord>, room: Seq<char>, event: Seq<char>) -> bool {
    exists|i: int| 0 <= i < s.len() && s[i].room_id@ == room && s[i].event_id@ == event
}

pub open spec fn completed_match(
    j: DownloadJobRecord,
    room: Seq<char>,
    category: MediaCategory,
    sha: Seq<char>,
) -> bool {
    &&& j.room_id@ == room
    &&& j.category == category
    &&& j.sha256 is Some && j.sha256->0@ == sha
    &&& (j.state == DownloadJobState::Completed || j.state == DownloadJobState::DuplicateCompleted)
}

pub fn copy_opt_string(o: &Option<String>) -> (r: Option<String>)
    ensures
        r == *o,
{
    match o {
        Some(s) => Some(s.clone()),
        None => None,
    }
}

/// A field-by-field copy of a job.
pub fn copy_job(j: &DownloadJobRecord) -> (r: DownloadJobRecord)
    ensures
        r == *j,
{
    DownloadJobRecord {
        id: j.id,
        room_id: j.room_id.clone(),
        event_id: j.event_id.clone(),
        mxc_url: j.mxc_url.clone(),
        original_filename: copy_opt_string(&j.original_filename),
        mime_type: copy_opt_string(&j.mime_type),
        category: j.category,
        state: j.state,
        retry_count: j.retry_count,
        next_eligible_at: j.next_eligible_at,
        last_failure_at: j.last_failure_at,
        last_error: copy_opt_string(&j.last_error),
        sha256: copy_opt_string(&j.sha256),
        saved_relative_path: copy_opt_string(&j.saved_relative_path),
        created_at: j.created_at,
        updated_at: j.updated_at,
    }
}

fn queue_instant_of(j: &DownloadJobRecord) -> (t: i64)
    ensures
        t as int == queue_instant(*j),
{
    match j.last_failure_at {
        Some(t) => t,
        None => j.created_at,
    }
}

fn retry_due_at(j: &DownloadJobRecord, now: i64) -> (b: bool)
    ensures
        b == retry_due(*j, now as int),
{
    match j.next_eligible_at {
        Some(t) => t <= now,
        None => true,
    }
}

fn is_claimable(j: &DownloadJobRecord, now: i64) -> (b: bool)
    ensures
        b == claimable(*j, now as int),
{
    match j.state {
        DownloadJobState::Queued => true,
        DownloadJobState::CoolingDown | DownloadJobState::UndecryptablePending => retry_due_at(
            j,
            now,
        ),
        _ => false,
    }
}

fn is_listed(j: &DownloadJobRecord) -> (b: bool)
    ensures
        b == listed(*j),
{
    match j.state {
        DownloadJobState::Queued | DownloadJobState::CoolingDown
        | DownloadJobState::UndecryptablePending | DownloadJobState::FailedPermanent => true,
        _ => false,
    }
}

fn is_waiting(j: &DownloadJobRecord) -> (b: bool)
    ensures
        b == waiting(*j),
{
    match j.state {
        DownloadJobState::Queued | DownloadJobState::CoolingDown
        | DownloadJobState::UndecryptablePending => true,
        _ => false,
    }
}

fn is_claimed_before(a: &DownloadJobRecord, b: &DownloadJobRecord) -> (r: bool)
    ensures
        r == claim_before(*a, *b),
{
    let ta = queue_instant_of(a);
    let tb = queue_instant_of(b);
    ta < tb || (ta == tb && a.id < b.id)
}

fn list_rank_of(j: &DownloadJobRecord, now: i64) -> (r: u8)
    ensures
        r as int == list_rank(*j, now as int),
{
    match j.state {
        DownloadJobState::Queued => 0,
        DownloadJobState::CoolingDown | DownloadJobState::UndecryptablePending => if retry_due_at(
            j,
            now,
        ) {
            0
        } else {
            1
        },
        DownloadJobState::FailedPermanent => 2,
        _ => 3,
    }
}

fn is_listed_before(a: &DownloadJobRecord, b: &DownloadJobRecord, now: i64) -> (r: bool)
    ensures
        r == list_before(*a, *b, now as int),
{
    let ra = list_rank_of(a, now);
    let rb = list_rank_of(b, now);
    ra < rb || (ra == rb && is_claimed_before(a, b))
}

fn is_selected(j: &DownloadJobRecord, sel: JobSelector) -> (b: bool)
    ensures
        b == selected(*j, sel),
{
    match sel {
        JobSelector::Id(id) => j.id == id,
        JobSelector::IdInState(id, s) => j.id == id && j.state == s,
        JobSelector::State(s) => j.state == s,
        JobSelector::FailedNoLaterThan(t) => {
            let touched = match j.last_failure_at {
                Some(f) => f,
                None => j.updated_at,
            };
            j.state == DownloadJobState::FailedPermanent && touched <= t
        },
    }
}

fn apply_update(j: &DownloadJobRecord, u: &JobUpdate) -> (r: DownloadJobRecord)
    ensures
        r == updated(*j, *u),
{
    let mut r = copy_job(j);
    match u {
        JobUpdate::Requeue { last_error, clock } => {
            r.state = DownloadJobState::Queued;
            r.last_error = copy_opt_string(last_error);
            r.next_eligible_at = None;
            r.updated_at = *clock;
        },
        JobUpdate::Retry { clock } => {
            r.state = DownloadJobState::Queued;
            r.retry_count = 0;
            r.next_eligible_at = None;
            r.last_failure_at = None;
            r.last_error = None;
            r.updated_at = *clock;
        },
        JobUpdate::Claim { clock } => {
            r.state = DownloadJobState::Downloading;
            r.last_error = None;
            r.next_eligible_at = None;
            r.updated_at = *clock;
        },
        JobUpdate::Complete { sha256, saved_relative_path, clock } => {
            r.state = DownloadJobState::Completed;
            r.sha256 = Some(sha256.clone());
            r.saved_relative_path = Some(saved_relative_path.clone());
            r.updated_at = *clock;
        },
        JobUpdate::Duplicate { sha256, saved_relative_path, clock } => {
            r.state = DownloadJobState::DuplicateCompleted;
            r.sha256 = Some(sha256.clone());
            r.saved_relative_path = copy_opt_string(saved_relative_path);
            r.updated_at = *clock;
        },
        JobUpdate::CoolDown {
            retry_count,
            next_eligible_at,
            error,
            permanently_failed,
            clock,
        } => {
            r.state = if *permanently_failed {
                DownloadJobState::FailedPermanent
            } else {
                DownloadJobState::CoolingDown
            };
            r.retry_count = *retry_count;
            r.next_eligible_at = Some(*next_eligible_at);
            r.last_failure_at = Some(*clock);
            r.last_error = Some(error.clone());
            r.updated_at = *clock;
        },
        JobUpdate::Undecryptable { next_eligible_at, error, clock } => {
            r.state = DownloadJobState::UndecryptablePending;
            r.next_eligible_at = Some(*next_eligible_at);
            r.last_failure_at = Some(*clock);
            r.last_error = Some(error.clone());
            r.updated_at = *clock;
        },
        JobUpdate::Interrupted { note, clock } => {
            r.state = DownloadJobState::Queued;
            r.updated_at = *clock;
            if r.last_error.is_none() {
                r.last_error = Some(note.clone());
            }
        },
    }
    r
}

/// Every job that survives a removal was in the queue and not selected.
proof fn lemma_without_selected_from(s: Seq<DownloadJobRecord>, sel: JobSelector)
    ensures
        forall|k: int|
            0 <= k < without_selected(s, sel).len() ==> exists|i: int|
                0 <= i < s.len() && #[trigger] without_selected(s, sel)[k] == s[i] && !selected(
                    s[i],
                    sel,
                ),
    decreases s.len(),
{
    if s.len() > 0 {
        let pre = s.drop_last();
        lemma_without_selected_from(pre, sel);
        let rest = without_selected(pre, sel);
        let r = without_selected(s, sel);
        assert forall|k: int| 0 <= k < r.len() implies exists|i: int|
            0 <= i < s.len() && #[trigger] r[k] == s[i] && !selected(s[i], sel) by {
            if k < rest.len() {
                let i = choose|i: int|
                    0 <= i < pre.len() && #[trigger] rest[k] == pre[i] && !selected(pre[i], sel);
                assert(r[k] == s[i]);
            } else {
                assert(r[k] == s[s.len() - 1]);
            }
        }
    }
}

/// No job that survives a removal is selected.
proof fn lemma_without_selected_unselected(s: Seq<DownloadJobRecord>, sel: JobSelector)
    ensures
        forall|k: int|
            0 <= k < without_selected(s, sel).len() ==> !selected(
                #[trigger] without_selected(s, sel)[k],
                sel,
            ),
{
    lemma_without_selected_from(s, sel);
    assert forall|k: int| 0 <= k < without_selected(s, sel).len() implies !selected(
        #[trigger] without_selected(s, sel)[k],
        sel,
    ) by {
        let i = choose|i: int|
            0 <= i < s.len() && #[trigger] without_selected(s, sel)[k] == s[i] && !selected(
                s[i],
                sel,
            );
    }
}

/// Every job that a removal does not select survives it.
proof fn lemma_without_selected_keeps(s: Seq<DownloadJobRecord>, sel: JobSelector)
    ensures
        forall|i: int| 0 <= i < s.len() && !selected(s[i], sel) ==> exists|k: int|
            0 <= k < without_selected(s, sel).len() && without_selected(s, sel)[k] == #[trigger] s[i],
        without_selected(s, sel).len() + count_selected(s, sel) == s.len(),
    decreases s.len(),
{
    if s.len() > 0 {
        let pre = s.drop_last();
        lemma_without_selected_keeps(pre, sel);
        let rest = without_selected(pre, sel);
        let r = without_selected(s, sel);
        assert forall|i: int| 0 <= i < s.len() && !selected(s[i], sel) implies exists|k: int|
            0 <= k < r.len() && r[k] == #[trigger] s[i] by {
            if i < s.len() - 1 {
                assert(pre[i] == s[i]);
                let k = choose|k: int| 0 <= k < rest.len() && rest[k] == #[trigger] pre[i];
                assert(r[k] == s[i]);
            } else {
                assert(r[rest.len() as int] == s[i]);
            }
        }
    }
}

proof fn lemma_ids_ordered_prefix(s: Seq<DownloadJobRecord>, next_id: int)
    requires
        s.len() > 0,
        ids_ordered(s, next_id),
    ensures
        ids_ordered(s.drop_last(), next_id),
{
    let pre = s.drop_last();
    assert forall|i: int, k: int| 0 <= i < k < pre.len() implies pre[i].id < pre[k].id by {
        assert(pre[i] == s[i] && pre[k] == s[k]);
    }
    assert forall|i: int| 0 <= i < pre.len() implies 1 <= #[trigger] pre[i].id < next_id by {
        assert(pre[i] == s[i]);
    }
}

/// Removing jobs keeps ids in order.
proof fn lemma_without_selected_ordered(s: Seq<DownloadJobRecord>, sel: JobSelector, next_id: int)
    requires
        ids_ordered(s, next_id),
    ensures
        ids_ordered(without_selected(s, sel), next_id),
    decreases s.len(),
{
    if s.len() > 0 {
        let pre = s.drop_last();
        lemma_ids_ordered_prefix(s, next_id);
        lemma_without_selected_ordered(pre, sel, next_id);
        lemma_without_selected_from(pre, sel);
        let rest = without_selected(pre, sel);
        let r = without_selected(s, sel);
        if !selected(s.last(), sel) {
            assert forall|i: int, k: int| 0 <= i < k < r.len() implies r[i].id < r[k].id by {
                if k < rest.len() {
                    assert(r[i] == rest[i] && r[k] == rest[k]);
                } else {
                    let a = choose|a: int|
                        0 <= a < pre.len() && #[trigger] rest[i] == pre[a] && !selected(
                            pre[a],
                            sel,
                        );
                    assert(r[i] == s[a]);
                    assert(r[k] == s[s.len() - 1]);
                }
            }
            assert forall|i: int| 0 <= i < r.len() implies 1 <= #[trigger] r[i].id < next_id by {
                if i < rest.len() {
                    assert(r[i] == rest[i]);
                }
            }
        }
    }
}

impl JobQueue {
    pub closed spec fn jobs(&self) -> Seq<DownloadJobRecord> {
        self.jobs@
    }

    pub closed spec fn discovered(&self) -> Seq<DiscoveryRecord> {
        self.discovered@
    }

    pub closed spec fn next_id(&self) -> int {
        self.next_id as int
    }

    /// Job ids are unique, increasing along the queue, and below the next id.
    pub open spec fn wf(&self) -> bool {
        &&& 1 <= self.next_id()
        &&& ids_ordered(self.jobs(), self.next_id())
        &&& self.jobs().len() < self.next_id()
    }

    /// An empty queue.
    pub fn new() -> (q: Self)
        ensures
            q.wf(),
            q.jobs().len() == 0,
            q.discovered().len() == 0,
            q.next_id() == 1,
    {
        JobQueue { jobs: Vec::new(), discovered: Vec::new(), next_id: 1 }
    }

    /// Applies `u` to the selected jobs; returns how many were selected.
    fn update_where(&mut self, sel: JobSelector, u: &JobUpdate) -> (n: usize)
        requires
            old(self).wf(),
        ensures
            final(self).wf(),
            final(self).discovered() == old(self).discovered(),
            final(self).next_id() == old(self).next_id(),
            final(self).jobs().len() == old(self).jobs().len(),
            forall|i: int|
                0 <= i < old(self).jobs().len() ==> #[trigger] final(self).jobs()[i] == if selected(
                    old(self).jobs()[i],
                    sel,
                ) {
                    updated(old(self).jobs()[i], *u)
                } else {
                    old(self).jobs()[i]
                },
            n == count_selected(old(self).jobs(), sel),
    {
        let ghost start = self.jobs@;
        let mut n: usize = 0;
        let mut i: usize = 0;
        while i < self.jobs.len()
            invariant
                start == old(self).jobs@,
                self.jobs@.len() == start.len(),
                i <= start.len(),
                forall|k: int|
                    0 <= k < i ==> #[trigger] self.jobs@[k] == if selected(start[k], sel) {
                        updated(start[k], *u)
                    } else {
                        start[k]
                    },
                forall|k: int| i <= k < start.len() ==> #[trigger] self.jobs@[k] == start[k],
                n == count_selected(start.take(i as int), sel),
                n <= i,
                self.discovered@ == old(self).discovered@,
                self.next_id == old(self).next_id,
            decreases start.len() - i,
        {
            proof {
                assert(start.take(i + 1).drop_last() =~= start.take(i as int));
                assert(start.take(i + 1).last() == start[i as int]);
            }
            if is_selected(&self.jobs[i], sel) {
                let nj = apply_update(&self.jobs[i], u);
                self.jobs.set(i, nj);
                n = n + 1;
            }
            i = i + 1;
        }
        proof {
            assert(start.take(start.len() as int) =~= start);
            assert forall|k: int| 0 <= k < self.jobs@.len() implies #[trigger] self.jobs@[k].id
                == start[k].id by {
                assert(self.jobs@[k] == if selected(start[k], sel) {
                    updated(start[k], *u)
                } else {
                    start[k]
                });
            }
        }
        n
    }

    /// Removes the selected jobs; returns how many were removed.
    fn remove_where(&mut self, sel: JobSelector) -> (n: usize)
        requires
            old(self).wf(),
        ensures
            final(self).wf(),
            final(self).discovered() == old(self).discovered(),
            final(self).next_id() == old(self).next_id(),
            final(self).jobs() == without_selected(old(self).jobs(), sel),
            forall|k: int| 0 <= k < final(self).jobs().len() ==> !selected(#[trigger] final(self).jobs()[k], sel),
            n == count_selected(old(self).jobs(), sel),
    {
        let ghost start = self.jobs@;
        let mut kept: Vec<DownloadJobRecord> = Vec::new();
        let mut n: usize = 0;
        let mut i: usize = 0;
        while i < self.jobs.len()
            invariant
                start == old(self).jobs@,
                self.jobs@ == start,
                i <= start.len(),
                kept@ == without_selected(start.take(i as int), sel),
                n == count_selected(start.take(i as int), sel),
                n <= i,
            decreases start.len() - i,
        {
            proof {
                assert(start.take(i + 1).drop_last() =~= start.take(i as int));
                assert(start.take(i + 1).last() == start[i as int]);
            }
            if is_selected(&self.jobs[i], sel) {
                n = n + 1;
            } else {
                kept.push(copy_job(&self.jobs[i]));
            }
            i = i + 1;
        }
        proof {
            assert(start.take(start.len() as int) =~= start);
            lemma_without_selected_ordered(start, sel, self.next_id as int);
            lemma_without_selected_keeps(start, sel);
            lemma_without_selected_unselected(start, sel);
        }
        self.jobs = kept;
        n
    }

    /// Index of the job a worker claims next at `now`: the claimable job that
    /// failed or was created earliest, lowest id first.
    fn next_claimable(&self, now: i64) -> (r: Option<usize>)
        requires
            self.wf(),
        ensures
            match r {
                None => forall|i: int|
                    0 <= i < self.jobs().len() ==> !claimable(#[trigger] self.jobs()[i], now as int),
                Some(k) => {
                    &&& k < self.jobs().len()
                    &&& claimable(self.jobs()[k as int], now as int)
                    &&& forall|i: int|
                        0 <= i < self.jobs().len() && i != k && claimable(
                            #[trigger] self.jobs()[i],
                            now as int,
                        ) ==> claim_before(self.jobs()[k as int], self.jobs()[i])
                },
            },
    {
        let mut best: Option<usize> = None;
        let mut i: usize = 0;
        while i < self.jobs.len()
            invariant
                self.wf(),
                i <= self.jobs@.len(),
                match best {
                    None => forall|j: int| 0 <= j < i ==> !claimable(#[trigger] self.jobs@[j], now as int),
                    Some(b) => {
                        &&& b < i
                        &&& claimable(self.jobs@[b as int], now as int)
                        &&& forall|j: int|
                            0 <= j < i && j != b && claimable(#[trigger] self.jobs@[j], now as int)
                                ==> claim_before(self.jobs@[b as int], self.jobs@[j])
                    },
                },
            decreases self.jobs@.len() - i,
        {
            if is_claimable(&self.jobs[i], now) {
                match best {
                    None => {
                        best = Some(i);
                    },
                    Some(b) => {
                        if is_claimed_before(&self.jobs[i], &self.jobs[b]) {
                            best = Some(i);
                        } else {
                            assert(self.jobs@[b as int].id != self.jobs@[i as int].id);
                        }
                    },
                }
            }
            i = i + 1;
        }
        best
    }

    /// Index of the listed job that comes first at `now` among those listed
    /// after the job at `after`.
    fn next_listed(&self, now: i64, after: Option<usize>) -> (r: Option<usize>)
        requires
            self.wf(),
            after matches Some(a) ==> a < self.jobs().len(),
        ensures
            match r {
                None => forall|i: int|
                    0 <= i < self.jobs().len() ==> !(listed(#[trigger] self.jobs()[i]) && (
                    after matches Some(a) ==> list_before(self.jobs()[a as int], self.jobs()[i], now as int))),
                Some(k) => {
                    &&& k < self.jobs().len()
                    &&& listed(self.jobs()[k as int])
                    &&& (after matches Some(a) ==> list_before(self.jobs()[a as int], self.jobs()[k as int], now as int))
                    &&& forall|i: int|
                        0 <= i < self.jobs().len() && i != k && listed(#[trigger] self.jobs()[i])
                            && (after matches Some(a) ==> list_before(self.jobs()[a as int], self.jobs()[i], now as int))
                            ==> list_before(self.jobs()[k as int], self.jobs()[i], now as int)
                },
            },
    {
        let mut best: Option<usize> = None;
        let mut i: usize = 0;
        while i < self.jobs.len()
            invariant
                self.wf(),
                after matches Some(a) ==> a < self.jobs@.len(),
                i <= self.jobs@.len(),
                match best {
                    None => forall|j: int|
                        0 <= j < i ==> !(listed(#[trigger] self.jobs@[j]) && (after matches Some(a)
                            ==> list_before(self.jobs@[a as int], self.jobs@[j], now as int))),
                    Some(b) => {
                        &&& b < i
                        &&& listed(self.jobs@[b as int])
                        &&& (after matches Some(a) ==> list_before(self.jobs@[a as int], self.jobs@[b as int], now as int))
                        &&& forall|j: int|
                            0 <= j < i && j != b && listed(#[trigger] self.jobs@[j])
                                && (after matches Some(a) ==> list_before(self.jobs@[a as int], self.jobs@[j], now as int))
                                ==> list_before(self.jobs@[b as int], self.jobs@[j], now as int)
                    },
                },
            decreases self.jobs@.len() - i,
        {
            let candidate = is_listed(&self.jobs[i]) && match after {
                None => true,
                Some(a) => is_listed_before(&self.jobs[a], &self.jobs[i], now),
            };
            if candidate {
                match best {
                    None => {
                        best = Some(i);
                    },
                    Some(b) => {
                        if is_listed_before(&self.jobs[i], &self.jobs[b], now) {
                            best = Some(i);
                        } else {
                            assert(self.jobs@[b as int].id != self.jobs@[i as int].id);
                        }
                    },
                }
            }
            i = i + 1;
        }
        best
    }

    /// Records a discovered attachment and queues a download for it. Returns
    /// `false` when the attachment was already known, and fails only when no
    /// job id is left to hand out.
    pub fn enqueue_discovery(&mut self, discovery: &AttachmentDiscovery, clock: i64) -> (r: Result<
        bool,
        ArchiveError,
    >)
        requires
            old(self).wf(),
        ensures
            final(self).wf(),
            has_discovery(final(self).discovered(), discovery.room_id@, discovery.event_id@),
            has_discovery(old(self).discovered(), discovery.room_id@, discovery.event_id@) ==> {
                &&& r == Ok::<bool, ArchiveError>(false)
                &&& final(self).jobs() == old(self).jobs()
                &&& final(self).discovered() == old(self).discovered()
                &&& final(self).next_id() == old(self).next_id()
            },
            !has_discovery(old(self).discovered(), discovery.room_id@, discovery.event_id@) ==> {
                &&& final(self).discovered() == old(self).discovered().push(
                    DiscoveryRecord {
                        room_id: discovery.room_id,
                        event_id: discovery.event_id,
                        origin_timestamp: discovery.origin_server_timestamp,
                    },
                )
                &&& if has_job_for(old(self).jobs(), discovery.room_id@, discovery.event_id@) {
                    &&& r == Ok::<bool, ArchiveError>(true)
                    &&& final(self).jobs() == old(self).jobs()
                    &&& final(self).next_id() == old(self).next_id()
                } else if old(self).next_id() == i64::MAX {
                    &&& r matches Err(ArchiveError::QueueFull)
                    &&& final(self).jobs() == old(self).jobs()
                    &&& final(self).next_id() == old(self).next_id()
                } else {
                    &&& r == Ok::<bool, ArchiveError>(true)
                    &&& final(self).jobs() == old(self).jobs().push(
                        new_job(*discovery, old(self).next_id() as i64, clock),
                    )
                    &&& final(self).next_id() == old(self).next_id() + 1
                }
            },
    {
        let mut i: usize = 0;
        while i < self.discovered.len()
            invariant
                old(self).wf(),
                self.jobs@ == old(self).jobs@,
                self.discovered@ == old(self).discovered@,
                self.next_id == old(self).next_id,
                i <= self.discovered@.len(),
                forall|k: int|
                    0 <= k < i ==> !(#[trigger] self.discovered@[k].room_id@ == discovery.room_id@
                        && self.discovered@[k].event_id@ == discovery.event_id@),
            decreases self.discovered@.len() - i,
        {
            if self.discovered[i].room_id == discovery.room_id && self.discovered[i].event_id
                == discovery.event_id {
                assert(has_discovery(old(self).discovered@, discovery.room_id@, discovery.event_id@)) by {
                    assert(old(self).discovered@[i as int].room_id@ == discovery.room_id@);
                }
                return Ok(false);
            }
            i = i + 1;
        }
        self.discovered.push(
            DiscoveryRecord {
                room_id: discovery.room_id.clone(),
                event_id: discovery.event_id.clone(),
                origin_timestamp: discovery.origin_server_timestamp,
            },
        );
        assert(self.discovered@[self.discovered@.len() - 1].room_id@ == discovery.room_id@);
        assert(has_discovery(self.discovered@, discovery.room_id@, discovery.event_id@));
        let ghost seen = self.discovered@;
        assert(seen == old(self).discovered@.push(
            DiscoveryRecord {
                room_id: discovery.room_id,
                event_id: discovery.event_id,
                origin_timestamp: discovery.origin_server_timestamp,
            },
        ));
        let mut j: usize = 0;
        while j < self.jobs.len()
            invariant
                old(self).wf(),
                !has_discovery(old(self).discovered@, discovery.room_id@, discovery.event_id@),
                self.jobs@ == old(self).jobs@,
                self.discovered@ == seen,
                has_discovery(seen, discovery.room_id@, discovery.event_id@),
                seen == old(self).discovered@.push(
                    DiscoveryRecord {
                        room_id: discovery.room_id,
                        event_id: discovery.event_id,
                        origin_timestamp: discovery.origin_server_timestamp,
                    },
                ),
                self.next_id == old(self).next_id,
                j <= self.jobs@.len(),
                forall|k: int|
                    0 <= k < j ==> !(#[trigger] self.jobs@[k].room_id@ == discovery.room_id@
                        && self.jobs@[k].event_id@ == discovery.event_id@),
            decreases self.jobs@.len() - j,
        {
            if self.jobs[j].room_id == discovery.room_id && self.jobs[j].event_id
                == discovery.event_id {
                assert(has_job_for(old(self).jobs@, discovery.room_id@, discovery.event_id@)) by {
                    assert(old(self).jobs@[j as int].room_id@ == discovery.room_id@);
                }
                return Ok(true);
            }
            j = j + 1;
        }
        if self.next_id == i64::MAX {
            return Err(ArchiveError::QueueFull);
        }
        let job = DownloadJobRecord {
            id: self.next_id,
            room_id: discovery.room_id.clone(),
            event_id: discovery.event_id.clone(),
            mxc_url: discovery.mxc_url.clone(),
            original_filename: copy_opt_string(&discovery.original_filename),
            mime_type: copy_opt_string(&discovery.mime_type),
            category: discovery.category,
            state: DownloadJobState::Queued,
            retry_count: 0,
            next_eligible_at: None,
            last_failure_at: None,
            last_error: None,
            sha256: None,
            saved_relative_path: None,
            created_at: clock,
            updated_at: clock,
        };
        self.jobs.push(job);
        self.next_id = self.next_id + 1;
        Ok(true)
    }

    /// Hands the next eligible job to a download worker: among queued jobs and
    /// jobs whose retry delay has passed at `now`, the one that failed or was
    /// created earliest (lowest id first). The job becomes `Downloading` and
    /// its error and retry delay are cleared; `clock` stamps the change.
    pub fn claim_next_eligible_job(&mut self, now: i64, clock: i64) -> (r: Option<
        DownloadJobRecord,
    >)
        requires
            old(self).wf(),
        ensures
            final(self).wf(),
            final(self).discovered() == old(self).discovered(),
            final(self).next_id() == old(self).next_id(),
            match r {
                None => {
                    &&& final(self).jobs() == old(self).jobs()
                    &&& forall|i: int|
                        0 <= i < old(self).jobs().len() ==> !claimable(
                            #[trigger] old(self).jobs()[i],
                            now as int,
                        )
                },
                Some(job) => exists|k: int|
                    {
                        &&& 0 <= k < old(self).jobs().len()
                        &&& claimable(old(self).jobs()[k], now as int)
                        &&& forall|i: int|
                            0 <= i < old(self).jobs().len() && i != k && claimable(
                                #[trigger] old(self).jobs()[i],
                                now as int,
                            ) ==> claim_before(old(self).jobs()[k], old(self).jobs()[i])
                        &&& job == updated(old(self).jobs()[k], JobUpdate::Claim { clock })
                        &&& final(self).jobs() == old(self).jobs().update(k, job)
                    },
            },
    {
        match self.next_claimable(now) {
            None => None,
            Some(k) => {
                let u = JobUpdate::Claim { clock };
                let nj = apply_update(&self.jobs[k], &u);
                let out = copy_job(&nj);
                self.jobs.set(k, nj);
                proof {
                    assert forall|i: int| 0 <= i < self.jobs@.len() implies #[trigger] self.jobs@[i].id
                        == old(self).jobs@[i].id by {
                    }
                    assert(self.jobs@ =~= old(self).jobs@.update(k as int, out));
                }
                Some(out)
            },
        }
    }

    /// Puts a job back into the queue, with `last_error` as its note.
    pub fn mark_job_queued(&mut self, id: i64, last_error: Option<String>, clock: i64)
        requires
            old(self).wf(),
        ensures
            final(self).wf(),
            final(self).discovered() == old(self).discovered(),
            final(self).next_id() == old(self).next_id(),
            final(self).jobs().len() == old(self).jobs().len(),
            forall|i: int|
                0 <= i < old(self).jobs().len() ==> #[trigger] final(self).jobs()[i] == if old(
                    self,
                ).jobs()[i].id == id {
                    updated(old(self).jobs()[i], JobUpdate::Requeue { last_error, clock })
                } else {
                    old(self).jobs()[i]
                },
    {
        self.update_where(JobSelector::Id(id), &JobUpdate::Requeue { last_error, clock });
    }

    /// Gives a permanently failed job a fresh start; `false` when no
    /// permanently failed job has this id.
    pub fn retry_permanent_failed_job(&mut self, id: i64, clock: i64) -> (r: bool)
        requires
            old(self).wf(),
        ensures
            final(self).wf(),
            final(self).discovered() == old(self).discovered(),
            final(self).next_id() == old(self).next_id(),
            final(self).jobs().len() == old(self).jobs().len(),
            forall|i: int|
                0 <= i < old(self).jobs().len() ==> #[trigger] final(self).jobs()[i] == if selected(
                    old(self).jobs()[i],
                    JobSelector::IdInState(id, DownloadJobState::FailedPermanent),
                ) {
                    updated(old(self).jobs()[i], JobUpdate::Retry { clock })
                } else {
                    old(self).jobs()[i]
                },
            r == (count_selected(
                old(self).jobs(),
                JobSelector::IdInState(id, DownloadJobState::FailedPermanent),
            ) > 0),
    {
        let n = self.update_where(
            JobSelector::IdInState(id, DownloadJobState::FailedPermanent),
            &JobUpdate::Retry { clock },
        );
        n > 0
    }

    /// Gives every permanently failed job a fresh start; returns how many.
    pub fn retry_all_permanent_failed_jobs(&mut self, clock: i64) -> (r: usize)
        requires
            old(self).wf(),
        ensures
            final(self).wf(),
            final(self).discovered() == old(self).discovered(),
            final(self).next_id() == old(self).next_id(),
            final(self).jobs().len() == old(self).jobs().len(),
            forall|i: int|
                0 <= i < old(self).jobs().len() ==> #[trigger] final(self).jobs()[i] == if old(
                    self,
                ).jobs()[i].state == DownloadJobState::FailedPermanent {
                    updated(old(self).jobs()[i], JobUpdate::Retry { clock })
                } else {
                    old(self).jobs()[i]
                },
            r == count_selected(
                old(self).jobs(),
                JobSelector::State(DownloadJobState::FailedPermanent),
            ),
            forall|i: int|
                0 <= i < final(self).jobs().len() ==> (#[trigger] final(self).jobs()[i]).state
                    != DownloadJobState::FailedPermanent,
    {
        self.update_where(
            JobSelector::State(DownloadJobState::FailedPermanent),
            &JobUpdate::Retry { clock },
        )
    }

    /// Removes a permanently failed job; `false` when there is none with this id.
    pub fn clear_permanent_failed_job(&mut self, id: i64) -> (r: bool)
        requires
            old(self).wf(),
        ensures
            final(self).wf(),
            final(self).discovered() == old(self).discovered(),
            final(self).next_id() == old(self).next_id(),
            final(self).jobs() == without_selected(
                old(self).jobs(),
                JobSelector::IdInState(id, DownloadJobState::FailedPermanent),
            ),
            r == (count_selected(
                old(self).jobs(),
                JobSelector::IdInState(id, DownloadJobState::FailedPermanent),
            ) > 0),
    {
        let n = self.remove_where(JobSelector::IdInState(id, DownloadJobState::FailedPermanent));
        n > 0
    }

    /// Removes every permanently failed job; returns how many.
    pub fn clear_all_permanent_failed_jobs(&mut self) -> (r: usize)
        requires
            old(self).wf(),
        ensures
            final(self).wf(),
            final(self).discovered() == old(self).discovered(),
            final(self).next_id() == old(self).next_id(),
            final(self).jobs() == without_selected(
                old(self).jobs(),
                JobSelector::State(DownloadJobState::FailedPermanent),
            ),
            r == count_selected(
                old(self).jobs(),
                JobSelector::State(DownloadJobState::FailedPermanent),
            ),
            forall|i: int|
                0 <= i < final(self).jobs().len() ==> (#[trigger] final(self).jobs()[i]).state
                    != DownloadJobState::FailedPermanent,
    {
        self.remove_where(JobSelector::State(DownloadJobState::FailedPermanent))
    }

    /// Removes the permanently failed jobs last touched at or before
    /// `older_than`; returns how many.
    pub fn prune_permanent_failed_jobs(&mut self, older_than: i64) -> (r: usize)
        requires
            old(self).wf(),
        ensures
            final(self).wf(),
            final(self).discovered() == old(self).discovered(),
            final(self).next_id() == old(self).next_id(),
            final(self).jobs() == without_selected(
                old(self).jobs(),
                JobSelector::FailedNoLaterThan(older_than),
            ),
            r == count_selected(old(self).jobs(), JobSelector::FailedNoLaterThan(older_than)),
    {
        self.remove_where(JobSelector::FailedNoLaterThan(older_than))
    }

    /// Puts every job that was downloading back into the queue, noting the
    /// interruption on those without an error text.
    pub fn reset_interrupted_jobs(&mut self, clock: i64)
        requires
            old(self).wf(),
        ensures
            final(self).wf(),
            final(self).discovered() == old(self).discovered(),
            final(self).next_id() == old(self).next_id(),
            final(self).jobs().len() == old(self).jobs().len(),
            forall|i: int|
                0 <= i < old(self).jobs().len() ==> {
                    let j = old(self).jobs()[i];
                    let k = #[trigger] final(self).jobs()[i];
                    if j.state == DownloadJobState::Downloading {
                        &&& k.state == DownloadJobState::Queued
                        &&& k.updated_at == clock
                        &&& k.last_error is Some
                        &&& (j.last_error is Some ==> k.last_error == j.last_error)
                        &&& (j.last_error is None ==> k.last_error->0@ == interrupted_note())
                        &&& k == DownloadJobRecord {
                            state: k.state,
                            updated_at: k.updated_at,
                            last_error: k.last_error,
                            ..j
                        }
                    } else {
                        k == j
                    }
                },
            forall|i: int|
                0 <= i < final(self).jobs().len() ==> (#[trigger] final(self).jobs()[i]).state
                    != DownloadJobState::Downloading,
    {
        let note = String::from_str("Interrupted download was reset on launch");
        let ghost n = note;
        self.update_where(
            JobSelector::State(DownloadJobState::Downloading),
            &JobUpdate::Interrupted { note, clock },
        );
    }

    /// Records a download saved at `saved_relative_path`.
    pub fn mark_job_completed(&mut self, id: i64, sha256: &str, saved_relative_path: &str, clock: i64)
        requires
            old(self).wf(),
        ensures
            final(self).wf(),
            final(self).discovered() == old(self).discovered(),
            final(self).next_id() == old(self).next_id(),
            final(self).jobs().len() == old(self).jobs().len(),
            forall|i: int|
                0 <= i < old(self).jobs().len() ==> {
                    let j = old(self).jobs()[i];
                    let k = #[trigger] final(self).jobs()[i];
                    if j.id == id {
                        &&& k.state == DownloadJobState::Completed
                        &&& k.sha256 is Some && k.sha256->0@ == sha256@
                        &&& k.saved_relative_path is Some && k.saved_relative_path->0@
                            == saved_relative_path@
                        &&& k.updated_at == clock
                        &&& k == DownloadJobRecord {
                            state: k.state,
                            sha256: k.sha256,
                            saved_relative_path: k.saved_relative_path,
                            updated_at: k.updated_at,
                            ..j
                        }
                    } else {
                        k == j
                    }
                },
    {
        let u = JobUpdate::Complete {
            sha256: sha256.to_owned(),
            saved_relative_path: saved_relative_path.to_owned(),
            clock,
        };
        self.update_where(JobSelector::Id(id), &u);
    }

    /// Records a download whose content was already archived.
    pub fn mark_job_duplicate(
        &mut self,
        id: i64,
        sha256: &str,
        saved_relative_path: Option<String>,
        clock: i64,
    )
        requires
            old(self).wf(),
        ensures
            final(self).wf(),
            final(self).discovered() == old(self).discovered(),
            final(self).next_id() == old(self).next_id(),
            final(self).jobs().len() == old(self).jobs().len(),
            forall|i: int|
                0 <= i < old(self).jobs().len() ==> {
                    let j = old(self).jobs()[i];
                    let k = #[trigger] final(self).jobs()[i];
                    if j.id == id {
                        &&& k.state == DownloadJobState::DuplicateCompleted
                        &&& k.sha256 is Some && k.sha256->0@ == sha256@
                        &&& k.saved_relative_path == saved_relative_path
                        &&& k.updated_at == clock
                        &&& k == DownloadJobRecord {
                            state: k.state,
                            sha256: k.sha256,
                            updated_at: k.updated_at,
                            saved_relative_path: k.saved_relative_path,
                            ..j
                        }
                    } else {
                        k == j
                    }
                },
    {
        let u = JobUpdate::Duplicate { sha256: sha256.to_owned(), saved_relative_path, clock };
        self.update_where(JobSelector::Id(id), &u);
    }

    /// Records a failed attempt: the job cools down until `next_eligible_at`,
    /// or fails permanently.
    pub fn mark_job_cooling_down(
        &mut self,
        id: i64,
        retry_count: i32,
        next_eligible_at: i64,
        error: &str,
        permanently_failed: bool,
        clock: i64,
    )
        requires
            old(self).wf(),
        ensures
            final(self).wf(),
            final(self).discovered() == old(self).discovered(),
            final(self).next_id() == old(self).next_id(),
            final(self).jobs().len() == old(self).jobs().len(),
            forall|i: int|
                0 <= i < old(self).jobs().len() ==> {
                    let j = old(self).jobs()[i];
                    let k = #[trigger] final(self).jobs()[i];
                    if j.id == id {
                        &&& k.state == if permanently_failed {
                            DownloadJobState::FailedPermanent
                        } else {
                            DownloadJobState::CoolingDown
                        }
                        &&& k.retry_count == retry_count
                        &&& k.next_eligible_at == Some(next_eligible_at)
                        &&& k.last_failure_at == Some(clock)
                        &&& k.last_error is Some && k.last_error->0@ == error@
                        &&& k.updated_at == clock
                        &&& k == DownloadJobRecord {
                            state: k.state,
                            retry_count: k.retry_count,
                            next_eligible_at: k.next_eligible_at,
                            last_failure_at: k.last_failure_at,
                            last_error: k.last_error,
                            updated_at: k.updated_at,
                            ..j
                        }
                    } else {
                        k == j
                    }
                },
    {
        let u = JobUpdate::CoolDown {
            retry_count,
            next_eligible_at,
            error: error.to_owned(),
            permanently_failed,
            clock,
        };
        self.update_where(JobSelector::Id(id), &u);
    }

    /// Records that a job's media could not be decrypted yet; it is retried
    /// from `next_eligible_at` on.
    pub fn mark_job_undecryptable(&mut self, id: i64, next_eligible_at: i64, error: &str, clock: i64)
        requires
            old(self).wf(),
        ensures
            final(self).wf(),
            final(self).discovered() == old(self).discovered(),
            final(self).next_id() == old(self).next_id(),
            final(self).jobs().len() == old(self).jobs().len(),
            forall|i: int|
                0 <= i < old(self).jobs().len() ==> {
                    let j = old(self).jobs()[i];
                    let k = #[trigger] final(self).jobs()[i];
                    if j.id == id {
                        &&& k.state == DownloadJobState::UndecryptablePending
                        &&& k.next_eligible_at == Some(next_eligible_at)
                        &&& k.last_failure_at == Some(clock)
                        &&& k.last_error is Some && k.last_error->0@ == error@
                        &&& k.updated_at == clock
                        &&& k == DownloadJobRecord {
                            state: k.state,
                            next_eligible_at: k.next_eligible_at,
                            last_failure_at: k.last_failure_at,
                            last_error: k.last_error,
                            updated_at: k.updated_at,
                            ..j
                        }
                    } else {
                        k == j
                    }
                },
    {
        let u = JobUpdate::Undecryptable { next_eligible_at, error: error.to_owned(), clock };
        self.update_where(JobSelector::Id(id), &u);
    }

    /// The jobs the queue page shows at `now`, at most `limit` of them (all of
    /// them when `limit` is negative): waiting jobs whose retry delay has
    /// passed first, then those still cooling down, then permanent failures;
    /// within each group by queue instant, then id.
    pub fn fetch_jobs(&self, limit: i64, now: i64) -> (r: Vec<DownloadJobRecord>)
        requires
            self.wf(),
        ensures
            forall|t: int|
                0 <= t < r@.len() ==> self.jobs().contains(#[trigger] r@[t]) && listed(r@[t]),
            forall|t: int, u: int|
                0 <= t < u < r@.len() ==> list_before(r@[t], r@[u], now as int),
            forall|k: int|
                0 <= k < self.jobs().len() && listed(#[trigger] self.jobs()[k]) && (forall|t: int|
                    0 <= t < r@.len() ==> r@[t].id != self.jobs()[k].id) ==> forall|t: int|
                    0 <= t < r@.len() ==> list_before(r@[t], self.jobs()[k], now as int),
            limit >= 0 ==> r@.len() <= limit,
            (limit < 0 || r@.len() < limit) ==> forall|k: int|
                0 <= k < self.jobs().len() && listed(#[trigger] self.jobs()[k]) ==> exists|t: int|
                    0 <= t < r@.len() && r@[t] == self.jobs()[k],
    {
        let n = self.jobs.len();
        let mut out: Vec<DownloadJobRecord> = Vec::new();
        let ghost mut picked: Seq<int> = Seq::empty();
        let mut last: Option<usize> = None;
        loop
            invariant_except_break
                self.wf(),
                n == self.jobs@.len(),
                out@.len() == picked.len(),
                picked.len() <= n,
                forall|t: int|
                    0 <= t < picked.len() ==> 0 <= #[trigger] picked[t] < n && out@[t]
                        == self.jobs@[picked[t]] && listed(self.jobs@[picked[t]]),
                forall|t: int, u: int|
                    0 <= t < u < out@.len() ==> list_before(out@[t], out@[u], now as int),
                match last {
                    None => picked.len() == 0,
                    Some(l) => picked.len() > 0 && l == picked.last(),
                },
                forall|k: int|
                    0 <= k < n && listed(#[trigger] self.jobs@[k]) && (forall|t: int|
                        0 <= t < picked.len() ==> picked[t] != k) ==> forall|t: int|
                        0 <= t < out@.len() ==> list_before(out@[t], self.jobs@[k], now as int),
                limit >= 0 ==> out@.len() <= limit,
            ensures
                forall|t: int|
                0 <= t < out.len() ==> self.jobs@.contains(#[trigger] out[t]) && listed(out[t]),
                forall|t: int, u: int|
                    0 <= t < u < out@.len() ==> list_before(out@[t], out@[u], now as int),
                forall|k: int|
                    0 <= k < self.jobs@.len() && listed(#[trigger] self.jobs@[k]) && (forall|t: int|
                        0 <= t < out@.len() ==> out@[t].id != self.jobs@[k].id) ==> forall|t: int|
                        0 <= t < out@.len() ==> list_before(out@[t], self.jobs@[k], now as int),
                limit >= 0 ==> out@.len() <= limit,
                (limit < 0 || out@.len() < limit) ==> forall|k: int|
                    0 <= k < self.jobs@.len() && listed(#[trigger] self.jobs@[k]) ==> exists|t: int|
                        0 <= t < out@.len() && out@[t] == self.jobs@[k],
            decreases n - out@.len(),
        {
            if limit >= 0 && (out.len() as u64) >= (limit as u64) {
                proof {
                    self.lemma_fetch_exit(picked, out@, now);
                }
                break;
            }
            match self.next_listed(now, last) {
                None => {
                    proof {
                        self.lemma_fetch_exit(picked, out@, now);
                        assert forall|k: int|
                            0 <= k < n && listed(#[trigger] self.jobs@[k]) implies exists|t: int|
                            0 <= t < out@.len() && out@[t] == self.jobs@[k] by {
                            if forall|t: int| 0 <= t < picked.len() ==> picked[t] != k {
                                match last {
                                    None => {},
                                    Some(l) => {
                                        assert(list_before(out@[picked.len() - 1], self.jobs@[k], now as int));
                                    },
                                }
                                assert(false);
                            } else {
                                let t = choose|t: int| 0 <= t < picked.len() && picked[t] == k;
                                assert(out@[t] == self.jobs@[k]);
                            }
                        }
                    }
                    break;
                },
                Some(m) => {
                    proof {
                        assert forall|t: int| 0 <= t < picked.len() implies picked[t] != m as int by {
                            let l = picked.last();
                            if t == picked.len() - 1 {
                            } else {
                                assert(list_before(out@[t], out@[picked.len() - 1], now as int));
                            }
                        }
                        assert forall|t: int, u: int| 0 <= t < u < picked.len() implies picked[t]
                            != picked[u] by {
                            assert(list_before(out@[t], out@[u], now as int));
                        }
                        self.lemma_picked_bound(picked, m as int);
                    }
                    let ghost old_out = out@;
                    let ghost old_picked = picked;
                    out.push(copy_job(&self.jobs[m]));
                    proof {
                        picked = picked.push(m as int);
                        assert forall|k: int|
                            0 <= k < n && listed(#[trigger] self.jobs@[k]) && (forall|t: int|
                                0 <= t < picked.len() ==> picked[t] != k) implies forall|t: int|
                            0 <= t < out@.len() ==> list_before(out@[t], self.jobs@[k], now as int) by {
                            assert forall|t: int| 0 <= t < old_picked.len() implies old_picked[t] != k by {
                                assert(picked[t] == old_picked[t]);
                            }
                            assert(picked[old_picked.len() as int] == m);
                            assert(self.jobs@[k].id != self.jobs@[m as int].id);
                            if old_picked.len() > 0 {
                                assert(list_before(old_out[old_picked.len() - 1], self.jobs@[k], now as int));
                            }
                            assert forall|t: int| 0 <= t < out@.len() implies list_before(out@[t], self.jobs@[k], now as int) by {
                                if t < old_out.len() {
                                    assert(out@[t] == old_out[t]);
                                }
                            }
                        }
                        assert forall|t: int, u: int|
                            0 <= t < u < out@.len() implies list_before(out@[t], out@[u], now as int) by {
                            if u == out@.len() - 1 {
                                assert(out@[t] == old_out[t]);
                                assert(forall|q: int| 0 <= q < old_picked.len() ==> old_picked[q] != m as int);
                            } else {
                                assert(out@[t] == old_out[t] && out@[u] == old_out[u]);
                            }
                        }
                        assert forall|t: int| 0 <= t < picked.len() implies 0 <= #[trigger] picked[t] < n && out@[t]
                            == self.jobs@[picked[t]] && listed(self.jobs@[picked[t]]) by {
                            if t < old_picked.len() {
                                assert(picked[t] == old_picked[t]);
                                assert(out@[t] == old_out[t]);
                            }
                        }
                    }
                    last = Some(m);
                },
            }
        }
        out
    }

    proof fn lemma_fetch_exit(&self, picked: Seq<int>, out: Seq<DownloadJobRecord>, now: i64)
        requires
            self.wf(),
            out.len() == picked.len(),
            forall|t: int|
                0 <= t < picked.len() ==> 0 <= #[trigger] picked[t] < self.jobs@.len() && out[t]
                    == self.jobs@[picked[t]] && listed(self.jobs@[picked[t]]),
            forall|k: int|
                0 <= k < self.jobs@.len() && listed(#[trigger] self.jobs@[k]) && (forall|t: int|
                    0 <= t < picked.len() ==> picked[t] != k) ==> forall|t: int|
                    0 <= t < out.len() ==> list_before(out[t], self.jobs@[k], now as int),
        ensures
            forall|t: int|
                0 <= t < out.len() ==> self.jobs@.contains(#[trigger] out[t]) && listed(out[t]),
            forall|k: int|
                0 <= k < self.jobs@.len() && listed(#[trigger] self.jobs@[k]) && (forall|t: int|
                    0 <= t < out.len() ==> out[t].id != self.jobs@[k].id) ==> forall|t: int|
                    0 <= t < out.len() ==> list_before(out[t], self.jobs@[k], now as int),
    {
        assert forall|t: int| 0 <= t < out.len() implies self.jobs@.contains(#[trigger] out[t])
            && listed(out[t]) by {
            assert(self.jobs@[picked[t]] == out[t]);
        }
        assert forall|k: int|
            0 <= k < self.jobs@.len() && listed(#[trigger] self.jobs@[k]) && (forall|t: int|
                0 <= t < out.len() ==> out[t].id != self.jobs@[k].id) implies forall|t: int|
                0 <= t < out.len() ==> list_before(out[t], self.jobs@[k], now as int) by {
            assert forall|t: int| 0 <= t < picked.len() implies picked[t] != k by {
                assert(out[t].id != self.jobs@[k].id);
            }
        }
    }

    /// Distinct picked indices below the queue length leave room for one more.
    proof fn lemma_picked_bound(&self, picked: Seq<int>, m: int)
        requires
            0 <= m < self.jobs@.len(),
            forall|t: int| 0 <= t < picked.len() ==> 0 <= #[trigger] picked[t] < self.jobs@.len(),
            forall|t: int, u: int| 0 <= t < u < picked.len() ==> picked[t] != picked[u],
            forall|t: int| 0 <= t < picked.len() ==> picked[t] != m,
        ensures
            picked.len() < self.jobs@.len(),
    {
        let full = vstd::set_lib::set_int_range(0, self.jobs@.len() as int);
        let ps = picked.to_set().insert(m);
        assert(picked.no_duplicates()) by {
            assert forall|t: int, u: int| 0 <= t < picked.len() && 0 <= u < picked.len() && t != u
                implies picked[t] != picked[u] by {
                if t < u {
                } else {
                }
            }
        }
        picked.unique_seq_to_set();
        vstd::set_lib::lemma_int_range(0, self.jobs@.len() as int);
        assert(ps.subset_of(full));
        vstd::set_lib::lemma_len_subset(ps, full);
    }

    /// A completed or duplicate job of the room and category whose content has
    /// this SHA-256.
    pub fn find_completed_job(&self, room_id: &str, category: MediaCategory, sha256: &str) -> (r:
        Option<DownloadJobRecord>)
        ensures
            match r {
                None => forall|i: int|
                    0 <= i < self.jobs().len() ==> !completed_match(
                        #[trigger] self.jobs()[i],
                        room_id@,
                        category,
                        sha256@,
                    ),
                Some(j) => self.jobs().contains(j) && completed_match(j, room_id@, category, sha256@),
            },
    {
        let room = room_id.to_owned();
        let sha = sha256.to_owned();
        let mut i: usize = 0;
        while i < self.jobs.len()
            invariant
                room@ == room_id@,
                sha@ == sha256@,
                i <= self.jobs@.len(),
                forall|k: int|
                    0 <= k < i ==> !completed_match(#[trigger] self.jobs@[k], room_id@, category, sha256@),
            decreases self.jobs@.len() - i,
        {
            let j = &self.jobs[i];
            let hit = j.room_id == room && j.category == category && match &j.sha256 {
                Some(h) => *h == sha,
                None => false,
            } && (j.state == DownloadJobState::Completed || j.state
                == DownloadJobState::DuplicateCompleted);
            if hit {
                let out = copy_job(j);
                assert(self.jobs@[i as int] == out);
                return Some(out);
            }
            i = i + 1;
        }
        None
    }

    /// The origin timestamp recorded for a discovered attachment.
    pub fn discovery_origin_timestamp(&self, room_id: &str, event_id: &str) -> (r: Option<i64>)
        ensures
            r is None <==> !has_discovery(self.discovered(), room_id@, event_id@),
            r matches Some(t) ==> exists|i: int|
                0 <= i < self.discovered().len() && #[trigger] self.discovered()[i].room_id@
                    == room_id@ && self.discovered()[i].event_id@ == event_id@
                    && self.discovered()[i].origin_timestamp == t,
    {
        let room = room_id.to_owned();
        let event = event_id.to_owned();
        let mut i: usize = 0;
        while i < self.discovered.len()
            invariant
                room@ == room_id@,
                event@ == event_id@,
                i <= self.discovered@.len(),
                forall|k: int|
                    0 <= k < i ==> !(#[trigger] self.discovered@[k].room_id@ == room_id@
                        && self.discovered@[k].event_id@ == event_id@),
            decreases self.discovered@.len() - i,
        {
            if self.discovered[i].room_id == room && self.discovered[i].event_id == event {
                assert(self.discovered@[i as int].room_id@ == room_id@);
                return Some(self.discovered[i].origin_timestamp);
            }
            i = i + 1;
        }
        None
    }

    /// How many jobs are waiting: queued, cooling down, or pending keys.
    pub fn fetch_waiting_job_count(&self) -> (r: i64)
        requires
            self.wf(),
        ensures
            r == count_waiting(self.jobs()),
    {
        let mut n: i64 = 0;
        let mut i: usize = 0;
        while i < self.jobs.len()
            invariant
                self.wf(),
                i <= self.jobs@.len(),
                n == count_waiting(self.jobs@.take(i as int)),
                n <= i,
            decreases self.jobs@.len() - i,
        {
            proof {
                assert(self.jobs@.take(i + 1).drop_last() =~= self.jobs@.take(i as int));
                assert(self.jobs@.take(i + 1).last() == self.jobs@[i as int]);
            }
            if is_waiting(&self.jobs[i]) {
                n = n + 1;
            }
            i = i + 1;
        }
        assert(self.jobs@.take(self.jobs@.len() as int) =~= self.jobs@);
        n
    }

    /// Forgets every discovered attachment and job, so that history scans
    /// find them again. Job ids are not handed out twice.
    pub fn clear_for_full_rescan(&mut self)
        requires
            old(self).wf(),
        ensures
            final(self).wf(),
            final(self).jobs().len() == 0,
            final(self).discovered().len() == 0,
            final(self).next_id() == old(self).next_id(),
    {
        self.jobs.clear();
        self.discovered.clear();
    }

    /// Records a failed download of `job` at `now`, as `decide_job_failure` decides.
    pub fn handle_job_failure(
        &mut self,
        job: &DownloadJobRecord,
        description: &str,
        settings: &AppSettings,
        now: i64,
    ) -> (r: FailureDecision)
        requires
            old(self).wf(),
            EARLIEST_INSTANT_MS <= now <= LATEST_INSTANT_MS,
            job.retry_count < i32::MAX,
        ensures
            final(self).wf(),
            r == failure_decision(description@, job.retry_count, *settings, now),
            final(self).discovered() == old(self).discovered(),
            final(self).next_id() == old(self).next_id(),
            final(self).jobs().len() == old(self).jobs().len(),
            forall|i: int|
                0 <= i < old(self).jobs().len() ==> {
                    let j = old(self).jobs()[i];
                    let k = #[trigger] final(self).jobs()[i];
                    if j.id == job.id {
                        &&& k.last_failure_at == Some(now)
                        &&& k.last_error is Some && k.last_error->0@ == description@
                        &&& k.updated_at == now
                        &&& match r {
                            FailureDecision::Undecryptable { next_eligible_at } => {
                                &&& k.state == DownloadJobState::UndecryptablePending
                                &&& k.next_eligible_at == Some(next_eligible_at)
                                &&& k.retry_count == j.retry_count
                            },
                            FailureDecision::CoolDown { retry_count, next_eligible_at, permanently_failed } => {
                                &&& k.state == if permanently_failed {
                                    DownloadJobState::FailedPermanent
                                } else {
                                    DownloadJobState::CoolingDown
                                }
                                &&& k.next_eligible_at == Some(next_eligible_at)
                                &&& k.retry_count == retry_count
                            },
                        }
                    } else {
                        k == j
                    }
                },
    {
        let decision = decide_job_failure(description, job.retry_count, settings, now);
        match decision {
            FailureDecision::Undecryptable { next_eligible_at } => {
                self.mark_job_undecryptable(job.id, next_eligible_at, description, now);
            },
            FailureDecision::CoolDown { retry_count, next_eligible_at, permanently_failed } => {
                self.mark_job_cooling_down(
                    job.id,
                    retry_count,
                    next_eligible_at,
                    description,
                    permanently_failed,
                    now,
                );
            },
        }
        decision
    }
}

/// A job is claimable exactly when the queue page ranks it first.
pub proof fn lemma_claimable_is_first_rank(j: DownloadJobRecord, now: int)
    ensures
        claimable(j, now) <==> (listed(j) && list_rank(j, now) == 0),
{
}

/// The job a worker claims next is the job the queue page lists first: for
/// the claimable job chosen by `claim_next_eligible_job` (claimable, and
/// claimed before every other claimable job), every other listed job is
/// listed after it.
pub proof fn law_claimed_job_heads_the_list(jobs: Seq<DownloadJobRecord>, k: int, now: int)
    requires
        ids_ordered(jobs, i64::MAX as int),
        0 <= k < jobs.len(),
        claimable(jobs[k], now),
        forall|i: int|
            0 <= i < jobs.len() && i != k && claimable(#[trigger] jobs[i], now) ==> claim_before(
                jobs[k],
                jobs[i],
            ),
    ensures
        forall|i: int|
            0 <= i < jobs.len() && i != k && listed(#[trigger] jobs[i]) ==> list_before(
                jobs[k],
                jobs[i],
                now,
            ),
{
    assert forall|i: int| 0 <= i < jobs.len() && i != k && listed(#[trigger] jobs[i]) implies list_before(
        jobs[k],
        jobs[i],
        now,
    ) by {
        lemma_claimable_is_first_rank(jobs[k], now);
        lemma_claimable_is_first_rank(jobs[i], now);
        if claimable(jobs[i], now) {
            assert(claim_before(jobs[k], jobs[i]));
        } else {
            assert(list_rank(jobs[i], now) > 0);
        }
    }
}

impl JobQueue {
    /// Every job, in queue order, to be kept on disk.
    pub fn all_jobs(&self) -> (r: Vec<DownloadJobRecord>)
        ensures
            r@ == self.jobs(),
    {
        let mut r: Vec<DownloadJobRecord> = Vec::new();
        let mut i: usize = 0;
        while i < self.jobs.len()
            invariant
                i <= self.jobs@.len(),
                r@ == self.jobs@.take(i as int),
            decreases self.jobs@.len() - i,
        {
            r.push(copy_job(&self.jobs[i]));
            i = i + 1;
            proof {
                assert(r@ =~= self.jobs@.take(i as int));
            }
        }
        proof {
            assert(self.jobs@.take(self.jobs@.len() as int) =~= self.jobs@);
        }
        r
    }

    /// Every discovered attachment, in order, to be kept on disk.
    pub fn all_discoveries(&self) -> (r: Vec<DiscoveryRecord>)
        ensures
            r@ == self.discovered(),
    {
        let mut r: Vec<DiscoveryRecord> = Vec::new();
        let mut i: usize = 0;
        while i < self.discovered.len()
            invariant
                i <= self.discovered@.len(),
                r@ == self.discovered@.take(i as int),
            decreases self.discovered@.len() - i,
        {
            let d = &self.discovered[i];
            r.push(
                DiscoveryRecord {
                    room_id: d.room_id.clone(),
                    event_id: d.event_id.clone(),
                    origin_timestamp: d.origin_timestamp,
                },
            );
            i = i + 1;
            proof {
                assert(r@ =~= self.discovered@.take(i as int));
            }
        }
        proof {
            assert(self.discovered@.take(self.discovered@.len() as int) =~= self.discovered@);
        }
        r
    }

    /// The id the next job will get.
    pub fn next_job_id(&self) -> (r: i64)
        ensures
            r == self.next_id(),
    {
        self.next_id
    }

    /// A queue read back from disk; refused unless its job ids increase and
    /// stay below the next id.
    pub fn restore(jobs: Vec<DownloadJobRecord>, discovered: Vec<DiscoveryRecord>, next_id: i64) -> (r:
        Option<Self>)
        ensures
            r is Some <==> (1 <= next_id && ids_ordered(jobs@, next_id as int) && jobs@.len() < next_id),
            r matches Some(q) ==> q.wf() && q.jobs() == jobs@ && q.discovered() == discovered@
                && q.next_id() == next_id,
    {
        if next_id < 1 || jobs.len() as u64 >= next_id as u64 {
            return None;
        }
        let mut i: usize = 0;
        while i < jobs.len()
            invariant
                1 <= next_id,
                i <= jobs@.len(),
                forall|a: int, b: int| 0 <= a < b < i ==> jobs@[a].id < jobs@[b].id,
                forall|a: int| 0 <= a < i ==> 1 <= #[trigger] jobs@[a].id < next_id,
            decreases jobs@.len() - i,
        {
            let id = jobs[i].id;
            if id < 1 || id >= next_id {
                return None;
            }
            if i > 0 && jobs[i - 1].id >= id {
                return None;
            }
            proof {
                assert forall|a: int| 0 <= a < i implies jobs@[a].id < jobs@[i as int].id by {
                    if a < i - 1 {
                        assert(jobs@[a].id < jobs@[i - 1].id);
                    }
                }
            }
            i = i + 1;
        }
        Some(JobQueue { jobs, discovered, next_id })
    }
}

/// Every failed download waits the configured cooldown, at least one minute,
/// whatever went wrong: media that could not be decrypted (an error text that
/// speaks of `decrypt` or `utd`, in any case) waits exactly as long as any
/// other failure, and counts no retry; any other failure counts one retry and
/// fails for good once the count reaches the retry limit.
pub proof fn law_failure_waits_the_cooldown(
    description: Seq<char>,
    retry_count: i32,
    settings: AppSettings,
    now: i64,
)
    requires
        EARLIEST_INSTANT_MS <= now <= LATEST_INSTANT_MS,
        retry_count < i32::MAX,
    ensures
        ({
            let minutes: int = if settings.retry_cooldown_minutes >= 1 {
                settings.retry_cooldown_minutes as int
            } else {
                1
            };
            let wait_until: int = now + minutes * 60_000;
            let lowered = ascii_lower_seq(description);
            let undecryptable = has_substring(lowered, "decrypt"@) || has_substring(lowered, "utd"@);
            match failure_decision(description, retry_count, settings, now) {
                FailureDecision::Undecryptable { next_eligible_at } => {
                    &&& undecryptable
                    &&& next_eligible_at == wait_until
                },
                FailureDecision::CoolDown { retry_count: counted, next_eligible_at, permanently_failed } => {
                    &&& !undecryptable
                    &&& next_eligible_at == wait_until
                    &&& counted == retry_count + 1
                    &&& permanently_failed == (retry_count + 1 >= settings.retry_limit)
                },
            }
        }),
{
}

} // verus!
