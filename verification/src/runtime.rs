//! The runtime picture the backend publishes: its connection state, the
//! downloads in progress and the room workers it runs.

use vstd::prelude::*;
use crate::domain::{ActiveDownloadSnapshot, ConnectionState, RoomHistoryMode, RoomWorkerSnapshot};
use crate::text::{contains_string, str_eq, string_views};

verus! {

/// The states of the Matrix sync service.
#[derive(Clone, Copy, Debug, PartialEq, Eq, Structural)]
pub enum SyncPhase {
    Idle,
    Running,
    Terminated,
    Offline,
    Error,
}

pub open spec fn connection_state_of(state: SyncPhase) -> ConnectionState {
    match state {
        SyncPhase::Idle => ConnectionState::Starting,
        SyncPhase::Running => ConnectionState::Running,
        SyncPhase::Terminated => ConnectionState::Stopped,
        SyncPhase::Offline => ConnectionState::Error,
        SyncPhase::Error => ConnectionState::Error,
    }
}

/// The connection state shown for a sync state.
pub fn connection_state_from_sync_state(state: SyncPhase) -> (r: ConnectionState)
    ensures
        r == connection_state_of(state),
{
    match state {
        SyncPhase::Idle => ConnectionState::Starting,
        SyncPhase::Running => ConnectionState::Running,
        SyncPhase::Terminated => ConnectionState::Stopped,
        SyncPhase::Offline => ConnectionState::Error,
        SyncPhase::Error => ConnectionState::Error,
    }
}

/// Whether a sync state is worth a warning in the log.
pub fn sync_state_needs_warning(state: SyncPhase) -> (r: bool)
    ensures
        r == (state == SyncPhase::Offline || state == SyncPhase::Error),
{
    state == SyncPhase::Offline || state == SyncPhase::Error
}

/// Download workers run (and rooms are refreshed) only while connected or
/// connecting.
pub fn background_work_allowed(state: ConnectionState) -> (r: bool)
    ensures
        r == (state == ConnectionState::Running || state == ConnectionState::Starting),
{
    state == ConnectionState::Running || state == ConnectionState::Starting
}

/// Downloads in progress are listed by worker, in increasing worker order.
pub open spec fn downloads_sorted(s: Seq<ActiveDownloadSnapshot>) -> bool {
    forall|i: int, j: int| 0 <= i < j < s.len() ==> s[i].worker_id <= s[j].worker_id
}

/// The downloads of `s` that belong to workers other than `worker_id`.
pub open spec fn without_worker(s: Seq<ActiveDownloadSnapshot>, worker_id: i32) -> Seq<
    ActiveDownloadSnapshot,
>
    decreases s.len(),
{
    if s.len() == 0 {
        s
    } else {
        let rest = without_worker(s.drop_last(), worker_id);
        if s.last().worker_id == worker_id {
            rest
        } else {
            rest.push(s.last())
        }
    }
}

/// How many leading entries of `s` belong to workers up to `worker_id`.
pub open spec fn leading_up_to(s: Seq<ActiveDownloadSnapshot>, worker_id: i32) -> nat
    decreases s.len(),
{
    if s.len() == 0 || s[0].worker_id > worker_id {
        0
    } else {
        1 + leading_up_to(s.drop_first(), worker_id)
    }
}

/// `x` placed after every entry of `s` whose worker comes before it or is
/// the same (where a stable sort by worker puts it).
pub open spec fn insert_by_worker(s: Seq<ActiveDownloadSnapshot>, x: ActiveDownloadSnapshot) -> Seq<
    ActiveDownloadSnapshot,
> {
    let k = leading_up_to(s, x.worker_id) as int;
    s.take(k) + seq![x] + s.skip(k)
}

proof fn lemma_leading_up_to(s: Seq<ActiveDownloadSnapshot>, worker_id: i32)
    requires
        downloads_sorted(s),
    ensures
        leading_up_to(s, worker_id) <= s.len(),
        forall|i: int| 0 <= i < leading_up_to(s, worker_id) ==> s[i].worker_id <= worker_id,
        forall|i: int| leading_up_to(s, worker_id) <= i < s.len() ==> s[i].worker_id > worker_id,
    decreases s.len(),
{
    if s.len() > 0 && s[0].worker_id <= worker_id {
        let t = s.drop_first();
        assert(downloads_sorted(t)) by {
            assert forall|i: int, j: int| 0 <= i < j < t.len() implies t[i].worker_id <= t[j].worker_id by {
                assert(t[i] == s[i + 1] && t[j] == s[j + 1]);
            }
        }
        lemma_leading_up_to(t, worker_id);
        assert forall|i: int| 0 <= i < leading_up_to(s, worker_id) implies s[i].worker_id <= worker_id by {
            if i > 0 {
                assert(s[i] == t[i - 1]);
            }
        }
        assert forall|i: int| leading_up_to(s, worker_id) <= i < s.len() implies s[i].worker_id > worker_id by {
            assert(s[i] == t[i - 1]);
        }
    } else if s.len() > 0 {
        assert forall|i: int| 0 <= i < s.len() implies s[i].worker_id > worker_id by {
            if i > 0 {
                assert(s[0].worker_id <= s[i].worker_id);
            }
        }
    }
}

proof fn lemma_without_worker(s: Seq<ActiveDownloadSnapshot>, worker_id: i32)
    requires
        downloads_sorted(s),
    ensures
        downloads_sorted(without_worker(s, worker_id)),
        forall|i: int|
            0 <= i < without_worker(s, worker_id).len() ==> (#[trigger] without_worker(s, worker_id)[i]).worker_id
                != worker_id,
        forall|i: int|
            0 <= i < without_worker(s, worker_id).len() ==> exists|j: int|
                0 <= j < s.len() && s[j] == #[trigger] without_worker(s, worker_id)[i],
    decreases s.len(),
{
    if s.len() > 0 {
        let t = s.drop_last();
        assert(downloads_sorted(t));
        lemma_without_worker(t, worker_id);
        let r = without_worker(t, worker_id);
        assert forall|i: int| 0 <= i < r.len() implies exists|j: int| 0 <= j < s.len() && s[j] == #[trigger] r[i] by {
            let j = choose|j: int| 0 <= j < t.len() && t[j] == r[i];
            assert(s[j] == t[j]);
        }
        if s.last().worker_id != worker_id {
            let w = r.push(s.last());
            assert forall|i: int, j: int| 0 <= i < j < w.len() implies w[i].worker_id <= w[j].worker_id by {
                if j == r.len() {
                    let k = choose|k: int| 0 <= k < t.len() && t[k] == r[i];
                    assert(s[k] == t[k]);
                    assert(s[k].worker_id <= s[s.len() - 1].worker_id);
                }
            }
            assert forall|i: int| 0 <= i < w.len() implies exists|j: int| 0 <= j < s.len() && s[j] == #[trigger] w[i] by {
                if i == r.len() {
                    assert(s[s.len() - 1] == w[i]);
                } else {
                    assert(w[i] == r[i]);
                }
            }
        }
    }
}

/// Whether a list of downloads is in worker order.
fn by_worker_exec(v: &Vec<ActiveDownloadSnapshot>) -> (r: bool)
    ensures
        r == downloads_sorted(v@),
{
    let mut i: usize = 1;
    if v.len() < 2 {
        return true;
    }
    while i < v.len()
        invariant
            1 <= i <= v@.len(),
            forall|a: int, b: int| 0 <= a < b < i ==> v@[a].worker_id <= v@[b].worker_id,
        decreases v@.len() - i,
    {
        if v[i - 1].worker_id > v[i].worker_id {
            return false;
        }
        proof {
            assert forall|a: int, b: int| 0 <= a < b < i + 1 implies v@[a].worker_id <= v@[b].worker_id by {
                if b == i && a < i - 1 {
                    assert(v@[a].worker_id <= v@[i - 1].worker_id);
                }
            }
        }
        i = i + 1;
    }
    true
}

fn copy_download(d: &ActiveDownloadSnapshot) -> (r: ActiveDownloadSnapshot)
    ensures
        r == *d,
{
    ActiveDownloadSnapshot {
        worker_id: d.worker_id,
        job_id: d.job_id,
        room_id: d.room_id.clone(),
        filename: d.filename.clone(),
        received_bytes: d.received_bytes,
        total_bytes: d.total_bytes,
    }
}

/// The downloads in worker order.
fn sort_by_worker(v: &Vec<ActiveDownloadSnapshot>) -> (r: Vec<ActiveDownloadSnapshot>)
    ensures
        downloads_sorted(r@),
        r@.to_multiset() == v@.to_multiset(),
{
    broadcast use vstd::seq_lib::to_multiset_build, vstd::seq_lib::to_multiset_insert;

    let mut out: Vec<ActiveDownloadSnapshot> = Vec::new();
    let mut i: usize = 0;
    proof {
        assert(v@.take(0) =~= out@);
    }
    while i < v.len()
        invariant
            i <= v@.len(),
            downloads_sorted(out@),
            out@.to_multiset() == v@.take(i as int).to_multiset(),
        decreases v@.len() - i,
    {
        let x = copy_download(&v[i]);
        let mut k: usize = 0;
        while k < out.len() && out[k].worker_id <= x.worker_id
            invariant
                k <= out@.len(),
                downloads_sorted(out@),
                forall|j: int| 0 <= j < k ==> out@[j].worker_id <= x.worker_id,
            decreases out@.len() - k,
        {
            k = k + 1;
        }
        let ghost before = out@;
        out.insert(k, x);
        proof {
            assert(out@ == before.insert(k as int, x));
            assert forall|a: int, b: int| 0 <= a < b < out@.len() implies out@[a].worker_id <= out@[b].worker_id by {
                let n = k as int;
                if a < n && b == n {
                } else if a == n && b > n {
                    assert(out@[b] == before[b - 1]);
                    assert(before[n].worker_id > x.worker_id);
                } else if a < n && b > n {
                    assert(out@[a] == before[a] && out@[b] == before[b - 1]);
                } else if a > n {
                    assert(out@[a] == before[a - 1] && out@[b] == before[b - 1]);
                } else {
                    assert(out@[a] == before[a] && out@[b] == before[b]);
                }
            }
            assert(v@.take(i + 1) =~= v@.take(i as int).push(v@[i as int]));
            vstd::seq_lib::to_multiset_insert(before, k as int, x);
            vstd::seq_lib::to_multiset_build(v@.take(i as int), v@[i as int]);
        }
        i = i + 1;
    }
    proof {
        assert(v@.take(v@.len() as int) =~= v@);
    }
    out
}

/// Sets what one download worker is doing: its previous entry goes, and
/// the new one, if any, takes its place in worker order.
pub fn set_active_download(
    downloads: &mut Vec<ActiveDownloadSnapshot>,
    worker_id: i32,
    next: Option<ActiveDownloadSnapshot>,
)
    ensures
        downloads_sorted(old(downloads)@) ==> downloads_sorted(final(downloads)@) && final(downloads)@
            == match next {
            Some(x) => insert_by_worker(without_worker(old(downloads)@, worker_id), x),
            None => without_worker(old(downloads)@, worker_id),
        },
        next is None ==> final(downloads)@ == without_worker(old(downloads)@, worker_id),
        next matches Some(x) ==> downloads_sorted(final(downloads)@) && final(downloads)@.to_multiset()
            == without_worker(old(downloads)@, worker_id).push(x).to_multiset(),
{
    let ghost start = downloads@;
    let mut kept: Vec<ActiveDownloadSnapshot> = Vec::new();
    let mut i: usize = 0;
    while i < downloads.len()
        invariant
            downloads@ == start,
            i <= start.len(),
            kept@ == without_worker(start.take(i as int), worker_id),
        decreases start.len() - i,
    {
        proof {
            assert(start.take(i + 1).drop_last() =~= start.take(i as int));
        }
        if downloads[i].worker_id != worker_id {
            let d = &downloads[i];
            kept.push(
                ActiveDownloadSnapshot {
                    worker_id: d.worker_id,
                    job_id: d.job_id,
                    room_id: d.room_id.clone(),
                    filename: d.filename.clone(),
                    received_bytes: d.received_bytes,
                    total_bytes: d.total_bytes,
                },
            );
        }
        i = i + 1;
    }
    proof {
        assert(start.take(start.len() as int) =~= start);
        if downloads_sorted(start) {
            lemma_without_worker(start, worker_id);
        }
    }
    match next {
        None => {
            *downloads = kept;
        },
        Some(x) => {
            if !by_worker_exec(&kept) {
                let ghost w = kept@;
                let ghost xv = x;
                kept.push(x);
                let sorted = sort_by_worker(&kept);
                proof {
                    assert(kept@ == w.push(xv));
                }
                *downloads = sorted;
                return;
            }
            let ghost w = kept@;
            proof {
                lemma_leading_up_to(w, x.worker_id);
            }
            let mut k: usize = 0;
            while k < kept.len() && kept[k].worker_id <= x.worker_id
                invariant
                    kept@ == w,
                    downloads_sorted(w),
                    k <= leading_up_to(w, x.worker_id),
                    leading_up_to(w, x.worker_id) <= w.len(),
                    forall|i: int| 0 <= i < leading_up_to(w, x.worker_id) ==> w[i].worker_id <= x.worker_id,
                    forall|i: int| leading_up_to(w, x.worker_id) <= i < w.len() ==> w[i].worker_id > x.worker_id,
                decreases w.len() - k,
            {
                k = k + 1;
            }
            let ghost xv = x;
            kept.insert(k, x);
            proof {
                assert(kept@ =~= insert_by_worker(w, xv));
                vstd::seq_lib::to_multiset_insert(w, k as int, xv);
                vstd::seq_lib::to_multiset_build(w, xv);
                assert(w.insert(k as int, xv) =~= kept@);
                assert forall|a: int, b: int| 0 <= a < b < kept@.len() implies kept@[a].worker_id
                    <= kept@[b].worker_id by {
                    let n = k as int;
                    if a < n && b == n {
                    } else if a == n && b > n {
                        assert(kept@[b] == w[b - 1]);
                    } else if a < n && b > n {
                        assert(kept@[b] == w[b - 1]);
                    } else if a > n {
                        assert(kept@[a] == w[a - 1] && kept@[b] == w[b - 1]);
                    }
                }
            }
            *downloads = kept;
        },
    }
}

/// Progress of one worker's download: the first entry of that worker gets
/// the byte counts.
pub fn record_download_progress(
    downloads: &mut Vec<ActiveDownloadSnapshot>,
    worker_id: i32,
    received_bytes: i64,
    total_bytes: Option<i64>,
)
    ensures
        final(downloads)@.len() == old(downloads)@.len(),
        forall|i: int|
            0 <= i < old(downloads)@.len() ==> {
                let d = old(downloads)@[i];
                let first = d.worker_id == worker_id && forall|j: int|
                    0 <= j < i ==> old(downloads)@[j].worker_id != worker_id;
                #[trigger] final(downloads)@[i] == if first {
                    ActiveDownloadSnapshot { received_bytes, total_bytes, ..d }
                } else {
                    d
                }
            },
{
    let mut i: usize = 0;
    while i < downloads.len()
        invariant
            i <= downloads@.len(),
            downloads@ == old(downloads)@,
            forall|j: int| 0 <= j < i ==> downloads@[j].worker_id != worker_id,
        decreases downloads@.len() - i,
    {
        if downloads[i].worker_id == worker_id {
            let d = &downloads[i];
            let updated = ActiveDownloadSnapshot {
                worker_id: d.worker_id,
                job_id: d.job_id,
                room_id: d.room_id.clone(),
                filename: d.filename.clone(),
                received_bytes,
                total_bytes,
            };
            downloads.set(i, updated);
            return;
        }
        i = i + 1;
    }
}

/// Downloads listed by worker, at most one per worker.
pub open spec fn one_per_worker(s: Seq<ActiveDownloadSnapshot>) -> bool {
    forall|i: int, j: int| 0 <= i < j < s.len() ==> s[i].worker_id < s[j].worker_id
}

proof fn lemma_without_worker_strict(s: Seq<ActiveDownloadSnapshot>, worker_id: i32)
    requires
        one_per_worker(s),
    ensures
        one_per_worker(without_worker(s, worker_id)),
    decreases s.len(),
{
    if s.len() > 0 {
        let t = s.drop_last();
        assert(one_per_worker(t));
        assert(downloads_sorted(t));
        lemma_without_worker_strict(t, worker_id);
        lemma_without_worker(t, worker_id);
        let r = without_worker(t, worker_id);
        if s.last().worker_id != worker_id {
            let w = r.push(s.last());
            assert forall|i: int, j: int| 0 <= i < j < w.len() implies w[i].worker_id < w[j].worker_id by {
                if j == r.len() {
                    let k = choose|k: int| 0 <= k < t.len() && t[k] == #[trigger] r[i];
                    assert(s[k] == t[k]);
                } else {
                    assert(w[i] == r[i] && w[j] == r[j]);
                }
            }
        }
    }
}

/// Setting a worker's download, with an entry for that worker, keeps the
/// list in worker order with at most one entry per worker.
pub proof fn law_one_download_per_worker(
    before: Seq<ActiveDownloadSnapshot>,
    worker_id: i32,
    next: ActiveDownloadSnapshot,
)
    requires
        one_per_worker(before),
        next.worker_id == worker_id,
    ensures
        one_per_worker(insert_by_worker(without_worker(before, worker_id), next)),
{
    assert(downloads_sorted(before));
    lemma_without_worker(before, worker_id);
    lemma_without_worker_strict(before, worker_id);
    let w = without_worker(before, worker_id);
    lemma_leading_up_to(w, worker_id);
    let after = insert_by_worker(w, next);
    let n = leading_up_to(w, worker_id) as int;
    assert forall|a: int, b: int| 0 <= a < b < after.len() implies after[a].worker_id < after[b].worker_id by {
        if a < n && b == n {
            assert(after[a] == w[a]);
            assert(w[a].worker_id != worker_id);
        } else if a == n && b > n {
            assert(after[b] == w[b - 1]);
        } else if a < n && b > n {
            assert(after[a] == w[a] && after[b] == w[b - 1]);
        } else if a > n {
            assert(after[a] == w[a - 1] && after[b] == w[b - 1]);
        } else {
            assert(after[a] == w[a] && after[b] == w[b]);
        }
    }
}

/// The tasks a room worker lacks: a live watcher for rooms (not spaces) and
/// a history task for every room.
pub fn worker_tasks_to_start(is_space: bool, has_live_task: bool, has_history_task: bool) -> (r: (
    bool,
    bool,
))
    ensures
        r.0 == (!is_space && !has_live_task),
        r.1 == !has_history_task,
{
    (!is_space && !has_live_task, !has_history_task)
}

/// A fresh room worker's snapshot: no live watcher, history idle.
pub fn idle_worker_snapshot(room_id: &str) -> (r: RoomWorkerSnapshot)
    ensures
        r.room_id@ == room_id@,
        !r.live_watcher_active,
        r.history_mode == RoomHistoryMode::Idle,
        r.history_detail@ == "Idle"@,
{
    RoomWorkerSnapshot {
        room_id: room_id.to_owned(),
        live_watcher_active: false,
        history_mode: RoomHistoryMode::Idle,
        history_detail: String::from_str("Idle"),
    }
}

/// The room workers whose rooms are no longer joined, in order.
pub open spec fn stale_rooms(worker_rooms: Seq<Seq<char>>, joined: Seq<Seq<char>>) -> Seq<Seq<char>>
    decreases worker_rooms.len(),
{
    if worker_rooms.len() == 0 {
        Seq::empty()
    } else {
        let rest = stale_rooms(worker_rooms.drop_last(), joined);
        if joined.contains(worker_rooms.last()) {
            rest
        } else {
            rest.push(worker_rooms.last())
        }
    }
}

pub fn stale_room_ids(worker_room_ids: &Vec<String>, joined_room_ids: &Vec<String>) -> (r: Vec<String>)
    ensures
        string_views(r@) == stale_rooms(string_views(worker_room_ids@), string_views(joined_room_ids@)),
{
    let mut r: Vec<String> = Vec::new();
    let mut i: usize = 0;
    while i < worker_room_ids.len()
        invariant
            i <= worker_room_ids@.len(),
            string_views(r@) == stale_rooms(
                string_views(worker_room_ids@.take(i as int)),
                string_views(joined_room_ids@),
            ),
        decreases worker_room_ids@.len() - i,
    {
        proof {
            assert(string_views(worker_room_ids@.take(i + 1)).drop_last() =~= string_views(
                worker_room_ids@.take(i as int),
            ));
            assert(string_views(worker_room_ids@.take(i + 1)).last() == worker_room_ids@[i as int]@);
        }
        if !contains_string(joined_room_ids, worker_room_ids[i].as_str()) {
            let ghost before = r@;
            r.push(worker_room_ids[i].clone());
            proof {
                assert(string_views(r@) =~= string_views(before).push(worker_room_ids@[i as int]@));
            }
        }
        i = i + 1;
    }
    proof {
        assert(worker_room_ids@.take(worker_room_ids@.len() as int) =~= worker_room_ids@);
    }
    r
}

/// Download workers take jobs only while the client runs.
pub fn downloads_may_run(state: ConnectionState) -> (r: bool)
    ensures
        r == (state == ConnectionState::Running),
{
    state == ConnectionState::Running
}

/// Texts in code-point order (the order of `str`'s comparison).
pub open spec fn text_le(a: Seq<char>, b: Seq<char>) -> bool
    decreases a.len(),
{
    if a.len() == 0 {
        true
    } else if b.len() == 0 {
        false
    } else if a[0] != b[0] {
        (a[0] as int) < (b[0] as int)
    } else {
        text_le(a.drop_first(), b.drop_first())
    }
}

pub proof fn lemma_text_le_total(a: Seq<char>, b: Seq<char>)
    ensures
        text_le(a, b) || text_le(b, a),
    decreases a.len(),
{
    if a.len() > 0 && b.len() > 0 {
        if a[0] == b[0] {
            lemma_text_le_total(a.drop_first(), b.drop_first());
        }
    }
}

pub proof fn lemma_text_le_transitive(a: Seq<char>, b: Seq<char>, c: Seq<char>)
    requires
        text_le(a, b),
        text_le(b, c),
    ensures
        text_le(a, c),
    decreases a.len(),
{
    if a.len() > 0 && b.len() > 0 && c.len() > 0 && a[0] == b[0] && b[0] == c[0] {
        lemma_text_le_transitive(a.drop_first(), b.drop_first(), c.drop_first());
    }
}

fn text_le_exec(a: &Vec<char>, b: &Vec<char>) -> (r: bool)
    ensures
        r == text_le(a@, b@),
{
    let mut i: usize = 0;
    proof {
        assert(a@.subrange(0, a@.len() as int) =~= a@);
        assert(b@.subrange(0, b@.len() as int) =~= b@);
    }
    while i < a.len() && i < b.len() && a[i] == b[i]
        invariant
            i <= a@.len(),
            i <= b@.len(),
            text_le(a@, b@) == text_le(a@.subrange(i as int, a@.len() as int), b@.subrange(i as int, b@.len() as int)),
        decreases a@.len() - i,
    {
        proof {
            let sa = a@.subrange(i as int, a@.len() as int);
            let sb = b@.subrange(i as int, b@.len() as int);
            assert(sa.drop_first() =~= a@.subrange(i + 1, a@.len() as int));
            assert(sb.drop_first() =~= b@.subrange(i + 1, b@.len() as int));
            assert(sa[0] == a@[i as int] && sb[0] == b@[i as int]);
        }
        i = i + 1;
    }
    let ghost gsa = a@.subrange(i as int, a@.len() as int);
    let ghost gsb = b@.subrange(i as int, b@.len() as int);
    if i == a.len() {
        assert(gsa.len() == 0);
        true
    } else if i == b.len() {
        assert(gsb.len() == 0);
        false
    } else {
        proof {
            assert(gsa[0] == a@[i as int] && gsb[0] == b@[i as int]);
        }
        a[i] < b[i]
    }
}

/// Worker snapshots in order of their room IDs.
pub open spec fn workers_in_room_order(s: Seq<RoomWorkerSnapshot>) -> bool {
    forall|i: int, j: int| 0 <= i < j < s.len() ==> text_le(s[i].room_id@, s[j].room_id@)
}

fn copy_worker(w: &RoomWorkerSnapshot) -> (r: RoomWorkerSnapshot)
    ensures
        r == *w,
{
    RoomWorkerSnapshot {
        room_id: w.room_id.clone(),
        live_watcher_active: w.live_watcher_active,
        history_mode: w.history_mode,
        history_detail: w.history_detail.clone(),
    }
}

/// The published worker list: every worker, in order of room ID.
pub fn sort_worker_snapshots(workers: &Vec<RoomWorkerSnapshot>) -> (r: Vec<RoomWorkerSnapshot>)
    ensures
        workers_in_room_order(r@),
        r@.to_multiset() == workers@.to_multiset(),
{
    let mut out: Vec<RoomWorkerSnapshot> = Vec::new();
    let mut i: usize = 0;
    proof {
        assert(workers@.take(0) =~= out@);
    }
    while i < workers.len()
        invariant
            i <= workers@.len(),
            workers_in_room_order(out@),
            out@.to_multiset() == workers@.take(i as int).to_multiset(),
        decreases workers@.len() - i,
    {
        let x = copy_worker(&workers[i]);
        let xn = crate::text::chars_of(x.room_id.as_str());
        let mut k: usize = 0;
        while k < out.len() && text_le_exec(&crate::text::chars_of(out[k].room_id.as_str()), &xn)
            invariant
                k <= out@.len(),
                xn@ == x.room_id@,
                workers_in_room_order(out@),
                forall|j: int| 0 <= j < k ==> text_le(out@[j].room_id@, x.room_id@),
            decreases out@.len() - k,
        {
            k = k + 1;
        }
        let ghost before = out@;
        proof {
            assert forall|j: int| k <= j < before.len() implies text_le(x.room_id@, before[j].room_id@) by {
                if k < before.len() {
                    lemma_text_le_total(before[k as int].room_id@, x.room_id@);
                    if j > k {
                        lemma_text_le_transitive(x.room_id@, before[k as int].room_id@, before[j].room_id@);
                    }
                }
            }
        }
        out.insert(k, x);
        proof {
            assert(out@ == before.insert(k as int, x));
            assert forall|a: int, b: int| 0 <= a < b < out@.len() implies text_le(
                out@[a].room_id@,
                out@[b].room_id@,
            ) by {
                let n = k as int;
                if a < n && b == n {
                } else if a == n && b > n {
                    assert(out@[b] == before[b - 1]);
                } else if a < n && b > n {
                    assert(out@[a] == before[a] && out@[b] == before[b - 1]);
                    lemma_text_le_transitive(before[a].room_id@, x.room_id@, before[b - 1].room_id@);
                } else if a > n {
                    assert(out@[a] == before[a - 1] && out@[b] == before[b - 1]);
                } else {
                    assert(out@[a] == before[a] && out@[b] == before[b]);
                }
            }
            assert(workers@.take(i + 1) =~= workers@.take(i as int).push(workers@[i as int]));
            vstd::seq_lib::to_multiset_insert(before, k as int, x);
            vstd::seq_lib::to_multiset_build(workers@.take(i as int), workers@[i as int]);
        }
        i = i + 1;
    }
    proof {
        assert(workers@.take(workers@.len() as int) =~= workers@);
    }
    out
}


/// The tasks of one room's worker.
#[derive(Clone, Debug)]
struct RoomTaskEntry {
    room_id: String,
    live: bool,
    history: bool,
}

/// Which tasks each room's worker runs: a live watcher and a history task,
/// each present or not, so never two of a kind.
#[derive(Clone, Debug)]
pub struct RoomTasks {
    entries: Vec<RoomTaskEntry>,
}

/// The tasks a room's worker runs, as (live watcher, history task); a room
/// without a worker runs none.
pub open spec fn room_task_state(tasks: Map<Seq<char>, (bool, bool)>, room: Seq<char>) -> (bool, bool) {
    if tasks.contains_key(room) {
        tasks[room]
    } else {
        (false, false)
    }
}

/// Ensuring a room's worker: the room gets a worker if it has none, and the
/// tasks it lacks are started (a live watcher only for a room that is not a
/// space). Gives the tasks afterwards and the tasks started.
pub open spec fn ensure_room_tasks(tasks: Map<Seq<char>, (bool, bool)>, room: Seq<char>, is_space: bool) -> (
    Map<Seq<char>, (bool, bool)>,
    (bool, bool),
) {
    let (live, history) = room_task_state(tasks, room);
    let start = (!is_space && !live, !history);
    (tasks.insert(room, (live || start.0, history || start.1)), start)
}

impl RoomTasks {
    pub closed spec fn wf(&self) -> bool {
        forall|i: int, j: int|
            0 <= i < j < self.entries@.len() ==> self.entries@[i].room_id@ != self.entries@[j].room_id@
    }

    spec fn holds(&self, room: Seq<char>) -> bool {
        exists|i: int| 0 <= i < self.entries@.len() && self.entries@[i].room_id@ == room
    }

    spec fn index_of(&self, room: Seq<char>) -> int {
        choose|i: int| 0 <= i < self.entries@.len() && self.entries@[i].room_id@ == room
    }

    /// Each room with a worker, mapped to (live watcher, history task).
    pub closed spec fn tasks(&self) -> Map<Seq<char>, (bool, bool)> {
        Map::new(
            |room: Seq<char>| self.holds(room),
            |room: Seq<char>|
                (self.entries@[self.index_of(room)].live, self.entries@[self.index_of(room)].history),
        )
    }

    proof fn lemma_at(&self, i: int)
        requires
            self.wf(),
            0 <= i < self.entries@.len(),
        ensures
            self.tasks().contains_key(self.entries@[i].room_id@),
            self.tasks()[self.entries@[i].room_id@] == (self.entries@[i].live, self.entries@[i].history),
    {
        let room = self.entries@[i].room_id@;
        assert(self.holds(room));
        let j = self.index_of(room);
        if j < i {
            assert(self.entries@[j].room_id@ != self.entries@[i].room_id@);
        } else if j > i {
            assert(self.entries@[i].room_id@ != self.entries@[j].room_id@);
        }
    }

    pub fn new() -> (r: Self)
        ensures
            r.wf(),
            r.tasks() == Map::<Seq<char>, (bool, bool)>::empty(),
    {
        let r = RoomTasks { entries: Vec::new() };
        assert(r.tasks() =~= Map::<Seq<char>, (bool, bool)>::empty());
        r
    }

    fn find(&self, room_id: &str) -> (r: Option<usize>)
        ensures
            match r {
                Some(i) => i < self.entries@.len() && self.entries@[i as int].room_id@ == room_id@,
                None => !self.tasks().contains_key(room_id@),
            },
    {
        let mut i: usize = 0;
        while i < self.entries.len()
            invariant
                i <= self.entries@.len(),
                forall|j: int| 0 <= j < i ==> self.entries@[j].room_id@ != room_id@,
            decreases self.entries@.len() - i,
        {
            if str_eq(self.entries[i].room_id.as_str(), room_id) {
                return Some(i);
            }
            i = i + 1;
        }
        None
    }

    /// The tasks the worker of `room_id` runs, as (live watcher, history task).
    pub fn state_of(&self, room_id: &str) -> (r: (bool, bool))
        requires
            self.wf(),
        ensures
            r == room_task_state(self.tasks(), room_id@),
    {
        match self.find(room_id) {
            Some(i) => {
                proof {
                    self.lemma_at(i as int);
                }
                (self.entries[i].live, self.entries[i].history)
            },
            None => (false, false),
        }
    }

    proof fn lemma_set(before: RoomTasks, after: RoomTasks, i: int)
        requires
            before.wf(),
            0 <= i < before.entries@.len(),
            after.entries@.len() == before.entries@.len(),
            after.entries@[i].room_id@ == before.entries@[i].room_id@,
            forall|j: int| 0 <= j < before.entries@.len() && j != i ==> after.entries@[j] == before.entries@[j],
        ensures
            after.wf(),
            after.tasks() == before.tasks().insert(
                before.entries@[i].room_id@,
                (after.entries@[i].live, after.entries@[i].history),
            ),
    {
        let room = before.entries@[i].room_id@;
        assert forall|a: int, b: int|
            0 <= a < b < after.entries@.len() implies after.entries@[a].room_id@ != after.entries@[b].room_id@ by {
            assert(before.entries@[a].room_id@ != before.entries@[b].room_id@);
        }
        let target = before.tasks().insert(room, (after.entries@[i].live, after.entries@[i].history));
        assert forall|k: Seq<char>| after.tasks().contains_key(k) <==> target.contains_key(k) by {
            if after.holds(k) {
                let w = after.index_of(k);
                assert(before.entries@[w].room_id@ == k);
            }
            if before.holds(k) {
                let w = before.index_of(k);
                assert(after.entries@[w].room_id@ == k);
            }
        }
        assert forall|k: Seq<char>| #[trigger] after.tasks().contains_key(k) implies after.tasks()[k]
            == target[k] by {
            let w = after.index_of(k);
            after.lemma_at(w);
            if k == room {
                after.lemma_at(i);
            } else {
                before.lemma_at(w);
            }
        }
        assert(after.tasks() =~= target);
    }

    proof fn lemma_push(before: RoomTasks, after: RoomTasks, e: RoomTaskEntry)
        requires
            before.wf(),
            !before.tasks().contains_key(e.room_id@),
            after.entries@ == before.entries@.push(e),
        ensures
            after.wf(),
            after.tasks() == before.tasks().insert(e.room_id@, (e.live, e.history)),
    {
        let n = before.entries@.len() as int;
        assert forall|a: int, b: int|
            0 <= a < b < after.entries@.len() implies after.entries@[a].room_id@ != after.entries@[b].room_id@ by {
            if b == n {
                assert(!before.holds(e.room_id@));
                assert(after.entries@[a] == before.entries@[a]);
            }
        }
        let target = before.tasks().insert(e.room_id@, (e.live, e.history));
        assert forall|k: Seq<char>| after.tasks().contains_key(k) <==> target.contains_key(k) by {
            if after.holds(k) && k != e.room_id@ {
                let w = after.index_of(k);
                assert(before.entries@[w].room_id@ == k);
            }
            if before.holds(k) {
                let w = before.index_of(k);
                assert(after.entries@[w].room_id@ == k);
            }
            if k == e.room_id@ {
                assert(after.entries@[n].room_id@ == k);
            }
        }
        assert forall|k: Seq<char>| #[trigger] after.tasks().contains_key(k) implies after.tasks()[k]
            == target[k] by {
            let w = after.index_of(k);
            after.lemma_at(w);
            if k == e.room_id@ {
                after.lemma_at(n);
            } else {
                before.lemma_at(w);
            }
        }
        assert(after.tasks() =~= target);
    }

    proof fn lemma_remove(before: RoomTasks, after: RoomTasks, i: int)
        requires
            before.wf(),
            0 <= i < before.entries@.len(),
            after.entries@ == before.entries@.remove(i),
        ensures
            after.wf(),
            after.tasks() == before.tasks().remove(before.entries@[i].room_id@),
    {
        let room = before.entries@[i].room_id@;
        let back = |w: int| if w < i { w } else { w + 1 };
        assert forall|w: int| 0 <= w < after.entries@.len() implies after.entries@[w] == before.entries@[back(
            w,
        )] by {}
        assert forall|a: int, b: int|
            0 <= a < b < after.entries@.len() implies after.entries@[a].room_id@ != after.entries@[b].room_id@ by {
            assert(after.entries@[a] == before.entries@[back(a)]);
            assert(after.entries@[b] == before.entries@[back(b)]);
            assert(before.entries@[back(a)].room_id@ != before.entries@[back(b)].room_id@);
        }
        let target = before.tasks().remove(room);
        assert forall|k: Seq<char>| after.tasks().contains_key(k) <==> target.contains_key(k) by {
            if after.holds(k) {
                let w = after.index_of(k);
                assert(after.entries@[w] == before.entries@[back(w)]);
                before.lemma_at(back(w));
                if k == room {
                    if back(w) < i {
                        assert(before.entries@[back(w)].room_id@ != before.entries@[i].room_id@);
                    } else {
                        assert(before.entries@[i].room_id@ != before.entries@[back(w)].room_id@);
                    }
                }
            }
            if before.holds(k) && k != room {
                let w = before.index_of(k);
                if w < i {
                    assert(after.entries@[w] == before.entries@[w]);
                } else {
                    assert(w != i);
                    assert(after.entries@[w - 1] == before.entries@[w]);
                }
            }
        }
        assert forall|k: Seq<char>| #[trigger] after.tasks().contains_key(k) implies after.tasks()[k]
            == target[k] by {
            let w = after.index_of(k);
            after.lemma_at(w);
            assert(after.entries@[w] == before.entries@[back(w)]);
            before.lemma_at(back(w));
        }
        assert(after.tasks() =~= target);
    }

    /// Ensures the worker of `room_id` runs its tasks: it starts the ones the
    /// worker lacks (a live watcher only for a room that is not a space) and
    /// returns which it started, as (live watcher, history task).
    pub fn ensure(&mut self, room_id: &str, is_space: bool) -> (r: (bool, bool))
        requires
            old(self).wf(),
        ensures
            final(self).wf(),
            final(self).tasks() == ensure_room_tasks(old(self).tasks(), room_id@, is_space).0,
            r == ensure_room_tasks(old(self).tasks(), room_id@, is_space).1,
    {
        let ghost before = *self;
        match self.find(room_id) {
            Some(i) => {
                proof {
                    before.lemma_at(i as int);
                }
                let live = self.entries[i].live;
                let history = self.entries[i].history;
                let r = worker_tasks_to_start(is_space, live, history);
                let e = RoomTaskEntry {
                    room_id: room_id.to_owned(),
                    live: live || r.0,
                    history: history || r.1,
                };
                self.entries.set(i, e);
                proof {
                    RoomTasks::lemma_set(before, *self, i as int);
                }
                r
            },
            None => {
                let r = worker_tasks_to_start(is_space, false, false);
                let e = RoomTaskEntry { room_id: room_id.to_owned(), live: r.0, history: r.1 };
                let ghost pushed = e;
                self.entries.push(e);
                proof {
                    RoomTasks::lemma_push(before, *self, pushed);
                }
                r
            },
        }
    }

    fn set_flags(&mut self, room_id: &str, keep_live: bool, keep_history: bool)
        requires
            old(self).wf(),
        ensures
            final(self).wf(),
            final(self).tasks() == if old(self).tasks().contains_key(room_id@) {
                old(self).tasks().insert(
                    room_id@,
                    (
                        old(self).tasks()[room_id@].0 && keep_live,
                        old(self).tasks()[room_id@].1 && keep_history,
                    ),
                )
            } else {
                old(self).tasks()
            },
    {
        let ghost before = *self;
        if let Some(i) = self.find(room_id) {
            proof {
                before.lemma_at(i as int);
            }
            let e = RoomTaskEntry {
                room_id: room_id.to_owned(),
                live: self.entries[i].live && keep_live,
                history: self.entries[i].history && keep_history,
            };
            self.entries.set(i, e);
            proof {
                RoomTasks::lemma_set(before, *self, i as int);
            }
        }
    }

    /// Records that the live watcher of `room_id` has stopped.
    pub fn live_stopped(&mut self, room_id: &str)
        requires
            old(self).wf(),
        ensures
            final(self).wf(),
            final(self).tasks() == if old(self).tasks().contains_key(room_id@) {
                old(self).tasks().insert(room_id@, (false, old(self).tasks()[room_id@].1))
            } else {
                old(self).tasks()
            },
    {
        self.set_flags(room_id, false, true);
    }

    /// Records that the history task of `room_id` has ended.
    pub fn history_stopped(&mut self, room_id: &str)
        requires
            old(self).wf(),
        ensures
            final(self).wf(),
            final(self).tasks() == if old(self).tasks().contains_key(room_id@) {
                old(self).tasks().insert(room_id@, (old(self).tasks()[room_id@].0, false))
            } else {
                old(self).tasks()
            },
    {
        self.set_flags(room_id, true, false);
    }

    /// Drops the worker of `room_id`; returns whether it ran a history task,
    /// which the caller then stops.
    pub fn remove(&mut self, room_id: &str) -> (r: bool)
        requires
            old(self).wf(),
        ensures
            final(self).wf(),
            final(self).tasks() == old(self).tasks().remove(room_id@),
            r == room_task_state(old(self).tasks(), room_id@).1,
    {
        let ghost before = *self;
        match self.find(room_id) {
            Some(i) => {
                proof {
                    before.lemma_at(i as int);
                }
                let e = self.entries.remove(i);
                proof {
                    RoomTasks::lemma_remove(before, *self, i as int);
                }
                e.history
            },
            None => {
                assert(before.tasks().remove(room_id@) =~= before.tasks());
                false
            },
        }
    }

    /// The rooms that have a worker, each once.
    pub fn room_ids(&self) -> (r: Vec<String>)
        requires
            self.wf(),
        ensures
            string_views(r@).no_duplicates(),
            forall|room: Seq<char>| self.tasks().contains_key(room) <==> string_views(r@).contains(room),
    {
        let mut r: Vec<String> = Vec::new();
        let mut i: usize = 0;
        while i < self.entries.len()
            invariant
                self.wf(),
                i <= self.entries@.len(),
                r@.len() == i,
                forall|j: int| 0 <= j < i ==> #[trigger] r@[j]@ == self.entries@[j].room_id@,
            decreases self.entries@.len() - i,
        {
            r.push(self.entries[i].room_id.clone());
            i = i + 1;
        }
        proof {
            let v = string_views(r@);
            assert forall|a: int, b: int| 0 <= a < v.len() && 0 <= b < v.len() && a != b implies v[a]
                != v[b] by {
                assert(v[a] == self.entries@[a].room_id@);
                assert(v[b] == self.entries@[b].room_id@);
            }
            assert forall|room: Seq<char>| self.tasks().contains_key(room) <==> v.contains(room) by {
                if self.holds(room) {
                    let w = self.index_of(room);
                    assert(v[w] == room);
                }
                if v.contains(room) {
                    let w = choose|w: int| 0 <= w < v.len() && v[w] == room;
                    assert(self.entries@[w].room_id@ == room);
                }
            }
        }
        r
    }
}

/// A room worker never runs two tasks of one kind: ensuring a room's worker
/// starts only the tasks it lacks and leaves running ones in place, leaves
/// every other room's worker as it was, and ensuring it again at once starts
/// nothing and changes nothing.
pub proof fn law_room_tasks_never_doubled(
    tasks: Map<Seq<char>, (bool, bool)>,
    room: Seq<char>,
    is_space: bool,
    other: Seq<char>,
)
    ensures
        ensure_room_tasks(tasks, room, is_space).1.0 ==> !room_task_state(tasks, room).0,
        ensure_room_tasks(tasks, room, is_space).1.1 ==> !room_task_state(tasks, room).1,
        room_task_state(ensure_room_tasks(tasks, room, is_space).0, room) == (
            room_task_state(tasks, room).0 || !is_space,
            true,
        ),
        other != room ==> room_task_state(ensure_room_tasks(tasks, room, is_space).0, other)
            == room_task_state(tasks, other),
        ensure_room_tasks(ensure_room_tasks(tasks, room, is_space).0, room, is_space).1 == (false, false),
        ensure_room_tasks(ensure_room_tasks(tasks, room, is_space).0, room, is_space).0
            == ensure_room_tasks(tasks, room, is_space).0,
{
    let after = ensure_room_tasks(tasks, room, is_space).0;
    assert(after.insert(room, after[room]) =~= after);
}

} // verus!
