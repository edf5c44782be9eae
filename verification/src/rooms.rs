//! The rooms the archive knows, listed by name, and the aliases each room
//! was seen under.

use vstd::prelude::*;
use crate::domain::RoomRecord;
use crate::queue::copy_opt_string;
use crate::text::{ascii_lower, str_eq, string_views};

verus! {

/// The name a room is listed under: its display name, else its canonical
/// alias, else its ID.
pub open spec fn listing_name(r: RoomRecord) -> Seq<char> {
    match r.current_display_name.deep_view() {
        Some(n) => n,
        None => match r.current_canonical_alias.deep_view() {
            Some(a) => a,
            None => r.room_id@,
        },
    }
}

/// Texts in order, ASCII letters compared without case (SQLite's `NOCASE`).
pub open spec fn nocase_le(a: Seq<char>, b: Seq<char>) -> bool
    decreases a.len(),
{
    if a.len() == 0 {
        true
    } else if b.len() == 0 {
        false
    } else if ascii_lower(a[0]) != ascii_lower(b[0]) {
        (ascii_lower(a[0]) as u32) < (ascii_lower(b[0]) as u32)
    } else {
        nocase_le(a.drop_first(), b.drop_first())
    }
}

pub proof fn lemma_nocase_total(a: Seq<char>, b: Seq<char>)
    ensures
        nocase_le(a, b) || nocase_le(b, a),
    decreases a.len(),
{
    if a.len() > 0 && b.len() > 0 && ascii_lower(a[0]) == ascii_lower(b[0]) {
        lemma_nocase_total(a.drop_first(), b.drop_first());
    }
}

pub proof fn lemma_nocase_transitive(a: Seq<char>, b: Seq<char>, c: Seq<char>)
    requires
        nocase_le(a, b),
        nocase_le(b, c),
    ensures
        nocase_le(a, c),
    decreases a.len(),
{
    if a.len() > 0 && b.len() > 0 && c.len() > 0 {
        if ascii_lower(a[0]) == ascii_lower(b[0]) && ascii_lower(b[0]) == ascii_lower(c[0]) {
            lemma_nocase_transitive(a.drop_first(), b.drop_first(), c.drop_first());
        }
    }
}

/// Rooms listed in order of their names.
pub open spec fn rooms_listed_in_order(s: Seq<RoomRecord>) -> bool {
    forall|i: int, j: int| 0 <= i < j < s.len() ==> nocase_le(listing_name(s[i]), listing_name(s[j]))
}

pub fn copy_room(r: &RoomRecord) -> (c: RoomRecord)
    ensures
        c == *r,
{
    RoomRecord {
        room_id: r.room_id.clone(),
        current_display_name: copy_opt_string(&r.current_display_name),
        current_canonical_alias: copy_opt_string(&r.current_canonical_alias),
        active_folder_label: r.active_folder_label.clone(),
        is_space: r.is_space,
        membership: r.membership.clone(),
        updated_at: r.updated_at,
    }
}

fn ascii_lower_exec(c: char) -> (r: char)
    ensures
        r == ascii_lower(c),
{
    crate::text::ascii_lowercase_char(c)
}

/// Whether `a` comes no later than `b` in a listing.
pub(crate) fn nocase_le_exec(a: &Vec<char>, b: &Vec<char>) -> (r: bool)
    ensures
        r == nocase_le(a@, b@),
{
    let mut i: usize = 0;
    proof {
        assert(a@.subrange(0, a@.len() as int) =~= a@);
        assert(b@.subrange(0, b@.len() as int) =~= b@);
    }
    while i < a.len() && i < b.len() && ascii_lower_exec(a[i]) == ascii_lower_exec(b[i])
        invariant
            i <= a@.len(),
            i <= b@.len(),
            nocase_le(a@, b@) == nocase_le(a@.subrange(i as int, a@.len() as int), b@.subrange(i as int, b@.len() as int)),
        decreases a@.len() - i,
    {
        proof {
            let sa = a@.subrange(i as int, a@.len() as int);
            let sb = b@.subrange(i as int, b@.len() as int);
            assert(sa.drop_first() =~= a@.subrange(i + 1, a@.len() as int));
            assert(sb.drop_first() =~= b@.subrange(i + 1, b@.len() as int));
            assert(sa[0] == a@[i as int] && sb[0] == b@[i as int]);
        }
        i = i + 1;
    }
    proof {
        assert(a@.subrange(0, a@.len() as int) =~= a@);
        assert(b@.subrange(0, b@.len() as int) =~= b@);
    }
    let ghost gsa = a@.subrange(i as int, a@.len() as int);
    let ghost gsb = b@.subrange(i as int, b@.len() as int);
    if i == a.len() {
        assert(gsa.len() == 0);
        true
    } else if i == b.len() {
        assert(gsb.len() == 0);
        false
    } else {
        proof {
            assert(gsa[0] == a@[i as int] && gsb[0] == b@[i as int]);
        }
        (ascii_lower_exec(a[i]) as u32) < (ascii_lower_exec(b[i]) as u32)
    }
}

fn listing_name_chars(r: &RoomRecord) -> (v: Vec<char>)
    ensures
        v@ == listing_name(*r),
{
    match &r.current_display_name {
        Some(n) => crate::text::chars_of(n.as_str()),
        None => match &r.current_canonical_alias {
            Some(a) => crate::text::chars_of(a.as_str()),
            None => crate::text::chars_of(r.room_id.as_str()),
        },
    }
}

/// An alias a room was seen under, and when.
#[derive(Clone, Debug)]
pub struct AliasSighting {
    pub room_id: String,
    pub alias: String,
    pub seen_at: i64,
}

/// The rooms of the archive and the aliases they were seen under.
pub struct RoomStore {
    rooms: Vec<RoomRecord>,
    aliases: Vec<AliasSighting>,
}

pub open spec fn room_at(s: Seq<RoomRecord>, room_id: Seq<char>, i: int) -> bool {
    0 <= i < s.len() && s[i].room_id@ == room_id
}

pub open spec fn has_room(s: Seq<RoomRecord>, room_id: Seq<char>) -> bool {
    exists|i: int| #[trigger] room_at(s, room_id, i)
}

pub open spec fn room_ids_unique(s: Seq<RoomRecord>) -> bool {
    forall|i: int, j: int| 0 <= i < j < s.len() ==> s[i].room_id@ != s[j].room_id@
}

pub open spec fn sighting_at(s: Seq<AliasSighting>, room_id: Seq<char>, alias: Seq<char>, i: int) -> bool {
    0 <= i < s.len() && s[i].room_id@ == room_id && s[i].alias@ == alias
}

pub open spec fn sightings_unique(s: Seq<AliasSighting>) -> bool {
    forall|i: int, j: int|
        0 <= i < j < s.len() ==> !(s[i].room_id@ == s[j].room_id@ && s[i].alias@ == s[j].alias@)
}

impl RoomStore {
    pub closed spec fn rooms(&self) -> Seq<RoomRecord> {
        self.rooms@
    }

    pub closed spec fn sightings(&self) -> Seq<AliasSighting> {
        self.aliases@
    }

    pub open spec fn wf(&self) -> bool {
        room_ids_unique(self.rooms()) && sightings_unique(self.sightings())
    }

    pub fn new() -> (s: Self)
        ensures
            s.wf(),
            s.rooms().len() == 0,
            s.sightings().len() == 0,
    {
        RoomStore { rooms: Vec::new(), aliases: Vec::new() }
    }

    fn position(&self, room_id: &str) -> (r: Option<usize>)
        ensures
            match r {
                Some(i) => room_at(self.rooms(), room_id@, i as int),
                None => !has_room(self.rooms(), room_id@),
            },
    {
        let mut i: usize = 0;
        while i < self.rooms.len()
            invariant
                i <= self.rooms@.len(),
                forall|j: int| 0 <= j < i ==> self.rooms@[j].room_id@ != room_id@,
            decreases self.rooms@.len() - i,
        {
            if str_eq(self.rooms[i].room_id.as_str(), room_id) {
                return Some(i);
            }
            i = i + 1;
        }
        proof {
            assert forall|j: int| !#[trigger] room_at(self.rooms@, room_id@, j) by {}
        }
        None
    }

    /// Records what is known of a room now, in place of what was known.
    pub fn upsert_room(&mut self, record: &RoomRecord)
        requires
            old(self).wf(),
        ensures
            final(self).wf(),
            final(self).sightings() == old(self).sightings(),
            has_room(old(self).rooms(), record.room_id@) ==> forall|i: int|
                #[trigger] room_at(old(self).rooms(), record.room_id@, i) ==> final(self).rooms()
                    == old(self).rooms().update(i, *record),
            !has_room(old(self).rooms(), record.room_id@) ==> final(self).rooms() == old(self).rooms().push(
                *record,
            ),
    {
        let ghost before = self.rooms@;
        match self.position(record.room_id.as_str()) {
            Some(i) => {
                self.rooms.set(i, copy_room(record));
                proof {
                    assert forall|j: int| #[trigger] room_at(before, record.room_id@, j) implies j == i by {
                        if j < i {
                            assert(before[j].room_id@ != before[i as int].room_id@);
                        } else if j > i {
                            assert(before[i as int].room_id@ != before[j].room_id@);
                        }
                    }
                    assert forall|a: int, b: int|
                        0 <= a < b < self.rooms@.len() implies self.rooms@[a].room_id@ != self.rooms@[b].room_id@ by {
                        assert(before[a].room_id@ != before[b].room_id@);
                    }
                }
            },
            None => {
                self.rooms.push(copy_room(record));
                proof {
                    assert forall|a: int, b: int|
                        0 <= a < b < self.rooms@.len() implies self.rooms@[a].room_id@ != self.rooms@[b].room_id@ by {
                        if b == before.len() {
                            assert(!room_at(before, record.room_id@, a));
                        }
                    }
                }
            },
        }
    }

    /// What is known of one room.
    pub fn room_record(&self, room_id: &str) -> (r: Option<RoomRecord>)
        requires
            self.wf(),
        ensures
            !has_room(self.rooms(), room_id@) ==> r is None,
            forall|i: int| #[trigger] room_at(self.rooms(), room_id@, i) ==> r == Some(self.rooms()[i]),
    {
        match self.position(room_id) {
            Some(i) => {
                proof {
                    assert forall|j: int| #[trigger] room_at(self.rooms@, room_id@, j) implies j == i by {
                        if j < i {
                            assert(self.rooms@[j].room_id@ != self.rooms@[i as int].room_id@);
                        } else if j > i {
                            assert(self.rooms@[i as int].room_id@ != self.rooms@[j].room_id@);
                        }
                    }
                }
                Some(copy_room(&self.rooms[i]))
            },
            None => None,
        }
    }
}

/// Recording a room and reading its record back gives the record: whether
/// the room was known or not, the store then holds exactly one record for
/// the room, the one recorded.
pub proof fn law_room_read_back(before: Seq<RoomRecord>, after: Seq<RoomRecord>, record: RoomRecord)
    requires
        room_ids_unique(before),
        has_room(before, record.room_id@) ==> forall|i: int|
            #[trigger] room_at(before, record.room_id@, i) ==> after == before.update(i, record),
        !has_room(before, record.room_id@) ==> after == before.push(record),
    ensures
        room_ids_unique(after),
        has_room(after, record.room_id@),
        forall|j: int| #[trigger] room_at(after, record.room_id@, j) ==> after[j] == record,
{
    if has_room(before, record.room_id@) {
        let i = choose|i: int| #[trigger] room_at(before, record.room_id@, i);
        assert(after == before.update(i, record));
        assert forall|a: int, b: int| 0 <= a < b < after.len() implies after[a].room_id@ != after[b].room_id@ by {
            assert(before[a].room_id@ != before[b].room_id@);
        }
        assert(room_at(after, record.room_id@, i));
        assert forall|j: int| #[trigger] room_at(after, record.room_id@, j) implies after[j] == record by {
            if j != i {
                if j < i {
                    assert(after[j].room_id@ != after[i].room_id@);
                } else {
                    assert(after[i].room_id@ != after[j].room_id@);
                }
            }
        }
    } else {
        assert forall|a: int, b: int| 0 <= a < b < after.len() implies after[a].room_id@ != after[b].room_id@ by {
            if b == before.len() {
                assert(!room_at(before, record.room_id@, a));
            }
        }
        assert(room_at(after, record.room_id@, before.len() as int));
        assert forall|j: int| #[trigger] room_at(after, record.room_id@, j) implies after[j] == record by {
            if j < before.len() {
                assert(room_at(before, record.room_id@, j));
            }
        }
    }
}

/// What `str::to_lowercase` gives for a text.
pub uninterp spec fn lowercase_of(text: Seq<char>) -> Seq<char>;

/// `text` in lower case, by `str::to_lowercase` (Unicode case mapping). The
/// contract claims only that the result is a function of the text.
#[verifier::external_body]
pub(crate) fn text_lowercase(text: &str) -> (r: String)
    ensures
        r@ == lowercase_of(text@),
{
    text.to_lowercase()
}

/// Sightings in order of time, the latest first.
pub open spec fn latest_first(s: Seq<AliasSighting>) -> bool {
    forall|i: int, j: int| 0 <= i < j < s.len() ==> s[i].seen_at >= s[j].seen_at
}

/// The sightings of one room, in stored order.
pub open spec fn sightings_of(s: Seq<AliasSighting>, room_id: Seq<char>) -> Seq<AliasSighting>
    decreases s.len(),
{
    if s.len() == 0 {
        s
    } else {
        let rest = sightings_of(s.drop_last(), room_id);
        if s.last().room_id@ == room_id {
            rest.push(s.last())
        } else {
            rest
        }
    }
}

pub open spec fn sighting_aliases(s: Seq<AliasSighting>) -> Seq<Seq<char>> {
    s.map_values(|x: AliasSighting| x.alias@)
}

/// The folder labels in use, lowered, each once.
pub open spec fn label_in_use(rooms: Seq<RoomRecord>, excluding: Option<Seq<char>>, label: Seq<char>) -> bool {
    exists|i: int|
        0 <= i < rooms.len() && (excluding != Some((#[trigger] rooms[i]).room_id@)) && lowercase_of(
            rooms[i].active_folder_label@,
        ) == label
}

fn copy_sighting(x: &AliasSighting) -> (r: AliasSighting)
    ensures
        r == *x,
{
    AliasSighting { room_id: x.room_id.clone(), alias: x.alias.clone(), seen_at: x.seen_at }
}

impl RoomStore {
    /// Every room, listed by name (display name, else alias, else ID),
    /// ASCII letters compared without case; rooms of equal names keep
    /// their stored order.
    pub fn fetch_rooms(&self) -> (r: Vec<RoomRecord>)
        ensures
            rooms_listed_in_order(r@),
            r@.to_multiset() == self.rooms().to_multiset(),
    {
        broadcast use vstd::seq_lib::to_multiset_build, vstd::seq_lib::to_multiset_insert;

        let mut out: Vec<RoomRecord> = Vec::new();
        let mut i: usize = 0;
        proof {
            assert(self.rooms@.take(0) =~= out@);
        }
        while i < self.rooms.len()
            invariant
                i <= self.rooms@.len(),
                rooms_listed_in_order(out@),
                out@.to_multiset() == self.rooms@.take(i as int).to_multiset(),
            decreases self.rooms@.len() - i,
        {
            let x = copy_room(&self.rooms[i]);
            let xn = listing_name_chars(&x);
            let mut k: usize = 0;
            while k < out.len() && nocase_le_exec(&listing_name_chars(&out[k]), &xn)
                invariant
                    k <= out@.len(),
                    xn@ == listing_name(x),
                    rooms_listed_in_order(out@),
                    forall|j: int| 0 <= j < k ==> nocase_le(listing_name(out@[j]), listing_name(x)),
                decreases out@.len() - k,
            {
                k = k + 1;
            }
            let ghost before = out@;
            proof {
                assert forall|j: int| k <= j < before.len() implies nocase_le(listing_name(x), listing_name(before[j])) by {
                    if k < before.len() {
                        assert(!nocase_le(listing_name(before[k as int]), listing_name(x)));
                        lemma_nocase_total(listing_name(before[k as int]), listing_name(x));
                        if j > k {
                            lemma_nocase_transitive(listing_name(x), listing_name(before[k as int]), listing_name(before[j]));
                        }
                    }
                }
            }
            out.insert(k, x);
            proof {
                assert(out@ == before.insert(k as int, x));
                assert forall|a: int, b: int| 0 <= a < b < out@.len() implies nocase_le(
                    listing_name(out@[a]),
                    listing_name(out@[b]),
                ) by {
                    let n = k as int;
                    if a < n && b == n {
                    } else if a == n && b > n {
                        assert(out@[b] == before[b - 1]);
                    } else if a < n && b > n {
                        assert(out@[a] == before[a] && out@[b] == before[b - 1]);
                        lemma_nocase_transitive(listing_name(before[a]), listing_name(x), listing_name(before[b - 1]));
                    } else if a > n {
                        assert(out@[a] == before[a - 1] && out@[b] == before[b - 1]);
                    } else {
                        assert(out@[a] == before[a] && out@[b] == before[b]);
                    }
                }
                assert(self.rooms@.take(i + 1) =~= self.rooms@.take(i as int).push(self.rooms@[i as int]));
                vstd::seq_lib::to_multiset_insert(before, k as int, x);
                vstd::seq_lib::to_multiset_build(self.rooms@.take(i as int), self.rooms@[i as int]);
                assert(out@.to_multiset() == self.rooms@.take(i + 1).to_multiset());
            }
            i = i + 1;
        }
        proof {
            assert(self.rooms@.take(self.rooms@.len() as int) =~= self.rooms@);
        }
        out
    }

    /// The folder labels of all rooms but `excluding_room_id`, lowered,
    /// each once.
    pub fn all_folder_labels(&self, excluding_room_id: Option<&str>) -> (r: Vec<String>)
        ensures
            string_views(r@).no_duplicates(),
            forall|label: Seq<char>|
                #[trigger] string_views(r@).contains(label) <==> label_in_use(
                    self.rooms(),
                    excluding_room_id.deep_view(),
                    label,
                ),
    {
        broadcast use vstd::seq_lib::lemma_seq_contains_after_push;

        let mut r: Vec<String> = Vec::new();
        let mut i: usize = 0;
        while i < self.rooms.len()
            invariant
                i <= self.rooms@.len(),
                string_views(r@).no_duplicates(),
                forall|label: Seq<char>|
                    #[trigger] string_views(r@).contains(label) <==> label_in_use(
                        self.rooms@.take(i as int),
                        excluding_room_id.deep_view(),
                        label,
                    ),
            decreases self.rooms@.len() - i,
        {
            let skip = match excluding_room_id {
                Some(ex) => str_eq(self.rooms[i].room_id.as_str(), ex),
                None => false,
            };
            let ghost before = string_views(r@);
            let ghost lowered: Seq<char> = lowercase_of(self.rooms@[i as int].active_folder_label@);
            let mut added = false;
            if !skip {
                let label = text_lowercase(self.rooms[i].active_folder_label.as_str());
                if !crate::text::contains_string(&r, label.as_str()) {
                    r.push(label);
                    added = true;
                    proof {
                        assert(string_views(r@) =~= before.push(lowered));
                        let w = string_views(r@);
                        assert forall|a: int, b: int| 0 <= a < w.len() && 0 <= b < w.len() && a != b implies w[a] != w[b] by {
                            if a == before.len() {
                                assert(before.contains(before[b]));
                            } else if b == before.len() {
                                assert(before.contains(before[a]));
                            }
                        }
                    }
                }
            }
            proof {
                let t = self.rooms@.take(i as int);
                let t1 = self.rooms@.take(i + 1);
                assert forall|label: Seq<char>| #[trigger] string_views(r@).contains(label) <==> label_in_use(
                    t1,
                    excluding_room_id.deep_view(),
                    label,
                ) by {
                    if added {
                        vstd::seq_lib::lemma_seq_contains_after_push(before, lowered, label);
                    }
                    if label_in_use(t1, excluding_room_id.deep_view(), label) {
                        let w = choose|w: int|
                            0 <= w < t1.len() && (excluding_room_id.deep_view() != Some((#[trigger] t1[w]).room_id@))
                                && lowercase_of(t1[w].active_folder_label@) == label;
                        if w < i {
                            assert(t[w] == t1[w]);
                            assert(label_in_use(t, excluding_room_id.deep_view(), label));
                        } else {
                            match excluding_room_id {
                                Some(ex) => {
                                    assert(excluding_room_id.deep_view() == Some(ex@));
                                },
                                None => {},
                            }
                        }
                    }
                    if label_in_use(t, excluding_room_id.deep_view(), label) {
                        let w = choose|w: int|
                            0 <= w < t.len() && (excluding_room_id.deep_view() != Some((#[trigger] t[w]).room_id@))
                                && lowercase_of(t[w].active_folder_label@) == label;
                        assert(t1[w] == t[w]);
                    }
                    if !skip && label == lowered {
                        match excluding_room_id {
                            Some(ex) => {
                                assert(excluding_room_id.deep_view() == Some(ex@));
                            },
                            None => {},
                        }
                        assert(t1[i as int] == self.rooms@[i as int]);
                    }
                }
            }
            i = i + 1;
        }
        proof {
            assert(self.rooms@.take(self.rooms@.len() as int) =~= self.rooms@);
        }
        r
    }
}

/// The sighting of `alias` for `room_id` is stamped `now`.
pub open spec fn seen_now(s: Seq<AliasSighting>, room_id: Seq<char>, alias: Seq<char>, now: i64) -> bool {
    exists|i: int| #[trigger] sighting_at(s, room_id, alias, i) && s[i].seen_at == now
}

/// `after` is `before` with the aliases `aliases` of `room_id` seen at `now`:
/// each of them has a sighting stamped `now`, and every other sighting is
/// kept as it was.
pub open spec fn aliases_recorded(
    before: Seq<AliasSighting>,
    after: Seq<AliasSighting>,
    room_id: Seq<char>,
    aliases: Seq<Seq<char>>,
    now: i64,
) -> bool {
    &&& forall|a: Seq<char>| #[trigger] aliases.contains(a) ==> seen_now(after, room_id, a, now)
    &&& forall|i: int|
        0 <= i < after.len() ==> if (#[trigger] after[i]).room_id@ == room_id && aliases.contains(
            after[i].alias@,
        ) {
            after[i].seen_at == now
        } else {
            before.contains(after[i])
        }
    &&& forall|j: int|
        0 <= j < before.len() && !((#[trigger] before[j]).room_id@ == room_id && aliases.contains(
            before[j].alias@,
        )) ==> after.contains(before[j])
}

/// The sightings of a room are the stored sightings of that room, and no
/// two of them share an alias.
proof fn lemma_sightings_of(t: Seq<AliasSighting>, room_id: Seq<char>)
    ensures
        forall|x: AliasSighting|
            #[trigger] sightings_of(t, room_id).contains(x) <==> (t.contains(x) && x.room_id@ == room_id),
        sightings_unique(t) ==> sightings_of(t, room_id).no_duplicates(),
    decreases t.len(),
{
    if t.len() > 0 {
        let u = t.drop_last();
        lemma_sightings_of(u, room_id);
        let rest = sightings_of(u, room_id);
        assert forall|x: AliasSighting| #[trigger] sightings_of(t, room_id).contains(x) <==> (t.contains(x)
            && x.room_id@ == room_id) by {
            if t.contains(x) && x.room_id@ == room_id {
                let i = choose|i: int| 0 <= i < t.len() && t[i] == x;
                if i < u.len() {
                    assert(u[i] == x);
                    if t.last().room_id@ == room_id {
                        vstd::seq_lib::lemma_seq_contains_after_push(rest, t.last(), x);
                    }
                } else {
                    assert(rest.push(x)[rest.len() as int] == x);
                }
            }
            if sightings_of(t, room_id).contains(x) {
                if t.last().room_id@ == room_id {
                    let j = choose|j: int| 0 <= j < rest.len() + 1 && rest.push(t.last())[j] == x;
                    if j < rest.len() {
                        assert(rest[j] == x);
                    }
                }
                if rest.contains(x) {
                    let k = choose|k: int| 0 <= k < u.len() && u[k] == x;
                    assert(t[k] == x);
                } else {
                    assert(t[t.len() - 1] == x);
                }
            }
        }
        if sightings_unique(t) {
            assert(sightings_unique(u));
            if t.last().room_id@ == room_id {
                let w = rest.push(t.last());
                assert forall|a: int, b: int| 0 <= a < w.len() && 0 <= b < w.len() && a != b implies w[a]
                    != w[b] by {
                    if a == rest.len() || b == rest.len() {
                        let other = if a == rest.len() { b } else { a };
                        assert(rest.contains(w[other]));
                        let k = choose|k: int| 0 <= k < u.len() && u[k] == w[other];
                        assert(t[k] == w[other]);
                        assert(!(t[k].room_id@ == t[t.len() - 1].room_id@ && t[k].alias@ == t[t.len() - 1].alias@));
                    }
                }
            }
        }
    }
}

/// After a room is seen under some aliases, its alias history lists each
/// of them, lists no alias twice, and lists only aliases seen for the room;
/// seeing a room under no alias changes no sighting.
pub proof fn law_alias_history_after_sighting(
    before: Seq<AliasSighting>,
    after: Seq<AliasSighting>,
    room_id: Seq<char>,
    aliases: Seq<Seq<char>>,
    now: i64,
    listed: Seq<AliasSighting>,
)
    requires
        sightings_unique(after),
        aliases_recorded(before, after, room_id, aliases, now),
        listed.to_multiset() == sightings_of(after, room_id).to_multiset(),
    ensures
        forall|a: Seq<char>| #[trigger] aliases.contains(a) ==> sighting_aliases(listed).contains(a),
        sighting_aliases(listed).no_duplicates(),
        forall|k: int| 0 <= k < listed.len() ==> (#[trigger] listed[k]).room_id@ == room_id && after.contains(listed[k]),
        aliases.len() == 0 ==> forall|x: AliasSighting| #[trigger] after.contains(x) <==> before.contains(x),
{
    broadcast use vstd::seq_lib::to_multiset_contains;

    lemma_sightings_of(after, room_id);
    let l = sightings_of(after, room_id);
    l.lemma_multiset_has_no_duplicates();
    listed.lemma_multiset_has_no_duplicates_conv();
    assert forall|k: int| 0 <= k < listed.len() implies (#[trigger] listed[k]).room_id@ == room_id && after.contains(
        listed[k],
    ) by {
        assert(listed.contains(listed[k]));
        assert(listed.to_multiset().count(listed[k]) > 0);
        assert(l.contains(listed[k]));
    }
    assert forall|a: Seq<char>| #[trigger] aliases.contains(a) implies sighting_aliases(listed).contains(a) by {
        assert(seen_now(after, room_id, a, now));
        let i = choose|i: int| #[trigger] sighting_at(after, room_id, a, i) && after[i].seen_at == now;
        assert(after.contains(after[i]));
        assert(l.contains(after[i]));
        assert(l.to_multiset().count(after[i]) > 0);
        assert(listed.contains(after[i]));
        let k = choose|k: int| 0 <= k < listed.len() && listed[k] == after[i];
        assert(sighting_aliases(listed)[k] == a);
    }
    assert forall|j: int, k: int|
        0 <= j < sighting_aliases(listed).len() && 0 <= k < sighting_aliases(listed).len() && j != k implies sighting_aliases(
        listed,
    )[j] != sighting_aliases(listed)[k] by {
        assert(listed.contains(listed[j]) && listed.contains(listed[k]));
        assert(listed.to_multiset().count(listed[j]) > 0);
        assert(listed.to_multiset().count(listed[k]) > 0);
        assert(l.contains(listed[j]) && l.contains(listed[k]));
        let mj = choose|m: int| 0 <= m < after.len() && after[m] == listed[j];
        let mk = choose|m: int| 0 <= m < after.len() && after[m] == listed[k];
        assert(listed[j] != listed[k]);
        if mj < mk {
            assert(!(after[mj].room_id@ == after[mk].room_id@ && after[mj].alias@ == after[mk].alias@));
        } else if mk < mj {
            assert(!(after[mk].room_id@ == after[mj].room_id@ && after[mk].alias@ == after[mj].alias@));
        }
    }
    if aliases.len() == 0 {
        assert forall|x: AliasSighting| #[trigger] after.contains(x) <==> before.contains(x) by {
            if after.contains(x) {
                let i = choose|i: int| 0 <= i < after.len() && after[i] == x;
                assert(!aliases.contains(after[i].alias@));
            }
            if before.contains(x) {
                let j = choose|j: int| 0 <= j < before.len() && before[j] == x;
                assert(!aliases.contains(before[j].alias@));
            }
        }
    }
}

impl RoomStore {
    fn sighting_position(&self, room_id: &str, alias: &str) -> (r: Option<usize>)
        ensures
            match r {
                Some(i) => sighting_at(self.aliases@, room_id@, alias@, i as int),
                None => forall|j: int| !#[trigger] sighting_at(self.aliases@, room_id@, alias@, j),
            },
    {
        let mut i: usize = 0;
        while i < self.aliases.len()
            invariant
                i <= self.aliases@.len(),
                forall|j: int| 0 <= j < i ==> !sighting_at(self.aliases@, room_id@, alias@, j),
            decreases self.aliases@.len() - i,
        {
            if str_eq(self.aliases[i].room_id.as_str(), room_id) && str_eq(
                self.aliases[i].alias.as_str(),
                alias,
            ) {
                return Some(i);
            }
            i = i + 1;
        }
        None
    }

    /// Records that the room was seen under these aliases now.
    pub fn insert_alias_history(&mut self, room_id: &str, aliases: &Vec<String>, now: i64)
        requires
            old(self).wf(),
        ensures
            final(self).wf(),
            final(self).rooms() == old(self).rooms(),
            aliases_recorded(
                old(self).sightings(),
                final(self).sightings(),
                room_id@,
                string_views(aliases@),
                now,
            ),
    {
        broadcast use vstd::seq_lib::lemma_seq_contains_after_push;

        let ghost start = self.aliases@;
        let ghost all = string_views(aliases@);
        let mut k: usize = 0;
        proof {
            assert forall|j: int| 0 <= j < start.len() implies start.contains(#[trigger] start[j]) by {}
        }
        while k < aliases.len()
            invariant
                k <= aliases@.len(),
                all == string_views(aliases@),
                self.rooms@ == old(self).rooms@,
                sightings_unique(self.aliases@),
                aliases_recorded(start, self.aliases@, room_id@, all.take(k as int), now),
            decreases aliases@.len() - k,
        {
            let ghost before = self.aliases@;
            let ghost prefix = all.take(k as int);
            let ghost next = all.take(k + 1);
            let ghost a = aliases@[k as int]@;
            proof {
                assert(next =~= prefix.push(a));
            }
            let found = self.sighting_position(room_id, aliases[k].as_str());
            proof {
                assert(aliases[k as int]@ == a);
                if found is None {
                    assert forall|q: int| !#[trigger] sighting_at(before, room_id@, a, q) by {
                        assert(!sighting_at(self.aliases@, room_id@, aliases[k as int]@, q));
                    }
                }
            }
            match found {
                Some(i) => {
                    proof {
                        assert(sighting_at(before, room_id@, a, i as int));
                        assert forall|q: int| 0 <= q < before.len() && q != i implies !sighting_at(
                            before,
                            room_id@,
                            a,
                            q,
                        ) by {
                            if q < i {
                                assert(!(before[q].room_id@ == before[i as int].room_id@
                                    && before[q].alias@ == before[i as int].alias@));
                            } else {
                                assert(!(before[i as int].room_id@ == before[q].room_id@
                                    && before[i as int].alias@ == before[q].alias@));
                            }
                        }
                    }
                    let old_entry = copy_sighting(&self.aliases[i]);
                    self.aliases.set(
                        i,
                        AliasSighting { room_id: old_entry.room_id, alias: old_entry.alias, seen_at: now },
                    );
                    proof {
                        let after = self.aliases@;
                        assert forall|x: int, y: int| 0 <= x < y < after.len() implies !(after[x].room_id@
                            == after[y].room_id@ && after[x].alias@ == after[y].alias@) by {
                            assert(!(before[x].room_id@ == before[y].room_id@ && before[x].alias@
                                == before[y].alias@));
                        }
                        assert forall|b: Seq<char>| #[trigger] next.contains(b) implies seen_now(
                            after,
                            room_id@,
                            b,
                            now,
                        ) by {
                            if b == a {
                                assert(sighting_at(after, room_id@, b, i as int));
                            } else {
                                assert(prefix.contains(b));
                                let w = choose|w: int| #[trigger] sighting_at(before, room_id@, b, w) && before[w].seen_at == now;
                                assert(w != i);
                                assert(sighting_at(after, room_id@, b, w));
                            }
                        }
                        assert forall|q: int| 0 <= q < after.len() implies if (#[trigger] after[q]).room_id@
                            == room_id@ && next.contains(after[q].alias@) {
                            after[q].seen_at == now
                        } else {
                            start.contains(after[q])
                        } by {
                            vstd::seq_lib::lemma_seq_contains_after_push(prefix, a, after[q].alias@);
                            if q != i {
                                assert(after[q] == before[q]);
                                if before[q].room_id@ == room_id@ && next.contains(before[q].alias@)
                                    && !prefix.contains(before[q].alias@) {
                                    assert(before[q].alias@ == a);
                                    assert(sighting_at(before, room_id@, a, q));
                                    assert(false);
                                }
                            } else {
                                assert(after[q].room_id@ == room_id@ && after[q].alias@ == a);
                            }
                        }
                        assert forall|j: int|
                            0 <= j < start.len() && !((#[trigger] start[j]).room_id@ == room_id@
                                && next.contains(start[j].alias@)) implies after.contains(start[j]) by {
                            assert(before.contains(start[j]));
                            let w = choose|w: int| 0 <= w < before.len() && before[w] == start[j];
                            if w == i {
                                assert(before[w].room_id@ == room_id@ && before[w].alias@ == a);
                                assert(next[prefix.len() as int] == a);
                                assert(next.contains(a));
                                assert(false);
                            }
                            assert(after[w] == before[w]);
                        }
                    }
                },
                None => {
                    proof {
                        assert(forall|q: int| !#[trigger] sighting_at(before, room_id@, a, q));
                    }
                    self.aliases.push(
                        AliasSighting { room_id: room_id.to_owned(), alias: aliases[k].clone(), seen_at: now },
                    );
                    proof {
                        let after = self.aliases@;
                        let n = before.len() as int;
                        assert forall|x: int, y: int| 0 <= x < y < after.len() implies !(after[x].room_id@
                            == after[y].room_id@ && after[x].alias@ == after[y].alias@) by {
                            if y == n {
                                assert(!sighting_at(before, room_id@, a, x));
                            } else {
                                assert(!(before[x].room_id@ == before[y].room_id@ && before[x].alias@
                                    == before[y].alias@));
                            }
                        }
                        assert forall|b: Seq<char>| #[trigger] next.contains(b) implies seen_now(
                            after,
                            room_id@,
                            b,
                            now,
                        ) by {
                            if b == a {
                                assert(sighting_at(after, room_id@, b, n));
                            } else {
                                assert(prefix.contains(b));
                                let w = choose|w: int| #[trigger] sighting_at(before, room_id@, b, w) && before[w].seen_at == now;
                                assert(sighting_at(after, room_id@, b, w));
                            }
                        }
                        assert forall|q: int| 0 <= q < after.len() implies if (#[trigger] after[q]).room_id@
                            == room_id@ && next.contains(after[q].alias@) {
                            after[q].seen_at == now
                        } else {
                            start.contains(after[q])
                        } by {
                            vstd::seq_lib::lemma_seq_contains_after_push(prefix, a, after[q].alias@);
                            if q < n {
                                assert(after[q] == before[q]);
                                if before[q].room_id@ == room_id@ && next.contains(before[q].alias@)
                                    && !prefix.contains(before[q].alias@) {
                                    assert(before[q].alias@ == a);
                                    assert(sighting_at(before, room_id@, a, q));
                                    assert(false);
                                }
                            }
                        }
                        assert forall|j: int|
                            0 <= j < start.len() && !((#[trigger] start[j]).room_id@ == room_id@
                                && next.contains(start[j].alias@)) implies after.contains(start[j]) by {
                            assert(before.contains(start[j]));
                            let w = choose|w: int| 0 <= w < before.len() && before[w] == start[j];
                            assert(after[w] == before[w]);
                        }
                    }
                },
            }
            k = k + 1;
        }
        proof {
            assert(all.take(aliases@.len() as int) =~= all);
        }
    }

    /// The aliases a room was seen under, the latest first.
    pub fn alias_history(&self, room_id: &str) -> (r: Vec<String>)
        ensures
            exists|s: Seq<AliasSighting>|
                #![trigger sighting_aliases(s)]
                s.to_multiset() == sightings_of(self.sightings(), room_id@).to_multiset() && latest_first(s)
                    && string_views(r@) == sighting_aliases(s),
    {
        broadcast use vstd::seq_lib::to_multiset_build, vstd::seq_lib::to_multiset_insert;

        let mut sorted: Vec<AliasSighting> = Vec::new();
        let mut i: usize = 0;
        proof {
            assert(sightings_of(self.aliases@.take(0), room_id@) =~= sorted@);
        }
        while i < self.aliases.len()
            invariant
                i <= self.aliases@.len(),
                latest_first(sorted@),
                sorted@.to_multiset() == sightings_of(self.aliases@.take(i as int), room_id@).to_multiset(),
            decreases self.aliases@.len() - i,
        {
            proof {
                assert(self.aliases@.take(i + 1).drop_last() =~= self.aliases@.take(i as int));
            }
            if str_eq(self.aliases[i].room_id.as_str(), room_id) {
                let x = copy_sighting(&self.aliases[i]);
                let mut k: usize = 0;
                while k < sorted.len() && sorted[k].seen_at >= x.seen_at
                    invariant
                        k <= sorted@.len(),
                        latest_first(sorted@),
                        forall|j: int| 0 <= j < k ==> sorted@[j].seen_at >= x.seen_at,
                    decreases sorted@.len() - k,
                {
                    k = k + 1;
                }
                let ghost before = sorted@;
                sorted.insert(k, x);
                proof {
                    assert forall|a: int, b: int| 0 <= a < b < sorted@.len() implies sorted@[a].seen_at
                        >= sorted@[b].seen_at by {
                        let n = k as int;
                        if a < n && b == n {
                        } else if a == n && b > n {
                            assert(sorted@[b] == before[b - 1]);
                        } else if a < n && b > n {
                            assert(sorted@[a] == before[a] && sorted@[b] == before[b - 1]);
                        } else if a > n {
                            assert(sorted@[a] == before[a - 1] && sorted@[b] == before[b - 1]);
                        } else {
                            assert(sorted@[a] == before[a] && sorted@[b] == before[b]);
                        }
                    }
                    vstd::seq_lib::to_multiset_insert(before, k as int, x);
                    let t = self.aliases@.take(i as int);
                    vstd::seq_lib::to_multiset_build(sightings_of(t, room_id@), self.aliases@[i as int]);
                }
            }
            i = i + 1;
        }
        proof {
            assert(self.aliases@.take(self.aliases@.len() as int) =~= self.aliases@);
        }
        let mut r: Vec<String> = Vec::new();
        let mut j: usize = 0;
        while j < sorted.len()
            invariant
                j <= sorted@.len(),
                string_views(r@) == sighting_aliases(sorted@.take(j as int)),
            decreases sorted@.len() - j,
        {
            let ghost before = r@;
            r.push(sorted[j].alias.clone());
            proof {
                assert(sorted@.take(j + 1) =~= sorted@.take(j as int).push(sorted@[j as int]));
                assert(string_views(r@) =~= string_views(before).push(sorted@[j as int].alias@));
                assert(sighting_aliases(sorted@.take(j + 1)) =~= sighting_aliases(sorted@.take(j as int)).push(
                    sorted@[j as int].alias@,
                ));
            }
            j = j + 1;
        }
        proof {
            assert(sorted@.take(sorted@.len() as int) =~= sorted@);
        }
        r
    }
}

impl RoomStore {
    /// Every alias sighting, to be kept on disk.
    pub fn all_sightings(&self) -> (r: Vec<AliasSighting>)
        ensures
            r@ == self.sightings(),
    {
        let mut r: Vec<AliasSighting> = Vec::new();
        let mut i: usize = 0;
        while i < self.aliases.len()
            invariant
                i <= self.aliases@.len(),
                r@ == self.aliases@.take(i as int),
            decreases self.aliases@.len() - i,
        {
            r.push(copy_sighting(&self.aliases[i]));
            i = i + 1;
            proof {
                assert(r@ =~= self.aliases@.take(i as int));
            }
        }
        proof {
            assert(self.aliases@.take(self.aliases@.len() as int) =~= self.aliases@);
        }
        r
    }

    /// Rooms and sightings read back from disk; refused when a room appears
    /// twice or an alias of a room twice.
    pub fn restore(rooms: Vec<RoomRecord>, sightings: Vec<AliasSighting>) -> (r: Option<Self>)
        ensures
            r is Some <==> (room_ids_unique(rooms@) && sightings_unique(sightings@)),
            r matches Some(s) ==> s.rooms() == rooms@ && s.sightings() == sightings@,
    {
        let mut k: usize = 0;
        while k < rooms.len()
            invariant
                k <= rooms@.len(),
                forall|a: int, b: int| 0 <= a < b < k ==> rooms@[a].room_id@ != rooms@[b].room_id@,
            decreases rooms@.len() - k,
        {
            let mut a: usize = 0;
            while a < k
                invariant
                    a <= k < rooms@.len(),
                    forall|x: int| 0 <= x < a ==> rooms@[x].room_id@ != rooms@[k as int].room_id@,
                decreases k - a,
            {
                if str_eq(rooms[a].room_id.as_str(), rooms[k].room_id.as_str()) {
                    return None;
                }
                a = a + 1;
            }
            k = k + 1;
        }
        let mut k: usize = 0;
        while k < sightings.len()
            invariant
                room_ids_unique(rooms@),
                k <= sightings@.len(),
                forall|a: int, b: int|
                    0 <= a < b < k ==> !(sightings@[a].room_id@ == sightings@[b].room_id@ && sightings@[a].alias@
                        == sightings@[b].alias@),
            decreases sightings@.len() - k,
        {
            let mut a: usize = 0;
            while a < k
                invariant
                    a <= k < sightings@.len(),
                    forall|x: int|
                        0 <= x < a ==> !(sightings@[x].room_id@ == sightings@[k as int].room_id@
                            && sightings@[x].alias@ == sightings@[k as int].alias@),
                decreases k - a,
            {
                if str_eq(sightings[a].room_id.as_str(), sightings[k].room_id.as_str()) && str_eq(
                    sightings[a].alias.as_str(),
                    sightings[k].alias.as_str(),
                ) {
                    return None;
                }
                a = a + 1;
            }
            k = k + 1;
        }
        Some(RoomStore { rooms, aliases: sightings })
    }
}

} // verus!
