//! Spaces: the links kept between a space and the rooms joined from it, the
//! plan that brings a space's children in line with those links, and the
//! reading of a space's hierarchy, page by page.

use vstd::prelude::*;
use crate::domain::{AppLogLevel, RoomHierarchySnapshot, SpaceAutoJoinRecord, SpaceChildDescriptor};
use crate::queue::copy_opt_string;
use crate::media::{join_url, pair_views, url_encode, url_encoded, url_join_of, url_with_query, url_with_query_of};
use crate::rooms::{lemma_nocase_total, lemma_nocase_transitive, nocase_le, nocase_le_exec};
use crate::text::{chars_of, contains_string, copy_strings, push_str, str_eq, string_views};

verus! {

/// `l` links the space `space` to the child room `child`.
pub open spec fn link_for(l: SpaceAutoJoinRecord, space: Seq<char>, child: Seq<char>) -> bool {
    l.space_room_id@ == space && l.child_room_id@ == child
}

/// No two links share a space and a child.
pub open spec fn links_unique(s: Seq<SpaceAutoJoinRecord>) -> bool {
    forall|i: int, k: int|
        0 <= i < k < s.len() ==> !link_for(s[k], s[i].space_room_id@, s[i].child_room_id@)
}

pub open spec fn has_link(s: Seq<SpaceAutoJoinRecord>, space: Seq<char>, child: Seq<char>) -> bool {
    exists|i: int| 0 <= i < s.len() && #[trigger] link_for(s[i], space, child)
}

/// A link after it is written again: it stays marked as joined by the bot
/// once it was, and its update time moves on.
pub open spec fn merged_link(l: SpaceAutoJoinRecord, auto_joined_by_bot: bool, now: i64) -> SpaceAutoJoinRecord {
    SpaceAutoJoinRecord {
        space_room_id: l.space_room_id,
        child_room_id: l.child_room_id,
        auto_joined_by_bot: l.auto_joined_by_bot || auto_joined_by_bot,
        created_at: l.created_at,
        updated_at: now,
    }
}

/// The room a link is listed by: its child room, or its space.
pub open spec fn link_key(l: SpaceAutoJoinRecord, by_child: bool) -> Seq<char> {
    if by_child {
        l.child_room_id@
    } else {
        l.space_room_id@
    }
}

/// Links in order of their child rooms (or spaces), ASCII letters compared
/// without case.
pub open spec fn links_in_key_order(s: Seq<SpaceAutoJoinRecord>, by_child: bool) -> bool {
    forall|i: int, j: int| 0 <= i < j < s.len() ==> nocase_le(link_key(s[i], by_child), link_key(s[j], by_child))
}

fn link_key_chars(l: &SpaceAutoJoinRecord, by_child: bool) -> (v: Vec<char>)
    ensures
        v@ == link_key(*l, by_child),
{
    if by_child {
        chars_of(l.child_room_id.as_str())
    } else {
        chars_of(l.space_room_id.as_str())
    }
}

/// The links sorted by their child rooms (or spaces); links with equal keys
/// keep their order.
fn sort_links(links: &Vec<SpaceAutoJoinRecord>, by_child: bool) -> (r: Vec<SpaceAutoJoinRecord>)
    ensures
        links_in_key_order(r@, by_child),
        r@.to_multiset() == links@.to_multiset(),
{
    broadcast use vstd::seq_lib::to_multiset_build, vstd::seq_lib::to_multiset_insert;

    let mut out: Vec<SpaceAutoJoinRecord> = Vec::new();
    let mut i: usize = 0;
    proof {
        assert(links@.take(0) =~= out@);
    }
    while i < links.len()
        invariant
            i <= links@.len(),
            links_in_key_order(out@, by_child),
            out@.to_multiset() == links@.take(i as int).to_multiset(),
        decreases links@.len() - i,
    {
        let x = copy_link(&links[i]);
        let xk = link_key_chars(&x, by_child);
        let mut k: usize = 0;
        while k < out.len() && nocase_le_exec(&link_key_chars(&out[k], by_child), &xk)
            invariant
                k <= out@.len(),
                xk@ == link_key(x, by_child),
                links_in_key_order(out@, by_child),
                forall|j: int| 0 <= j < k ==> nocase_le(link_key(out@[j], by_child), link_key(x, by_child)),
            decreases out@.len() - k,
        {
            k = k + 1;
        }
        let ghost before = out@;
        proof {
            assert forall|j: int| k <= j < before.len() implies nocase_le(
                link_key(x, by_child),
                link_key(before[j], by_child),
            ) by {
                if k < before.len() {
                    lemma_nocase_total(link_key(before[k as int], by_child), link_key(x, by_child));
                    if j > k {
                        lemma_nocase_transitive(
                            link_key(x, by_child),
                            link_key(before[k as int], by_child),
                            link_key(before[j], by_child),
                        );
                    }
                }
            }
        }
        out.insert(k, x);
        proof {
            assert(out@ == before.insert(k as int, x));
            assert forall|a: int, b: int| 0 <= a < b < out@.len() implies nocase_le(
                link_key(out@[a], by_child),
                link_key(out@[b], by_child),
            ) by {
                let n = k as int;
                if a < n && b == n {
                } else if a == n && b > n {
                    assert(out@[b] == before[b - 1]);
                } else if a < n && b > n {
                    assert(out@[a] == before[a] && out@[b] == before[b - 1]);
                    lemma_nocase_transitive(
                        link_key(before[a], by_child),
                        link_key(x, by_child),
                        link_key(before[b - 1], by_child),
                    );
                } else if a > n {
                    assert(out@[a] == before[a - 1] && out@[b] == before[b - 1]);
                } else {
                    assert(out@[a] == before[a] && out@[b] == before[b]);
                }
            }
            assert(links@.take(i + 1) =~= links@.take(i as int).push(links@[i as int]));
            vstd::seq_lib::to_multiset_insert(before, k as int, x);
            vstd::seq_lib::to_multiset_build(links@.take(i as int), links@[i as int]);
        }
        i = i + 1;
    }
    proof {
        assert(links@.take(links@.len() as int) =~= links@);
    }
    out
}

/// The links of `s` that belong to the space `space`, in order.
pub open spec fn links_of_space(s: Seq<SpaceAutoJoinRecord>, space: Seq<char>) -> Seq<SpaceAutoJoinRecord>
    decreases s.len(),
{
    if s.len() == 0 {
        s
    } else {
        let rest = links_of_space(s.drop_last(), space);
        if s.last().space_room_id@ == space {
            rest.push(s.last())
        } else {
            rest
        }
    }
}

/// The links of `s` that lead to the child room `child`, in order.
pub open spec fn links_of_child(s: Seq<SpaceAutoJoinRecord>, child: Seq<char>) -> Seq<SpaceAutoJoinRecord>
    decreases s.len(),
{
    if s.len() == 0 {
        s
    } else {
        let rest = links_of_child(s.drop_last(), child);
        if s.last().child_room_id@ == child {
            rest.push(s.last())
        } else {
            rest
        }
    }
}

/// `s` without the link between `space` and `child`.
pub open spec fn without_link(s: Seq<SpaceAutoJoinRecord>, space: Seq<char>, child: Seq<char>) -> Seq<
    SpaceAutoJoinRecord,
>
    decreases s.len(),
{
    if s.len() == 0 {
        s
    } else {
        let rest = without_link(s.drop_last(), space, child);
        if link_for(s.last(), space, child) {
            rest
        } else {
            rest.push(s.last())
        }
    }
}

/// A field-by-field copy of a link.
pub fn copy_link(l: &SpaceAutoJoinRecord) -> (r: SpaceAutoJoinRecord)
    ensures
        r == *l,
{
    SpaceAutoJoinRecord {
        space_room_id: l.space_room_id.clone(),
        child_room_id: l.child_room_id.clone(),
        auto_joined_by_bot: l.auto_joined_by_bot,
        created_at: l.created_at,
        updated_at: l.updated_at,
    }
}

/// The stored links between spaces and the child rooms joined from them.
pub struct SpaceLinkStore {
    links: Vec<SpaceAutoJoinRecord>,
}

impl SpaceLinkStore {
    pub closed spec fn links(&self) -> Seq<SpaceAutoJoinRecord> {
        self.links@
    }

    pub open spec fn wf(&self) -> bool {
        links_unique(self.links())
    }

    pub fn new() -> (s: Self)
        ensures
            s.wf(),
            s.links().len() == 0,
    {
        SpaceLinkStore { links: Vec::new() }
    }

    /// Where the link between `space` and `child` stands, if there is one.
    fn position(&self, space: &str, child: &str) -> (r: Option<usize>)
        ensures
            match r {
                Some(i) => i < self.links().len() && link_for(self.links()[i as int], space@, child@),
                None => !has_link(self.links(), space@, child@),
            },
    {
        let mut i: usize = 0;
        while i < self.links.len()
            invariant
                i <= self.links@.len(),
                forall|j: int| 0 <= j < i ==> !#[trigger] link_for(self.links@[j], space@, child@),
            decreases self.links@.len() - i,
        {
            if str_eq(self.links[i].space_room_id.as_str(), space) && str_eq(
                self.links[i].child_room_id.as_str(),
                child,
            ) {
                return Some(i);
            }
            i = i + 1;
        }
        None
    }

    /// Records that `child` was reached from `space`; a link that exists is
    /// kept, stays marked as joined by the bot once it was, and gets the new
    /// update time.
    pub fn upsert_space_auto_join_link(
        &mut self,
        space_room_id: &str,
        child_room_id: &str,
        auto_joined_by_bot: bool,
        now: i64,
    )
        requires
            old(self).wf(),
        ensures
            final(self).wf(),
            has_link(old(self).links(), space_room_id@, child_room_id@) ==> forall|i: int|
                0 <= i < old(self).links().len() && #[trigger] link_for(
                    old(self).links()[i],
                    space_room_id@,
                    child_room_id@,
                ) ==> final(self).links() == old(self).links().update(
                    i,
                    merged_link(old(self).links()[i], auto_joined_by_bot, now),
                ),
            !has_link(old(self).links(), space_room_id@, child_room_id@) ==> {
                &&& final(self).links().len() == old(self).links().len() + 1
                &&& final(self).links().take(old(self).links().len() as int) == old(self).links()
                &&& link_for(final(self).links().last(), space_room_id@, child_room_id@)
                &&& final(self).links().last().auto_joined_by_bot == auto_joined_by_bot
                &&& final(self).links().last().created_at == now
                &&& final(self).links().last().updated_at == now
            },
    {
        match self.position(space_room_id, child_room_id) {
            Some(i) => {
                let l = copy_link(&self.links[i]);
                let merged = SpaceAutoJoinRecord {
                    space_room_id: l.space_room_id,
                    child_room_id: l.child_room_id,
                    auto_joined_by_bot: l.auto_joined_by_bot || auto_joined_by_bot,
                    created_at: l.created_at,
                    updated_at: now,
                };
                let ghost before = self.links@;
                self.links.set(i, merged);
                proof {
                    assert forall|j: int|
                        0 <= j < before.len() && #[trigger] link_for(
                            before[j],
                            space_room_id@,
                            child_room_id@,
                        ) implies j == i by {
                        if j < i {
                            assert(!link_for(before[i as int], before[j].space_room_id@, before[j].child_room_id@));
                        } else if j > i {
                            assert(!link_for(before[j], before[i as int].space_room_id@, before[i as int].child_room_id@));
                        }
                    }
                    assert(self.links@ =~= before.update(i as int, merged_link(before[i as int], auto_joined_by_bot, now)));
                }
            },
            None => {
                let ghost before = self.links@;
                self.links.push(
                    SpaceAutoJoinRecord {
                        space_room_id: space_room_id.to_owned(),
                        child_room_id: child_room_id.to_owned(),
                        auto_joined_by_bot,
                        created_at: now,
                        updated_at: now,
                    },
                );
                proof {
                    assert(self.links@.take(before.len() as int) =~= before);
                    assert forall|a: int, b: int|
                        0 <= a < b < self.links@.len() implies !link_for(
                            self.links@[b],
                            self.links@[a].space_room_id@,
                            self.links@[a].child_room_id@,
                        ) by {
                        if b == before.len() {
                            assert(!link_for(before[a], space_room_id@, child_room_id@));
                        }
                    }
                }
            },
        }
    }

    /// The links of one space, in order of their child rooms (ASCII
    /// letters compared without case).
    pub fn fetch_space_auto_join_links_for_space(&self, space_room_id: &str) -> (r: Vec<SpaceAutoJoinRecord>)
        ensures
            links_in_key_order(r@, true),
            r@.to_multiset() == links_of_space(self.links(), space_room_id@).to_multiset(),
    {
        let mut r: Vec<SpaceAutoJoinRecord> = Vec::new();
        let mut i: usize = 0;
        while i < self.links.len()
            invariant
                i <= self.links@.len(),
                r@ == links_of_space(self.links@.take(i as int), space_room_id@),
            decreases self.links@.len() - i,
        {
            proof {
                assert(self.links@.take(i + 1).drop_last() =~= self.links@.take(i as int));
            }
            if str_eq(self.links[i].space_room_id.as_str(), space_room_id) {
                r.push(copy_link(&self.links[i]));
            }
            i = i + 1;
        }
        assert(self.links@.take(self.links@.len() as int) =~= self.links@);
        sort_links(&r, true)
    }

    /// The links that lead to one child room, in order of their spaces
    /// (ASCII letters compared without case).
    pub fn fetch_space_auto_join_links_for_child(&self, child_room_id: &str) -> (r: Vec<SpaceAutoJoinRecord>)
        ensures
            links_in_key_order(r@, false),
            r@.to_multiset() == links_of_child(self.links(), child_room_id@).to_multiset(),
    {
        let mut r: Vec<SpaceAutoJoinRecord> = Vec::new();
        let mut i: usize = 0;
        while i < self.links.len()
            invariant
                i <= self.links@.len(),
                r@ == links_of_child(self.links@.take(i as int), child_room_id@),
            decreases self.links@.len() - i,
        {
            proof {
                assert(self.links@.take(i + 1).drop_last() =~= self.links@.take(i as int));
            }
            if str_eq(self.links[i].child_room_id.as_str(), child_room_id) {
                r.push(copy_link(&self.links[i]));
            }
            i = i + 1;
        }
        assert(self.links@.take(self.links@.len() as int) =~= self.links@);
        sort_links(&r, false)
    }

    /// Forgets the link between `space` and `child`.
    pub fn delete_space_auto_join_link(&mut self, space_room_id: &str, child_room_id: &str)
        requires
            old(self).wf(),
        ensures
            final(self).wf(),
            final(self).links() == without_link(old(self).links(), space_room_id@, child_room_id@),
            !has_link(final(self).links(), space_room_id@, child_room_id@),
    {
        let ghost old_links = self.links@;
        let mut kept: Vec<SpaceAutoJoinRecord> = Vec::new();
        let mut i: usize = 0;
        while i < self.links.len()
            invariant
                self.links@ == old_links,
                links_unique(old_links),
                i <= old_links.len(),
                kept@ == without_link(old_links.take(i as int), space_room_id@, child_room_id@),
                links_unique(kept@),
                forall|j: int|
                    0 <= j < kept@.len() ==> exists|k: int| 0 <= k < i && old_links[k] == #[trigger] kept@[j],
                !has_link(kept@, space_room_id@, child_room_id@),
            decreases old_links.len() - i,
        {
            proof {
                assert(old_links.take(i + 1).drop_last() =~= old_links.take(i as int));
            }
            if !(str_eq(self.links[i].space_room_id.as_str(), space_room_id) && str_eq(
                self.links[i].child_room_id.as_str(),
                child_room_id,
            )) {
                let ghost before = kept@;
                let l = copy_link(&self.links[i]);
                kept.push(l);
                proof {
                    assert forall|a: int, b: int|
                        0 <= a < b < kept@.len() implies !link_for(
                            kept@[b],
                            kept@[a].space_room_id@,
                            kept@[a].child_room_id@,
                        ) by {
                        if b == before.len() {
                            let k = choose|k: int| 0 <= k < i && old_links[k] == #[trigger] before[a];
                            assert(!link_for(old_links[i as int], old_links[k].space_room_id@, old_links[k].child_room_id@));
                        }
                    }
                    assert forall|j: int| 0 <= j < kept@.len() implies exists|k: int|
                        0 <= k < i + 1 && old_links[k] == #[trigger] kept@[j] by {
                        if j == before.len() {
                            assert(old_links[i as int] == kept@[j]);
                        } else {
                            assert(kept@[j] == before[j]);
                        }
                    }
                    assert forall|j: int| 0 <= j < kept@.len() implies !#[trigger] link_for(
                        kept@[j],
                        space_room_id@,
                        child_room_id@,
                    ) by {
                        if j < before.len() {
                            assert(kept@[j] == before[j]);
                        }
                    }
                }
            }
            i = i + 1;
        }
        assert(old_links.take(old_links.len() as int) =~= old_links);
        self.links = kept;
    }
}

/// Writing a link never clears its mark as joined by the bot, and leaves
/// exactly one link for the pair.
pub proof fn law_upsert_keeps_bot_join_mark(
    before: Seq<SpaceAutoJoinRecord>,
    after: Seq<SpaceAutoJoinRecord>,
    i: int,
    auto_joined_by_bot: bool,
    now: i64,
)
    requires
        links_unique(before),
        0 <= i < before.len(),
        after == before.update(i, merged_link(before[i], auto_joined_by_bot, now)),
    ensures
        after[i].auto_joined_by_bot == (before[i].auto_joined_by_bot || auto_joined_by_bot),
        link_for(after[i], before[i].space_room_id@, before[i].child_room_id@),
        links_unique(after),
{
    assert forall|a: int, b: int|
        0 <= a < b < after.len() implies !link_for(
            after[b],
            after[a].space_room_id@,
            after[a].child_room_id@,
        ) by {
        assert(!link_for(before[b], before[a].space_room_id@, before[a].child_room_id@));
    }
}

/// A child as its room ID and the servers to join it through.
pub open spec fn child_view(c: SpaceChildDescriptor) -> (Seq<char>, Seq<Seq<char>>) {
    (c.room_id@, string_views(c.via_servers@))
}

pub open spec fn child_views(s: Seq<SpaceChildDescriptor>) -> Seq<(Seq<char>, Seq<Seq<char>>)> {
    s.map_values(|c: SpaceChildDescriptor| child_view(c))
}

pub open spec fn view_ids(s: Seq<(Seq<char>, Seq<Seq<char>>)>) -> Seq<Seq<char>> {
    s.map_values(|c: (Seq<char>, Seq<Seq<char>>)| c.0)
}

/// A child a space may bring in: a room ID (`!...`) other than the space's own.
pub open spec fn eligible_child(room_id: Seq<char>, parent: Seq<char>) -> bool {
    room_id != parent && room_id.len() > 0 && room_id[0] == '!'
}

/// The eligible children of a space, each room once (its first listing).
pub open spec fn unique_children(s: Seq<SpaceChildDescriptor>, parent: Seq<char>) -> Seq<
    (Seq<char>, Seq<Seq<char>>),
>
    decreases s.len(),
{
    if s.len() == 0 {
        Seq::empty()
    } else {
        let rest = unique_children(s.drop_last(), parent);
        if eligible_child(s.last().room_id@, parent) && !view_ids(rest).contains(s.last().room_id@) {
            rest.push(child_view(s.last()))
        } else {
            rest
        }
    }
}

/// The children the account is in already, as room IDs, in order.
pub open spec fn joined_part(u: Seq<(Seq<char>, Seq<Seq<char>>)>, joined: Seq<Seq<char>>) -> Seq<
    Seq<char>,
>
    decreases u.len(),
{
    if u.len() == 0 {
        Seq::empty()
    } else {
        let rest = joined_part(u.drop_last(), joined);
        if joined.contains(u.last().0) {
            rest.push(u.last().0)
        } else {
            rest
        }
    }
}

/// The children still to join, in order.
pub open spec fn unjoined_part(u: Seq<(Seq<char>, Seq<Seq<char>>)>, joined: Seq<Seq<char>>) -> Seq<
    (Seq<char>, Seq<Seq<char>>),
>
    decreases u.len(),
{
    if u.len() == 0 {
        Seq::empty()
    } else {
        let rest = unjoined_part(u.drop_last(), joined);
        if joined.contains(u.last().0) {
            rest
        } else {
            rest.push(u.last())
        }
    }
}

/// The links to children that the space no longer lists, in order.
pub open spec fn stale_links(links: Seq<SpaceAutoJoinRecord>, ids: Seq<Seq<char>>) -> Seq<
    SpaceAutoJoinRecord,
>
    decreases links.len(),
{
    if links.len() == 0 {
        links
    } else {
        let rest = stale_links(links.drop_last(), ids);
        if ids.contains(links.last().child_room_id@) {
            rest
        } else {
            rest.push(links.last())
        }
    }
}

/// What reconciling a space with its listed children does.
#[derive(Clone, Debug)]
pub struct SpaceReconcilePlan {
    /// Children the account is in already: linked, not as joined by the bot.
    pub already_joined: Vec<String>,
    /// Children to join; each one joined is linked as joined by the bot.
    pub to_join: Vec<SpaceChildDescriptor>,
    /// Links to children the space no longer lists: deleted, and a room the
    /// bot joined for the space alone is then left.
    pub stale_links: Vec<SpaceAutoJoinRecord>,
}

/// A copy of a child descriptor.
pub fn copy_child(c: &SpaceChildDescriptor) -> (r: SpaceChildDescriptor)
    ensures
        child_view(r) == child_view(*c),
{
    SpaceChildDescriptor { room_id: c.room_id.clone(), via_servers: copy_strings(&c.via_servers) }
}

/// Whether a list of children holds the room `room_id`.
fn has_child(v: &Vec<SpaceChildDescriptor>, room_id: &str) -> (r: bool)
    ensures
        r == view_ids(child_views(v@)).contains(room_id@),
{
    let mut i: usize = 0;
    while i < v.len()
        invariant
            i <= v@.len(),
            forall|j: int| 0 <= j < i ==> v@[j].room_id@ != room_id@,
        decreases v@.len() - i,
    {
        if str_eq(v[i].room_id.as_str(), room_id) {
            assert(view_ids(child_views(v@))[i as int] == room_id@);
            return true;
        }
        i = i + 1;
    }
    assert forall|j: int| 0 <= j < view_ids(child_views(v@)).len() implies view_ids(
        child_views(v@),
    )[j] != room_id@ by {
        assert(view_ids(child_views(v@))[j] == v@[j].room_id@);
    }
    false
}

/// Plans how a space's children are brought in line: the eligible children
/// (room IDs other than the space's own, each once) are split into those the
/// account is in already and those to join, and the space's links to rooms
/// it no longer lists are marked stale.
pub fn plan_space_reconcile(
    parent_space_id: &str,
    children: &Vec<SpaceChildDescriptor>,
    existing_links: &Vec<SpaceAutoJoinRecord>,
    joined_room_ids: &Vec<String>,
) -> (r: SpaceReconcilePlan)
    ensures
        string_views(r.already_joined@) == joined_part(
            unique_children(children@, parent_space_id@),
            string_views(joined_room_ids@),
        ),
        child_views(r.to_join@) == unjoined_part(
            unique_children(children@, parent_space_id@),
            string_views(joined_room_ids@),
        ),
        r.stale_links@ == stale_links(
            existing_links@,
            view_ids(unique_children(children@, parent_space_id@)),
        ),
{
    let mut unique: Vec<SpaceChildDescriptor> = Vec::new();
    let mut i: usize = 0;
    while i < children.len()
        invariant
            i <= children@.len(),
            child_views(unique@) == unique_children(children@.take(i as int), parent_space_id@),
        decreases children@.len() - i,
    {
        proof {
            assert(children@.take(i + 1).drop_last() =~= children@.take(i as int));
        }
        let c = &children[i];
        let id = c.room_id.as_str();
        let n = id.unicode_len();
        let eligible = !str_eq(id, parent_space_id) && n > 0 && id.get_char(0) == '!';
        if eligible && !has_child(&unique, id) {
            let ghost before = unique@;
            unique.push(copy_child(c));
            proof {
                assert(child_views(unique@) =~= child_views(before).push(child_view(children@[i as int])));
            }
        }
        i = i + 1;
    }
    proof {
        assert(children@.take(children@.len() as int) =~= children@);
    }
    let ghost u = child_views(unique@);
    let mut already: Vec<String> = Vec::new();
    let mut to_join: Vec<SpaceChildDescriptor> = Vec::new();
    let mut i: usize = 0;
    while i < unique.len()
        invariant
            i <= unique@.len(),
            u == child_views(unique@),
            string_views(already@) == joined_part(u.take(i as int), string_views(joined_room_ids@)),
            child_views(to_join@) == unjoined_part(u.take(i as int), string_views(joined_room_ids@)),
        decreases unique@.len() - i,
    {
        proof {
            assert(u.take(i + 1).drop_last() =~= u.take(i as int));
            assert(u.take(i + 1).last() == child_view(unique@[i as int]));
        }
        if contains_string(joined_room_ids, unique[i].room_id.as_str()) {
            let ghost before = already@;
            already.push(unique[i].room_id.clone());
            proof {
                assert(string_views(already@) =~= string_views(before).push(unique@[i as int].room_id@));
            }
        } else {
            let ghost before = to_join@;
            to_join.push(copy_child(&unique[i]));
            proof {
                assert(child_views(to_join@) =~= child_views(before).push(child_view(unique@[i as int])));
            }
        }
        i = i + 1;
    }
    proof {
        assert(u.take(u.len() as int) =~= u);
    }
    let mut stale: Vec<SpaceAutoJoinRecord> = Vec::new();
    let mut i: usize = 0;
    while i < existing_links.len()
        invariant
            i <= existing_links@.len(),
            u == child_views(unique@),
            u == unique_children(children@, parent_space_id@),
            stale@ == stale_links(existing_links@.take(i as int), view_ids(u)),
        decreases existing_links@.len() - i,
    {
        proof {
            assert(existing_links@.take(i + 1).drop_last() =~= existing_links@.take(i as int));
        }
        if !has_child(&unique, existing_links[i].child_room_id.as_str()) {
            stale.push(copy_link(&existing_links[i]));
        }
        i = i + 1;
    }
    proof {
        assert(existing_links@.take(existing_links@.len() as int) =~= existing_links@);
    }
    SpaceReconcilePlan { already_joined: already, to_join, stale_links: stale }
}

/// The children kept for a space are the eligible listed rooms, each once.
pub proof fn lemma_unique_children(s: Seq<SpaceChildDescriptor>, parent: Seq<char>)
    ensures
        view_ids(unique_children(s, parent)).no_duplicates(),
        forall|k: Seq<char>|
            #[trigger] view_ids(unique_children(s, parent)).contains(k) <==> (eligible_child(k, parent)
                && exists|i: int| 0 <= i < s.len() && (#[trigger] s[i]).room_id@ == k),
    decreases s.len(),
{
    broadcast use vstd::seq_lib::lemma_seq_contains_after_push;

    if s.len() > 0 {
        let t = s.drop_last();
        lemma_unique_children(t, parent);
        let rest = unique_children(t, parent);
        let u = unique_children(s, parent);
        let last = s.last();
        let cond = eligible_child(last.room_id@, parent) && !view_ids(rest).contains(last.room_id@);
        if cond {
            assert(view_ids(u) =~= view_ids(rest).push(last.room_id@));
        } else {
            assert(u == rest);
        }
        assert forall|k: Seq<char>|
            view_ids(u).contains(k) <==> (eligible_child(k, parent) && exists|i: int|
                0 <= i < s.len() && (#[trigger] s[i]).room_id@ == k) by {
            if view_ids(rest).contains(k) {
                assert(exists|i: int| 0 <= i < t.len() && (#[trigger] t[i]).room_id@ == k);
                let i = choose|i: int| 0 <= i < t.len() && (#[trigger] t[i]).room_id@ == k;
                assert(s[i] == t[i]);
            }
            if cond && k == last.room_id@ {
                assert(s[s.len() - 1].room_id@ == k);
            }
            if eligible_child(k, parent) && exists|i: int| 0 <= i < s.len() && (#[trigger] s[i]).room_id@ == k {
                let i = choose|i: int| 0 <= i < s.len() && (#[trigger] s[i]).room_id@ == k;
                if i < t.len() {
                    assert(t[i] == s[i]);
                    assert(view_ids(rest).contains(k));
                }
            }
        }
        assert(view_ids(u).no_duplicates()) by {
            if cond {
                assert forall|a: int, b: int|
                    0 <= a < view_ids(u).len() && 0 <= b < view_ids(u).len() && a != b implies view_ids(u)[a]
                    != view_ids(u)[b] by {
                    if a == view_ids(rest).len() {
                        assert(view_ids(rest)[b] == view_ids(u)[b]);
                    } else if b == view_ids(rest).len() {
                        assert(view_ids(rest)[a] == view_ids(u)[a]);
                    } else {
                        assert(view_ids(rest)[a] == view_ids(u)[a]);
                        assert(view_ids(rest)[b] == view_ids(u)[b]);
                    }
                }
            }
        }
    }
}

/// Each kept child is either joined already or to be joined, never both.
pub proof fn lemma_partition(u: Seq<(Seq<char>, Seq<Seq<char>>)>, joined: Seq<Seq<char>>)
    ensures
        forall|k: Seq<char>|
            #[trigger] view_ids(u).contains(k) <==> (joined_part(u, joined).contains(k) || view_ids(
                unjoined_part(u, joined),
            ).contains(k)),
        forall|k: Seq<char>| #[trigger] joined_part(u, joined).contains(k) ==> joined.contains(k),
        forall|k: Seq<char>|
            #[trigger] view_ids(unjoined_part(u, joined)).contains(k) ==> (!joined.contains(k)
                && view_ids(u).contains(k)),
        view_ids(u).no_duplicates() ==> view_ids(unjoined_part(u, joined)).no_duplicates(),
    decreases u.len(),
{
    broadcast use vstd::seq_lib::lemma_seq_contains_after_push;

    if u.len() > 0 {
        let t = u.drop_last();
        lemma_partition(t, joined);
        let last = u.last();
        assert(view_ids(u) =~= view_ids(t).push(last.0));
        if joined.contains(last.0) {
            assert(joined_part(u, joined) =~= joined_part(t, joined).push(last.0));
            assert(unjoined_part(u, joined) == unjoined_part(t, joined));
        } else {
            assert(joined_part(u, joined) == joined_part(t, joined));
            assert(view_ids(unjoined_part(u, joined)) =~= view_ids(unjoined_part(t, joined)).push(
                last.0,
            ));
        }
        if view_ids(u).no_duplicates() {
            assert(view_ids(t).no_duplicates()) by {
                assert forall|a: int, b: int|
                    0 <= a < view_ids(t).len() && 0 <= b < view_ids(t).len() && a != b implies view_ids(t)[a]
                    != view_ids(t)[b] by {
                    assert(view_ids(t)[a] == view_ids(u)[a]);
                    assert(view_ids(t)[b] == view_ids(u)[b]);
                }
            }
            if !joined.contains(last.0) {
                assert(!view_ids(t).contains(last.0)) by {
                    if view_ids(t).contains(last.0) {
                        let a = choose|a: int| 0 <= a < view_ids(t).len() && view_ids(t)[a] == last.0;
                        assert(view_ids(u)[a] == view_ids(u)[u.len() - 1]);
                    }
                }
                let w = view_ids(unjoined_part(t, joined));
                let w2 = view_ids(unjoined_part(u, joined));
                assert forall|a: int, b: int|
                    0 <= a < w2.len() && 0 <= b < w2.len() && a != b implies w2[a] != w2[b] by {
                    if a == w.len() {
                        assert(w[b] == w2[b]);
                        assert(w.contains(w[b]));
                    } else if b == w.len() {
                        assert(w[a] == w2[a]);
                        assert(w.contains(w[a]));
                    } else {
                        assert(w[a] == w2[a]);
                        assert(w[b] == w2[b]);
                    }
                }
            }
        }
    }
}

/// The links of a space are the stored links of that space.
proof fn lemma_links_of_space(s: Seq<SpaceAutoJoinRecord>, space: Seq<char>)
    ensures
        forall|x: SpaceAutoJoinRecord|
            #[trigger] links_of_space(s, space).contains(x) <==> (s.contains(x) && x.space_room_id@ == space),
        links_unique(s) ==> links_unique(links_of_space(s, space)),
    decreases s.len(),
{
    if s.len() > 0 {
        let t = s.drop_last();
        lemma_links_of_space(t, space);
        let rest = links_of_space(t, space);
        assert forall|x: SpaceAutoJoinRecord| #[trigger] links_of_space(s, space).contains(x) <==> (s.contains(x)
            && x.space_room_id@ == space) by {
            if s.contains(x) && x.space_room_id@ == space {
                let i = choose|i: int| 0 <= i < s.len() && s[i] == x;
                if i < t.len() {
                    assert(t[i] == x);
                    if s.last().space_room_id@ == space {
                        vstd::seq_lib::lemma_seq_contains_after_push(rest, s.last(), x);
                    }
                } else {
                    assert(rest.push(x)[rest.len() as int] == x);
                }
            }
            if links_of_space(s, space).contains(x) {
                if s.last().space_room_id@ == space {
                    let j = choose|j: int| 0 <= j < rest.len() + 1 && rest.push(s.last())[j] == x;
                    if j < rest.len() {
                        assert(rest[j] == x);
                    }
                }
                if rest.contains(x) {
                    let k = choose|k: int| 0 <= k < t.len() && t[k] == x;
                    assert(s[k] == x);
                } else {
                    assert(s[s.len() - 1] == x);
                }
            }
        }
        if links_unique(s) {
            assert(links_unique(t));
            if s.last().space_room_id@ == space {
                let w = rest.push(s.last());
                assert forall|a: int, b: int| 0 <= a < b < w.len() implies !link_for(
                    w[b],
                    w[a].space_room_id@,
                    w[a].child_room_id@,
                ) by {
                    if b == rest.len() {
                        assert(rest.contains(w[a]));
                        let k = choose|k: int| 0 <= k < t.len() && t[k] == w[a];
                        assert(s[k] == w[a]);
                        assert(!link_for(s[s.len() - 1], s[k].space_room_id@, s[k].child_room_id@));
                    }
                }
            }
        }
    }
}

/// Links with distinct space and child pairs hold no record twice.
proof fn lemma_unique_links_no_duplicates(s: Seq<SpaceAutoJoinRecord>)
    requires
        links_unique(s),
    ensures
        s.no_duplicates(),
{
    assert forall|a: int, b: int| 0 <= a < s.len() && 0 <= b < s.len() && a != b implies s[a] != s[b] by {
        if a < b {
            assert(!link_for(s[b], s[a].space_room_id@, s[a].child_room_id@));
        } else {
            assert(!link_for(s[a], s[b].space_room_id@, s[b].child_room_id@));
        }
    }
}

/// Writing the link between a space and a child room twice, where there
/// was none, leaves one link, which the space's listing shows: marked as
/// joined by the bot when either write said so, created at the first write
/// and updated at the second.
pub proof fn law_double_upsert_listing(
    before: Seq<SpaceAutoJoinRecord>,
    mid: Seq<SpaceAutoJoinRecord>,
    after: Seq<SpaceAutoJoinRecord>,
    listed: Seq<SpaceAutoJoinRecord>,
    space: Seq<char>,
    child: Seq<char>,
    first_by_bot: bool,
    second_by_bot: bool,
    first_now: i64,
    second_now: i64,
)
    requires
        links_unique(before),
        !has_link(before, space, child),
        mid.len() == before.len() + 1,
        mid.take(before.len() as int) == before,
        link_for(mid.last(), space, child),
        mid.last().auto_joined_by_bot == first_by_bot,
        mid.last().created_at == first_now,
        forall|i: int|
            0 <= i < mid.len() && #[trigger] link_for(mid[i], space, child) ==> after == mid.update(
                i,
                merged_link(mid[i], second_by_bot, second_now),
            ),
        listed.to_multiset() == links_of_space(after, space).to_multiset(),
    ensures
        exists|j: int|
            0 <= j < listed.len() && link_for(#[trigger] listed[j], space, child) && listed[j].auto_joined_by_bot == (
            first_by_bot || second_by_bot) && listed[j].created_at == first_now && listed[j].updated_at
                == second_now,
        forall|j: int, k: int|
            0 <= j < listed.len() && 0 <= k < listed.len() && #[trigger] listed[j].child_room_id@ == child
                && #[trigger] listed[k].child_room_id@ == child ==> j == k,
{
    broadcast use vstd::seq_lib::to_multiset_contains;

    let n = before.len() as int;
    assert(mid[n] == mid.last());
    assert forall|a: int, b: int| 0 <= a < b < mid.len() implies !link_for(
        mid[b],
        mid[a].space_room_id@,
        mid[a].child_room_id@,
    ) by {
        assert(mid.take(n)[a] == mid[a]);
        if b == n {
            if link_for(mid[b], mid[a].space_room_id@, mid[a].child_room_id@) {
                assert(link_for(before[a], space, child));
            }
        } else {
            assert(mid.take(n)[b] == mid[b]);
        }
    }
    assert(after == mid.update(n, merged_link(mid[n], second_by_bot, second_now)));
    law_upsert_keeps_bot_join_mark(mid, after, n, second_by_bot, second_now);
    let rec = after[n];
    lemma_links_of_space(after, space);
    let l = links_of_space(after, space);
    assert(after.contains(rec));
    assert(l.contains(rec));
    assert(l.to_multiset().count(rec) > 0);
    assert(listed.contains(rec));
    let j0 = choose|j: int| 0 <= j < listed.len() && listed[j] == rec;
    assert(link_for(listed[j0], space, child));
    lemma_unique_links_no_duplicates(l);
    l.lemma_multiset_has_no_duplicates();
    listed.lemma_multiset_has_no_duplicates_conv();
    assert forall|j: int, k: int|
        0 <= j < listed.len() && 0 <= k < listed.len() && #[trigger] listed[j].child_room_id@ == child
            && #[trigger] listed[k].child_room_id@ == child implies j == k by {
        assert(listed.contains(listed[j]) && listed.contains(listed[k]));
        assert(listed.to_multiset().count(listed[j]) > 0);
        assert(listed.to_multiset().count(listed[k]) > 0);
        assert(l.contains(listed[j]) && l.contains(listed[k]));
        let mj = choose|m: int| 0 <= m < after.len() && after[m] == listed[j];
        let mk = choose|m: int| 0 <= m < after.len() && after[m] == listed[k];
        if mj != n {
            if mj < n {
                assert(!link_for(after[n], after[mj].space_room_id@, after[mj].child_room_id@));
            } else {
                assert(!link_for(after[mj], after[n].space_room_id@, after[n].child_room_id@));
            }
        }
        if mk != n {
            if mk < n {
                assert(!link_for(after[n], after[mk].space_room_id@, after[mk].child_room_id@));
            } else {
                assert(!link_for(after[mk], after[n].space_room_id@, after[n].child_room_id@));
            }
        }
        assert(listed[j] == listed[k]);
    }
}

/// The stale links are exactly the links to rooms the space no longer lists.
proof fn lemma_stale_links(links: Seq<SpaceAutoJoinRecord>, ids: Seq<Seq<char>>)
    ensures
        forall|l: SpaceAutoJoinRecord|
            #[trigger] stale_links(links, ids).contains(l) <==> (links.contains(l) && !ids.contains(
                l.child_room_id@,
            )),
    decreases links.len(),
{
    if links.len() > 0 {
        let t = links.drop_last();
        lemma_stale_links(t, ids);
        assert forall|l: SpaceAutoJoinRecord| #[trigger] stale_links(links, ids).contains(l) <==> (links.contains(l)
            && !ids.contains(l.child_room_id@)) by {
            let rest = stale_links(t, ids);
            if links.contains(l) && !ids.contains(l.child_room_id@) {
                let i = choose|i: int| 0 <= i < links.len() && links[i] == l;
                if i < t.len() {
                    assert(t[i] == l);
                    assert(t.contains(l));
                    if !ids.contains(links.last().child_room_id@) {
                        vstd::seq_lib::lemma_seq_contains_after_push(rest, links.last(), l);
                    }
                } else {
                    assert(links.last() == l);
                    assert(rest.push(l)[rest.len() as int] == l);
                }
            }
            if stale_links(links, ids).contains(l) {
                if ids.contains(links.last().child_room_id@) {
                    assert(rest.contains(l));
                } else {
                    let j = choose|j: int| 0 <= j < rest.len() + 1 && rest.push(links.last())[j] == l;
                    if j < rest.len() {
                        assert(rest[j] == l);
                        assert(rest.contains(l));
                    }
                }
                if rest.contains(l) {
                    let k = choose|k: int| 0 <= k < t.len() && t[k] == l;
                    assert(links[k] == l);
                } else {
                    assert(links[links.len() - 1] == l);
                }
            }
        }
    }
}

/// Reconciling a space joins only rooms it lists (room IDs, never the space
/// itself) that the account is not in yet, each of them once, keeps every
/// listed room either joined or planned for joining, and drops exactly the
/// links to rooms the space no longer lists.
pub proof fn law_space_reconcile_plan(
    children: Seq<SpaceChildDescriptor>,
    parent: Seq<char>,
    joined: Seq<Seq<char>>,
    links: Seq<SpaceAutoJoinRecord>,
)
    ensures
        forall|l: SpaceAutoJoinRecord|
            #[trigger] stale_links(links, view_ids(unique_children(children, parent))).contains(l) <==> (
            links.contains(l) && !view_ids(unique_children(children, parent)).contains(l.child_room_id@)),
        view_ids(unjoined_part(unique_children(children, parent), joined)).no_duplicates(),
        forall|k: Seq<char>|
            view_ids(unjoined_part(unique_children(children, parent), joined)).contains(k) ==> {
                &&& eligible_child(k, parent)
                &&& !joined.contains(k)
                &&& exists|i: int| 0 <= i < children.len() && (#[trigger] children[i]).room_id@ == k
            },
        forall|i: int|
            0 <= i < children.len() && eligible_child((#[trigger] children[i]).room_id@, parent)
                ==> (joined_part(unique_children(children, parent), joined).contains(
                children[i].room_id@,
            ) || view_ids(unjoined_part(unique_children(children, parent), joined)).contains(
                children[i].room_id@,
            )),
{
    let u = unique_children(children, parent);
    lemma_unique_children(children, parent);
    lemma_partition(u, joined);
    lemma_stale_links(links, view_ids(u));
    assert forall|k: Seq<char>| view_ids(unjoined_part(u, joined)).contains(k) implies {
        &&& eligible_child(k, parent)
        &&& !joined.contains(k)
        &&& exists|i: int| 0 <= i < children.len() && (#[trigger] children[i]).room_id@ == k
    } by {
        assert(view_ids(u).contains(k));
    }
    assert forall|i: int|
        0 <= i < children.len() && eligible_child((#[trigger] children[i]).room_id@, parent) implies (
        joined_part(u, joined).contains(children[i].room_id@) || view_ids(
            unjoined_part(u, joined),
        ).contains(children[i].room_id@)) by {
        assert(view_ids(u).contains(children[i].room_id@));
    }
}

/// A state event listed with a room in a hierarchy response.
#[derive(Clone, Debug)]
pub struct HierarchyChildEvent {
    pub event_type: Option<String>,
    pub state_key: Option<String>,
    pub via: Option<Vec<String>>,
}

/// A room listed in a hierarchy response.
#[derive(Clone, Debug)]
pub struct HierarchyRoom {
    pub room_id: Option<String>,
    pub room_type: Option<String>,
    pub name: Option<String>,
    pub canonical_alias: Option<String>,
    pub children_state: Vec<HierarchyChildEvent>,
}

/// One page of a hierarchy response.
#[derive(Clone, Debug)]
pub struct HierarchyPage {
    pub rooms: Vec<HierarchyRoom>,
    pub next_batch: Option<String>,
}

pub open spec fn space_child_type() -> Seq<char> {
    "m.space.child"@
}

pub open spec fn space_room_type() -> Seq<char> {
    "m.space"@
}

/// The child room a state event of the root room announces, when it is a
/// space-child event naming a room other than the root.
pub open spec fn event_child(e: HierarchyChildEvent, root: Seq<char>) -> Option<Seq<char>> {
    if e.event_type.deep_view() == Some(space_child_type()) {
        match e.state_key.deep_view() {
            Some(k) => if k != root {
                Some(k)
            } else {
                None
            },
            None => None,
        }
    } else {
        None
    }
}

/// The servers a space-child event names.
pub open spec fn event_via(e: HierarchyChildEvent) -> Set<Seq<char>> {
    match e.via.deep_view() {
        Some(v) => v.to_set(),
        None => Set::empty(),
    }
}

/// The announced children after one more event: a child's servers
/// accumulate over all its events.
pub open spec fn add_event(
    d: Map<Seq<char>, Set<Seq<char>>>,
    e: HierarchyChildEvent,
    root: Seq<char>,
) -> Map<Seq<char>, Set<Seq<char>>> {
    match event_child(e, root) {
        Some(k) => d.insert(
            k,
            (if d.contains_key(k) {
                d[k]
            } else {
                Set::empty()
            }).union(event_via(e)),
        ),
        None => d,
    }
}

pub open spec fn add_events(
    d: Map<Seq<char>, Set<Seq<char>>>,
    es: Seq<HierarchyChildEvent>,
    root: Seq<char>,
) -> Map<Seq<char>, Set<Seq<char>>>
    decreases es.len(),
{
    if es.len() == 0 {
        d
    } else {
        add_event(add_events(d, es.drop_last(), root), es.last(), root)
    }
}

pub open spec fn is_root_room(room: HierarchyRoom, root: Seq<char>) -> bool {
    room.room_id.deep_view() == Some(root)
}

/// The children the root room announces, over a sequence of listed rooms.
pub open spec fn add_rooms_direct(
    d: Map<Seq<char>, Set<Seq<char>>>,
    rooms: Seq<HierarchyRoom>,
    root: Seq<char>,
) -> Map<Seq<char>, Set<Seq<char>>>
    decreases rooms.len(),
{
    if rooms.len() == 0 {
        d
    } else {
        let d1 = add_rooms_direct(d, rooms.drop_last(), root);
        if is_root_room(rooms.last(), root) {
            add_events(d1, rooms.last().children_state@, root)
        } else {
            d1
        }
    }
}

/// The other rooms listed, kept in case the root announces no children.
pub open spec fn add_rooms_fallback(f: Set<Seq<char>>, rooms: Seq<HierarchyRoom>, root: Seq<char>) -> Set<
    Seq<char>,
>
    decreases rooms.len(),
{
    if rooms.len() == 0 {
        f
    } else {
        let f1 = add_rooms_fallback(f, rooms.drop_last(), root);
        match rooms.last().room_id.deep_view() {
            Some(id) => if id != root {
                f1.insert(id)
            } else {
                f1
            },
            None => f1,
        }
    }
}

/// The root room's type (0), name (1) or canonical alias (2).
pub open spec fn room_field(room: HierarchyRoom, which: int) -> Option<Seq<char>> {
    if which == 0 {
        room.room_type.deep_view()
    } else if which == 1 {
        room.name.deep_view()
    } else {
        room.canonical_alias.deep_view()
    }
}

/// A field of the root room: the last value given for it, or the earlier one.
pub open spec fn latest_field(
    prev: Option<Seq<char>>,
    rooms: Seq<HierarchyRoom>,
    root: Seq<char>,
    which: int,
) -> Option<Seq<char>>
    decreases rooms.len(),
{
    if rooms.len() == 0 {
        prev
    } else {
        let p1 = latest_field(prev, rooms.drop_last(), root, which);
        if is_root_room(rooms.last(), root) {
            match room_field(rooms.last(), which) {
                Some(v) => Some(v),
                None => p1,
            }
        } else {
            p1
        }
    }
}

/// The index at which `k` stands in `s`.
pub open spec fn position_of(s: Seq<Seq<char>>, k: Seq<char>) -> int {
    choose|i: int| 0 <= i < s.len() && s[i] == k
}

pub proof fn lemma_position_of(s: Seq<Seq<char>>, i: int)
    requires
        s.no_duplicates(),
        0 <= i < s.len(),
    ensures
        position_of(s, s[i]) == i,
{
    let j = position_of(s, s[i]);
    assert(0 <= j < s.len() && s[j] == s[i]);
}

/// Adds the strings of `src` that `dst` lacks, in order.
fn merge_unique(dst: &mut Vec<String>, src: &Vec<String>)
    requires
        string_views(old(dst)@).no_duplicates(),
    ensures
        string_views(final(dst)@).no_duplicates(),
        string_views(final(dst)@).to_set() == string_views(old(dst)@).to_set().union(
            string_views(src@).to_set(),
        ),
{
    broadcast use vstd::seq_lib::lemma_seq_contains_after_push;

    let ghost start = string_views(dst@);
    let mut i: usize = 0;
    while i < src.len()
        invariant
            i <= src@.len(),
            string_views(dst@).no_duplicates(),
            forall|x: Seq<char>|
                #[trigger] string_views(dst@).contains(x) <==> (start.contains(x) || string_views(
                    src@.take(i as int),
                ).contains(x)),
        decreases src@.len() - i,
    {
        let ghost before = string_views(dst@);
        proof {
            assert(string_views(src@.take(i + 1)) =~= string_views(src@.take(i as int)).push(src@[i as int]@));
        }
        let present = contains_string(dst, src[i].as_str());
        if !present {
            dst.push(src[i].clone());
            proof {
                assert(string_views(dst@) =~= before.push(src@[i as int]@));
                assert forall|a: int, b: int|
                    0 <= a < string_views(dst@).len() && 0 <= b < string_views(dst@).len() && a != b
                        implies string_views(dst@)[a] != string_views(dst@)[b] by {
                    if a == before.len() {
                        assert(before.contains(before[b]));
                    } else if b == before.len() {
                        assert(before.contains(before[a]));
                    }
                }
            }
        }
        proof {
            let now = string_views(dst@);
            let prev = string_views(src@.take(i as int));
            let next = string_views(src@.take(i + 1));
            assert forall|x: Seq<char>| #[trigger] now.contains(x) <==> (start.contains(x) || next.contains(x)) by {
                let xi = src@[i as int]@;
                vstd::seq_lib::lemma_seq_contains_after_push(prev, xi, x);
                vstd::seq_lib::lemma_seq_contains_after_push(before, xi, x);
                assert(next == prev.push(xi));
                assert(next.contains(x) <==> (prev.contains(x) || x == xi));
                if present {
                    assert(now == before);
                    assert(before.contains(xi));
                } else {
                    assert(now == before.push(xi));
                    assert(now.contains(x) <==> (before.contains(x) || x == xi));
                }
                assert(before.contains(x) <==> (start.contains(x) || prev.contains(x)));
            }
        }
        i = i + 1;
    }
    proof {
        assert(src@.take(src@.len() as int) =~= src@);
        assert(string_views(dst@).to_set() =~= start.to_set().union(string_views(src@).to_set()));
    }
}

/// Gathers a room's hierarchy over the pages of the hierarchy endpoint.
pub struct HierarchyCollector {
    root_room_id: String,
    room_type: Option<String>,
    display_name: Option<String>,
    canonical_alias: Option<String>,
    direct_ids: Vec<String>,
    direct_vias: Vec<Vec<String>>,
    fallback: Vec<String>,
}

impl HierarchyCollector {
    pub closed spec fn root(&self) -> Seq<char> {
        self.root_room_id@
    }

    /// The root room's type (0), name (1) or canonical alias (2), as far as
    /// the pages so far give it.
    pub closed spec fn field(&self, which: int) -> Option<Seq<char>> {
        if which == 0 {
            self.room_type.deep_view()
        } else if which == 1 {
            self.display_name.deep_view()
        } else {
            self.canonical_alias.deep_view()
        }
    }

    closed spec fn ids(&self) -> Seq<Seq<char>> {
        string_views(self.direct_ids@)
    }

    closed spec fn vias(&self, i: int) -> Seq<Seq<char>> {
        string_views(self.direct_vias@[i]@)
    }

    /// The children the root announced so far, with their servers.
    pub closed spec fn direct(&self) -> Map<Seq<char>, Set<Seq<char>>> {
        Map::new(
            |k: Seq<char>| self.ids().contains(k),
            |k: Seq<char>| self.vias(position_of(self.ids(), k)).to_set(),
        )
    }

    /// The other rooms listed so far.
    pub closed spec fn fallback(&self) -> Set<Seq<char>> {
        string_views(self.fallback@).to_set()
    }

    pub closed spec fn wf(&self) -> bool {
        &&& self.ids().no_duplicates()
        &&& self.direct_vias@.len() == self.direct_ids@.len()
        &&& forall|i: int| 0 <= i < self.direct_ids@.len() ==> #[trigger] self.vias(i).no_duplicates()
        &&& string_views(self.fallback@).no_duplicates()
        &&& !self.ids().contains(self.root())
        &&& !string_views(self.fallback@).contains(self.root())
    }

    /// A collector for the hierarchy of `root_room_id`, before any page.
    pub fn new(root_room_id: &str) -> (c: Self)
        ensures
            c.wf(),
            c.root() == root_room_id@,
            c.field(0) is None && c.field(1) is None && c.field(2) is None,
            c.direct() == Map::<Seq<char>, Set<Seq<char>>>::empty(),
            c.fallback() == Set::<Seq<char>>::empty(),
    {
        let c = HierarchyCollector {
            root_room_id: root_room_id.to_owned(),
            room_type: None,
            display_name: None,
            canonical_alias: None,
            direct_ids: Vec::new(),
            direct_vias: Vec::new(),
            fallback: Vec::new(),
        };
        proof {
            assert(c.direct() =~= Map::<Seq<char>, Set<Seq<char>>>::empty());
            assert(c.fallback() =~= Set::<Seq<char>>::empty());
        }
        c
    }

    /// Takes one state event of the root room into account.
    fn add_child_event(&mut self, e: &HierarchyChildEvent)
        requires
            old(self).wf(),
        ensures
            final(self).wf(),
            final(self).root() == old(self).root(),
            forall|w: int| #[trigger] final(self).field(w) == old(self).field(w),
            final(self).fallback() == old(self).fallback(),
            final(self).direct() == add_event(old(self).direct(), *e, old(self).root()),
    {
        let is_child_type = match &e.event_type {
            Some(t) => str_eq(t.as_str(), "m.space.child"),
            None => false,
        };
        if !is_child_type {
            proof {
                assert(e.event_type.deep_view() != Some(space_child_type()));
            }
            return;
        }
        let key = match &e.state_key {
            Some(k) => k,
            None => {
                return;
            },
        };
        if str_eq(key.as_str(), self.root_room_id.as_str()) {
            return;
        }
        proof {
            assert(event_child(*e, self.root()) == Some(key@));
        }
        let empty: Vec<String> = Vec::new();
        let src = match &e.via {
            Some(v) => v,
            None => &empty,
        };
        proof {
            match &e.via {
                Some(v) => {
                    assert(v.deep_view() =~= string_views(v@));
                },
                None => {
                    assert(string_views(src@) =~= Seq::<Seq<char>>::empty());
                },
            }
            assert(string_views(src@).to_set() =~= event_via(*e));
        }
        let ghost old_direct = self.direct();
        let ghost old_ids = self.ids();
        let mut p: usize = 0;
        let mut found = false;
        while p < self.direct_ids.len() && !found
            invariant
                p <= self.direct_ids@.len(),
                found ==> p < self.direct_ids@.len() && self.direct_ids@[p as int]@ == key@,
                forall|j: int| 0 <= j < p ==> self.direct_ids@[j]@ != key@,
            decreases self.direct_ids@.len() - p, if found { 0int } else { 1int },
        {
            if str_eq(self.direct_ids[p].as_str(), key.as_str()) {
                found = true;
            } else {
                p = p + 1;
            }
        }
        if found {
            proof {
                assert(old_ids[p as int] == key@);
                lemma_position_of(old_ids, p as int);
            }
            let mut inner = copy_strings(&self.direct_vias[p]);
            let ghost old_inner = string_views(inner@);
            proof {
                assert(self.vias(p as int).no_duplicates());
            }
            merge_unique(&mut inner, src);
            let ghost old_vias = self.direct_vias@;
            let ghost new_inner = string_views(inner@);
            self.direct_vias.set(p, inner);
            proof {
                assert forall|i: int| 0 <= i < self.direct_ids@.len() implies #[trigger] self.vias(
                    i,
                ).no_duplicates() by {
                    if i != p {
                        assert(self.direct_vias@[i] == old_vias[i]);
                        assert(old(self).vias(i).no_duplicates());
                    } else {
                        assert(self.vias(i) == new_inner);
                    }
                }
                assert(old_direct.contains_key(key@));
                assert(old_direct[key@] == old_inner.to_set());
                assert forall|k: Seq<char>| #[trigger] self.direct().contains_key(k) implies self.direct()[k]
                    == add_event(old_direct, *e, self.root())[k] by {
                    let i = position_of(old_ids, k);
                    lemma_position_of(old_ids, i);
                    if i != p {
                        assert(self.direct_vias@[i] == old_vias[i]);
                    }
                }
                assert(self.direct() =~= add_event(old_direct, *e, self.root()));
            }
        } else {
            let mut inner: Vec<String> = Vec::new();
            proof {
                assert(string_views(inner@) =~= Seq::<Seq<char>>::empty());
                assert(!old_ids.contains(key@));
            }
            merge_unique(&mut inner, src);
            let ghost old_vias = self.direct_vias@;
            let ghost new_inner = string_views(inner@);
            self.direct_ids.push(key.clone());
            self.direct_vias.push(inner);
            proof {
                broadcast use vstd::seq_lib::lemma_seq_contains_after_push;

                assert(self.ids() =~= old_ids.push(key@));
                assert(self.ids().no_duplicates()) by {
                    assert forall|a: int, b: int|
                        0 <= a < self.ids().len() && 0 <= b < self.ids().len() && a != b implies self.ids()[a]
                        != self.ids()[b] by {
                        if a == old_ids.len() {
                            assert(old_ids.contains(old_ids[b]));
                        } else if b == old_ids.len() {
                            assert(old_ids.contains(old_ids[a]));
                        }
                    }
                }
                assert forall|i: int| 0 <= i < self.direct_ids@.len() implies #[trigger] self.vias(
                    i,
                ).no_duplicates() by {
                    if i < old_vias.len() {
                        assert(self.direct_vias@[i] == old_vias[i]);
                        assert(old(self).vias(i).no_duplicates());
                    } else {
                        assert(self.vias(i) == new_inner);
                    }
                }
                assert(string_views(inner@).to_set() =~= Set::<Seq<char>>::empty().union(event_via(*e)));
                assert forall|k: Seq<char>| #[trigger] self.direct().contains_key(k) implies self.direct()[k]
                    == add_event(old_direct, *e, self.root())[k] by {
                    if k == key@ {
                        lemma_position_of(self.ids(), old_ids.len() as int);
                    } else {
                        let i = position_of(old_ids, k);
                        lemma_position_of(old_ids, i);
                        assert(self.ids()[i] == k);
                        lemma_position_of(self.ids(), i);
                        assert(self.direct_vias@[i] == old_vias[i]);
                    }
                }
                assert(self.direct() =~= add_event(old_direct, *e, self.root()));
            }
        }
    }
}

/// A field of the root room after one more listed room.
pub open spec fn field_after_room(prev: Option<Seq<char>>, room: HierarchyRoom, root: Seq<char>, which: int) -> Option<
    Seq<char>,
> {
    if is_root_room(room, root) {
        match room_field(room, which) {
            Some(v) => Some(v),
            None => prev,
        }
    } else {
        prev
    }
}

/// The other rooms listed, after one more listed room.
pub open spec fn fallback_after_room(f: Set<Seq<char>>, room: HierarchyRoom, root: Seq<char>) -> Set<Seq<char>> {
    match room.room_id.deep_view() {
        Some(id) => if id != root {
            f.insert(id)
        } else {
            f
        },
        None => f,
    }
}

/// What a finished hierarchy says of a room.
pub open spec fn hierarchy_is_space(room_type: Option<Seq<char>>, direct: Map<Seq<char>, Set<Seq<char>>>) -> bool {
    room_type == Some(space_room_type()) || direct != Map::<Seq<char>, Set<Seq<char>>>::empty()
}

impl HierarchyCollector {
    proof fn lemma_direct_empty(&self)
        requires
            self.wf(),
        ensures
            (self.direct() == Map::<Seq<char>, Set<Seq<char>>>::empty()) == (self.direct_ids@.len()
                == 0),
    {
        if self.direct_ids@.len() == 0 {
            assert(self.direct() =~= Map::<Seq<char>, Set<Seq<char>>>::empty());
        } else {
            assert(self.ids()[0] == self.direct_ids@[0]@);
            assert(self.direct().contains_key(self.ids()[0]));
        }
    }

    /// Takes one listed room into account: the root room gives its fields
    /// and child events, any other room with an ID is remembered, and a room
    /// without an ID is ignored.
    pub fn add_room(&mut self, room: &HierarchyRoom)
        requires
            old(self).wf(),
        ensures
            final(self).wf(),
            final(self).root() == old(self).root(),
            final(self).field(0) == field_after_room(old(self).field(0), *room, old(self).root(), 0),
            final(self).field(1) == field_after_room(old(self).field(1), *room, old(self).root(), 1),
            final(self).field(2) == field_after_room(old(self).field(2), *room, old(self).root(), 2),
            final(self).direct() == if is_root_room(*room, old(self).root()) {
                add_events(old(self).direct(), room.children_state@, old(self).root())
            } else {
                old(self).direct()
            },
            final(self).fallback() == fallback_after_room(old(self).fallback(), *room, old(self).root()),
    {
        let id = match &room.room_id {
            Some(id) => id,
            None => {
                return;
            },
        };
        if str_eq(id.as_str(), self.root_room_id.as_str()) {
            let ghost start = self.direct();
            let mut j: usize = 0;
            while j < room.children_state.len()
                invariant
                    self.wf(),
                    self.root() == old(self).root(),
                    self.field(0) == old(self).field(0),
                    self.field(1) == old(self).field(1),
                    self.field(2) == old(self).field(2),
                    self.fallback() == old(self).fallback(),
                    j <= room.children_state@.len(),
                    self.direct() == add_events(start, room.children_state@.take(j as int), self.root()),
                decreases room.children_state@.len() - j,
            {
                proof {
                    assert(room.children_state@.take(j + 1).drop_last() =~= room.children_state@.take(
                        j as int,
                    ));
                }
                let ghost f0 = self.field(0);
                let ghost f1 = self.field(1);
                let ghost f2 = self.field(2);
                self.add_child_event(&room.children_state[j]);
                proof {
                    assert(self.field(0) == f0);
                    assert(self.field(1) == f1);
                    assert(self.field(2) == f2);
                }
                j = j + 1;
            }
            proof {
                assert(room.children_state@.take(room.children_state@.len() as int)
                    =~= room.children_state@);
            }
            let ghost pre = *self;
            if room.room_type.is_some() {
                self.room_type = copy_opt_string(&room.room_type);
            }
            if room.name.is_some() {
                self.display_name = copy_opt_string(&room.name);
            }
            if room.canonical_alias.is_some() {
                self.canonical_alias = copy_opt_string(&room.canonical_alias);
            }
            proof {
                assert forall|i: int| 0 <= i < self.direct_ids@.len() implies #[trigger] self.vias(
                    i,
                ).no_duplicates() by {
                    assert(self.vias(i) == pre.vias(i));
                }
                assert(self.direct() == pre.direct());
            }
        } else if !contains_string(&self.fallback, id.as_str()) {
            let ghost before = string_views(self.fallback@);
            let ghost pre = *self;
            self.fallback.push(id.clone());
            proof {
                assert forall|i: int| 0 <= i < self.direct_ids@.len() implies #[trigger] self.vias(
                    i,
                ).no_duplicates() by {
                    assert(self.vias(i) == pre.vias(i));
                }
                assert(self.direct() == pre.direct());
                assert(string_views(self.fallback@) =~= before.push(id@));
                vstd::seq_lib::lemma_seq_contains_after_push(before, id@, self.root());
                assert(!string_views(self.fallback@).contains(self.root()));
                broadcast use vstd::seq_lib::lemma_seq_contains_after_push;

                assert(string_views(self.fallback@) =~= before.push(id@));
                assert(string_views(self.fallback@).no_duplicates()) by {
                    let w = string_views(self.fallback@);
                    assert forall|a: int, b: int| 0 <= a < w.len() && 0 <= b < w.len() && a != b implies w[a] != w[b] by {
                        if a == before.len() {
                            assert(before.contains(before[b]));
                        } else if b == before.len() {
                            assert(before.contains(before[a]));
                        }
                    }
                }
                assert(self.fallback() =~= fallback_after_room(old(self).fallback(), *room, self.root()));
            }
        } else {
            proof {
                assert(self.fallback() =~= fallback_after_room(old(self).fallback(), *room, self.root()));
            }
        }
    }

    /// Takes one page of the hierarchy into account, room by room.
    pub fn add_page(&mut self, page: &HierarchyPage)
        requires
            old(self).wf(),
        ensures
            final(self).wf(),
            final(self).root() == old(self).root(),
            final(self).field(0) == latest_field(old(self).field(0), page.rooms@, old(self).root(), 0),
            final(self).field(1) == latest_field(old(self).field(1), page.rooms@, old(self).root(), 1),
            final(self).field(2) == latest_field(old(self).field(2), page.rooms@, old(self).root(), 2),
            final(self).direct() == add_rooms_direct(old(self).direct(), page.rooms@, old(self).root()),
            final(self).fallback() == add_rooms_fallback(old(self).fallback(), page.rooms@, old(self).root()),
    {
        let mut i: usize = 0;
        while i < page.rooms.len()
            invariant
                self.wf(),
                self.root() == old(self).root(),
                i <= page.rooms@.len(),
                self.field(0) == latest_field(old(self).field(0), page.rooms@.take(i as int), self.root(), 0),
                self.field(1) == latest_field(old(self).field(1), page.rooms@.take(i as int), self.root(), 1),
                self.field(2) == latest_field(old(self).field(2), page.rooms@.take(i as int), self.root(), 2),
                self.direct() == add_rooms_direct(old(self).direct(), page.rooms@.take(i as int), self.root()),
                self.fallback() == add_rooms_fallback(old(self).fallback(), page.rooms@.take(i as int), self.root()),
            decreases page.rooms@.len() - i,
        {
            proof {
                assert(page.rooms@.take(i + 1).drop_last() =~= page.rooms@.take(i as int));
                assert(page.rooms@.take(i + 1).last() == page.rooms@[i as int]);
            }
            self.add_room(&page.rooms[i]);
            i = i + 1;
        }
        proof {
            assert(page.rooms@.take(page.rooms@.len() as int) =~= page.rooms@);
        }
    }

    /// The hierarchy gathered: the room is a space when its type says so or
    /// it announces children; its children are the announced ones with their
    /// servers, or, for a space that announces none, the other rooms listed.
    pub fn finish(&self) -> (r: RoomHierarchySnapshot)
        requires
            self.wf(),
        ensures
            r.room_id@ == self.root(),
            r.is_space == hierarchy_is_space(self.field(0), self.direct()),
            r.display_name.deep_view() == self.field(1),
            r.canonical_alias.deep_view() == self.field(2),
            view_ids(child_views(r.children@)).no_duplicates(),
            !view_ids(child_views(r.children@)).contains(self.root()),
            self.direct() != Map::<Seq<char>, Set<Seq<char>>>::empty() ==> {
                &&& forall|k: Seq<char>|
                    #[trigger] view_ids(child_views(r.children@)).contains(k) <==> self.direct().contains_key(k)
                &&& forall|i: int|
                    0 <= i < r.children@.len() ==> {
                        &&& string_views((#[trigger] r.children@[i]).via_servers@).no_duplicates()
                        &&& string_views(r.children@[i].via_servers@).to_set() == self.direct()[r.children@[i].room_id@]
                    }
            },
            self.direct() == Map::<Seq<char>, Set<Seq<char>>>::empty() && r.is_space ==> {
                &&& view_ids(child_views(r.children@)).to_set() == self.fallback()
                &&& forall|i: int| 0 <= i < r.children@.len() ==> (#[trigger] r.children@[i]).via_servers@.len() == 0
            },
            !r.is_space ==> r.children@.len() == 0,
    {
        proof {
            self.lemma_direct_empty();
        }
        let typed_space = match &self.room_type {
            Some(t) => str_eq(t.as_str(), "m.space"),
            None => false,
        };
        let is_space = typed_space || self.direct_ids.len() > 0;
        let mut children: Vec<SpaceChildDescriptor> = Vec::new();
        if self.direct_ids.len() > 0 {
            let mut i: usize = 0;
            while i < self.direct_ids.len()
                invariant
                    self.wf(),
                    i <= self.direct_ids@.len(),
                    children@.len() == i,
                    forall|j: int|
                        0 <= j < i ==> (#[trigger] children@[j]).room_id@ == self.ids()[j] && string_views(
                            children@[j].via_servers@,
                        ) == self.vias(j),
                decreases self.direct_ids@.len() - i,
            {
                let c = SpaceChildDescriptor {
                    room_id: self.direct_ids[i].clone(),
                    via_servers: copy_strings(&self.direct_vias[i]),
                };
                children.push(c);
                i = i + 1;
            }
            proof {
                let cv = view_ids(child_views(children@));
                assert(cv =~= self.ids());
                assert forall|k: Seq<char>| #[trigger] cv.contains(k) <==> self.direct().contains_key(k) by {}
                assert forall|i: int| 0 <= i < children@.len() implies {
                    &&& string_views((#[trigger] children@[i]).via_servers@).no_duplicates()
                    &&& string_views(children@[i].via_servers@).to_set() == self.direct()[children@[i].room_id@]
                } by {
                    lemma_position_of(self.ids(), i);
                    assert(self.vias(i).no_duplicates());
                }
            }
        } else if is_space {
            let mut i: usize = 0;
            while i < self.fallback.len()
                invariant
                    self.wf(),
                    i <= self.fallback@.len(),
                    children@.len() == i,
                    forall|j: int|
                        0 <= j < i ==> (#[trigger] children@[j]).room_id@ == self.fallback@[j]@ && children@[j].via_servers@.len() == 0,
                decreases self.fallback@.len() - i,
            {
                let c = SpaceChildDescriptor { room_id: self.fallback[i].clone(), via_servers: Vec::new() };
                children.push(c);
                i = i + 1;
            }
            proof {
                let cv = view_ids(child_views(children@));
                assert(cv =~= string_views(self.fallback@));
                assert(cv.to_set() =~= self.fallback());
            }
        }
        RoomHierarchySnapshot {
            room_id: self.root_room_id.clone(),
            is_space,
            display_name: copy_opt_string(&self.display_name),
            canonical_alias: copy_opt_string(&self.canonical_alias),
            children,
        }
    }
}

/// The hierarchy endpoints tried for a room, in order, the room ID
/// percent-encoded.
pub open spec fn hierarchy_path(i: int, room_id: Seq<char>) -> Seq<char> {
    if i == 0 {
        "/_matrix/client/v1/rooms/"@ + url_encoded(room_id) + "/hierarchy"@
    } else {
        "/_matrix/client/unstable/org.matrix.msc2946/rooms/"@ + url_encoded(room_id) + "/hierarchy"@
    }
}

pub fn hierarchy_endpoint_paths(room_id: &str) -> (r: Vec<String>)
    ensures
        r@.len() == 2,
        r@[0]@ == hierarchy_path(0, room_id@),
        r@[1]@ == hierarchy_path(1, room_id@),
{
    let encoded = url_encode(room_id);
    let mut stable = String::new();
    push_str(&mut stable, "/_matrix/client/v1/rooms/");
    push_str(&mut stable, encoded.as_str());
    push_str(&mut stable, "/hierarchy");
    let mut unstable = String::new();
    push_str(&mut unstable, "/_matrix/client/unstable/org.matrix.msc2946/rooms/");
    push_str(&mut unstable, encoded.as_str());
    push_str(&mut unstable, "/hierarchy");
    let mut r: Vec<String> = Vec::new();
    r.push(stable);
    r.push(unstable);
    r
}

/// The query of a hierarchy request: one level below the room, up to 200
/// rooms a page, suggested or not, from the page token when there is one.
pub open spec fn hierarchy_query_of(from: Option<Seq<char>>) -> Seq<(Seq<char>, Seq<char>)> {
    let first = seq![("max_depth"@, "1"@), ("limit"@, "200"@), ("suggested_only"@, "false"@)];
    match from {
        Some(t) => first.push(("from"@, t)),
        None => first,
    }
}

pub fn hierarchy_query(from: Option<&str>) -> (r: Vec<(String, String)>)
    ensures
        pair_views(r@) == hierarchy_query_of(from.deep_view()),
{
    let mut r: Vec<(String, String)> = Vec::new();
    r.push(("max_depth".to_owned(), "1".to_owned()));
    r.push(("limit".to_owned(), "200".to_owned()));
    r.push(("suggested_only".to_owned(), "false".to_owned()));
    if let Some(t) = from {
        r.push(("from".to_owned(), t.to_owned()));
    }
    proof {
        reveal_strlit("max_depth");
        reveal_strlit("1");
        reveal_strlit("limit");
        reveal_strlit("200");
        reveal_strlit("suggested_only");
        reveal_strlit("false");
        reveal_strlit("from");
        assert(pair_views(r@) =~= hierarchy_query_of(from.deep_view()));
    }
    r
}

/// The URL of a hierarchy request: `endpoint` resolved against the
/// homeserver URL, with the hierarchy query appended.
pub open spec fn hierarchy_request_url_of(homeserver: Seq<char>, endpoint: Seq<char>, from: Option<Seq<char>>) -> Option<
    Seq<char>,
> {
    match url_join_of(homeserver, endpoint) {
        Some((joined, _)) => url_with_query_of(joined, hierarchy_query_of(from)),
        None => None,
    }
}

/// Builds the URL of a hierarchy request; `None` when the homeserver URL or
/// the endpoint does not make a URL.
pub fn hierarchy_request_url(homeserver: &str, endpoint: &str, from: Option<&str>) -> (r: Option<String>)
    ensures
        match r {
            None => hierarchy_request_url_of(homeserver@, endpoint@, from.deep_view()) is None,
            Some(u) => hierarchy_request_url_of(homeserver@, endpoint@, from.deep_view()) == Some(u@),
        },
{
    let (joined, _) = join_url(homeserver, endpoint)?;
    let query = hierarchy_query(from);
    url_with_query(joined.as_str(), &query)
}

/// What a hierarchy response's HTTP status leads to.
#[derive(Clone, Copy, Debug, PartialEq, Eq, Structural)]
pub enum HierarchyStatusAction {
    /// The endpoint is missing here: try the next one.
    TryNextEndpoint,
    /// The request failed.
    Fail,
    /// The page can be read.
    Accept,
}

pub fn hierarchy_status_action(status: u16) -> (r: HierarchyStatusAction)
    ensures
        (status == 404 || status == 405) ==> r == HierarchyStatusAction::TryNextEndpoint,
        (200 <= status <= 299) ==> r == HierarchyStatusAction::Accept,
        !(status == 404 || status == 405 || (200 <= status <= 299)) ==> r == HierarchyStatusAction::Fail,
{
    if status == 404 || status == 405 {
        HierarchyStatusAction::TryNextEndpoint
    } else if 200 <= status && status <= 299 {
        HierarchyStatusAction::Accept
    } else {
        HierarchyStatusAction::Fail
    }
}

/// The child rooms of links the bot joined itself, in order.
pub open spec fn bot_joined_children(links: Seq<SpaceAutoJoinRecord>) -> Seq<Seq<char>>
    decreases links.len(),
{
    if links.len() == 0 {
        Seq::empty()
    } else {
        let rest = bot_joined_children(links.drop_last());
        if links.last().auto_joined_by_bot {
            rest.push(links.last().child_room_id@)
        } else {
            rest
        }
    }
}

/// When a space stops being tracked, its links go, and the rooms the bot
/// joined for it are checked for being left.
pub fn rooms_to_check_after_unlinking(links: &Vec<SpaceAutoJoinRecord>) -> (r: Vec<String>)
    ensures
        string_views(r@) == bot_joined_children(links@),
{
    let mut r: Vec<String> = Vec::new();
    let mut i: usize = 0;
    while i < links.len()
        invariant
            i <= links@.len(),
            string_views(r@) == bot_joined_children(links@.take(i as int)),
        decreases links@.len() - i,
    {
        proof {
            assert(links@.take(i + 1).drop_last() =~= links@.take(i as int));
        }
        if links[i].auto_joined_by_bot {
            let ghost before = r@;
            r.push(links[i].child_room_id.clone());
            proof {
                assert(string_views(r@) =~= string_views(before).push(links@[i as int].child_room_id@));
            }
        }
        i = i + 1;
    }
    proof {
        assert(links@.take(links@.len() as int) =~= links@);
    }
    r
}

/// The links written once the joins a plan asked for were tried: each child
/// the account was in already, not as joined by the bot; then each child
/// joined now, as joined by the bot.
pub open spec fn reconcile_link_writes(
    already_joined: Seq<Seq<char>>,
    to_join: Seq<SpaceChildDescriptor>,
    joined_now: Seq<bool>,
) -> Seq<(Seq<char>, bool)> {
    already_joined.map_values(|c: Seq<char>| (c, false)) + links_for_joins(to_join, joined_now)
}

/// The children joined now, each linked as joined by the bot.
pub open spec fn links_for_joins(to_join: Seq<SpaceChildDescriptor>, joined_now: Seq<bool>) -> Seq<
    (Seq<char>, bool),
>
    decreases to_join.len(),
{
    if to_join.len() == 0 {
        Seq::empty()
    } else {
        let rest = links_for_joins(to_join.drop_last(), joined_now);
        if joined_now[to_join.len() - 1] {
            rest.push((to_join.last().room_id@, true))
        } else {
            rest
        }
    }
}

pub open spec fn link_write_views(v: Seq<(String, bool)>) -> Seq<(Seq<char>, bool)> {
    v.map_values(|p: (String, bool)| (p.0@, p.1))
}

/// What reconciling a space writes once its joins were tried.
#[derive(Clone, Debug)]
pub struct ReconcileWrites {
    /// Links of the space to write: the child room, and whether the bot
    /// joined it.
    pub link_writes: Vec<(String, bool)>,
    /// Links of the space to delete: those to children it no longer lists.
    pub link_deletions: Vec<SpaceAutoJoinRecord>,
    /// Rooms to leave if no other space links them and the account is in
    /// them: the children of deleted links that the bot joined.
    pub orphan_checks: Vec<String>,
}

/// The writes of a reconcile, given for each child of `plan.to_join`
/// whether joining it succeeded; a failed join writes nothing.
pub fn reconcile_writes(plan: &SpaceReconcilePlan, joined_now: &Vec<bool>) -> (r: ReconcileWrites)
    requires
        joined_now@.len() == plan.to_join@.len(),
    ensures
        link_write_views(r.link_writes@) == reconcile_link_writes(
            string_views(plan.already_joined@),
            plan.to_join@,
            joined_now@,
        ),
        r.link_deletions@ == plan.stale_links@,
        string_views(r.orphan_checks@) == bot_joined_children(plan.stale_links@),
{
    let mut writes: Vec<(String, bool)> = Vec::new();
    let mut i: usize = 0;
    while i < plan.already_joined.len()
        invariant
            i <= plan.already_joined@.len(),
            writes@.len() == i,
            forall|j: int| 0 <= j < i ==> (#[trigger] writes@[j]).0@ == plan.already_joined@[j]@ && !writes@[j].1,
        decreases plan.already_joined@.len() - i,
    {
        writes.push((plan.already_joined[i].clone(), false));
        i = i + 1;
    }
    proof {
        assert(link_write_views(writes@) =~= string_views(plan.already_joined@).map_values(
            |c: Seq<char>| (c, false),
        ));
    }
    let ghost kept = link_write_views(writes@);
    let mut k: usize = 0;
    while k < plan.to_join.len()
        invariant
            k <= plan.to_join@.len(),
            joined_now@.len() == plan.to_join@.len(),
            link_write_views(writes@) == kept + links_for_joins(plan.to_join@.take(k as int), joined_now@),
        decreases plan.to_join@.len() - k,
    {
        proof {
            let t = plan.to_join@.take(k + 1);
            assert(t.drop_last() =~= plan.to_join@.take(k as int));
            assert(t.last() == plan.to_join@[k as int]);
        }
        if joined_now[k] {
            let ghost before = writes@;
            writes.push((plan.to_join[k].room_id.clone(), true));
            proof {
                assert(link_write_views(writes@) =~= link_write_views(before).push(
                    (plan.to_join@[k as int].room_id@, true),
                ));
            }
        }
        k = k + 1;
    }
    proof {
        assert(plan.to_join@.take(plan.to_join@.len() as int) =~= plan.to_join@);
    }
    let mut deletions: Vec<SpaceAutoJoinRecord> = Vec::new();
    let mut d: usize = 0;
    while d < plan.stale_links.len()
        invariant
            d <= plan.stale_links@.len(),
            deletions@ == plan.stale_links@.take(d as int),
        decreases plan.stale_links@.len() - d,
    {
        deletions.push(copy_link(&plan.stale_links[d]));
        d = d + 1;
        proof {
            assert(deletions@ =~= plan.stale_links@.take(d as int));
        }
    }
    proof {
        assert(plan.stale_links@.take(plan.stale_links@.len() as int) =~= plan.stale_links@);
    }
    let orphan_checks = rooms_to_check_after_unlinking(&plan.stale_links);
    ReconcileWrites { link_writes: writes, link_deletions: deletions, orphan_checks }
}

/// Whether reconciling a space changed the rooms the account is in: some
/// join succeeded, or some orphaned room was left.
pub fn reconcile_changed(joined_now: &Vec<bool>, left_orphans: &Vec<bool>) -> (r: bool)
    ensures
        r == (joined_now@.contains(true) || left_orphans@.contains(true)),
{
    let mut i: usize = 0;
    while i < joined_now.len()
        invariant
            i <= joined_now@.len(),
            forall|j: int| 0 <= j < i ==> !joined_now@[j],
        decreases joined_now@.len() - i,
    {
        if joined_now[i] {
            assert(joined_now@[i as int] == true);
            return true;
        }
        i = i + 1;
    }
    let mut k: usize = 0;
    while k < left_orphans.len()
        invariant
            k <= left_orphans@.len(),
            forall|j: int| 0 <= j < joined_now@.len() ==> !joined_now@[j],
            forall|j: int| 0 <= j < k ==> !left_orphans@[j],
        decreases left_orphans@.len() - k,
    {
        if left_orphans[k] {
            assert(left_orphans@[k as int] == true);
            return true;
        }
        k = k + 1;
    }
    false
}

/// A room joined for a space is left once no space links to it any more and
/// the account is still in it.
pub fn should_leave_orphaned_room(remaining_links: usize, still_joined: bool) -> (r: bool)
    ensures
        r == (remaining_links == 0 && still_joined),
{
    remaining_links == 0 && still_joined
}

impl SpaceLinkStore {
    /// Every link, to be kept on disk.
    pub fn all_links(&self) -> (r: Vec<SpaceAutoJoinRecord>)
        ensures
            r@ == self.links(),
    {
        let mut r: Vec<SpaceAutoJoinRecord> = Vec::new();
        let mut i: usize = 0;
        while i < self.links.len()
            invariant
                i <= self.links@.len(),
                r@ == self.links@.take(i as int),
            decreases self.links@.len() - i,
        {
            r.push(copy_link(&self.links[i]));
            i = i + 1;
            proof {
                assert(r@ =~= self.links@.take(i as int));
            }
        }
        proof {
            assert(self.links@.take(self.links@.len() as int) =~= self.links@);
        }
        r
    }

    /// Links read back from disk; refused when two link the same pair.
    pub fn restore(links: Vec<SpaceAutoJoinRecord>) -> (r: Option<Self>)
        ensures
            r is Some <==> links_unique(links@),
            r matches Some(s) ==> s.links() == links@,
    {
        let mut k: usize = 0;
        while k < links.len()
            invariant
                k <= links@.len(),
                forall|a: int, b: int|
                    0 <= a < b < k ==> !link_for(links@[b], links@[a].space_room_id@, links@[a].child_room_id@),
            decreases links@.len() - k,
        {
            let mut a: usize = 0;
            while a < k
                invariant
                    a <= k < links@.len(),
                    forall|x: int| 0 <= x < a ==> !link_for(links@[k as int], links@[x].space_room_id@, links@[x].child_room_id@),
                decreases k - a,
            {
                if str_eq(links[k].space_room_id.as_str(), links[a].space_room_id.as_str()) && str_eq(
                    links[k].child_room_id.as_str(),
                    links[a].child_room_id.as_str(),
                ) {
                    proof {
                        assert(link_for(links@[k as int], links@[a as int].space_room_id@, links@[a as int].child_room_id@));
                    }
                    return None;
                }
                a = a + 1;
            }
            k = k + 1;
        }
        Some(SpaceLinkStore { links })
    }
}

/// The log line for a child room a space joined, or failed to join with
/// the error `error`.
pub open spec fn space_join_log_text(child: Seq<char>, parent: Seq<char>, error: Option<Seq<char>>) -> (
    AppLogLevel,
    Seq<char>,
) {
    match error {
        None => (AppLogLevel::Info, "Joined "@ + child + " from space "@ + parent),
        Some(e) => (AppLogLevel::Warning, "Failed joining "@ + child + " from space "@ + parent + ": "@ + e),
    }
}

pub fn space_join_log(child: &str, parent: &str, error: Option<&str>) -> (r: (AppLogLevel, String))
    ensures
        r.0 == space_join_log_text(child@, parent@, error.deep_view()).0,
        r.1@ == space_join_log_text(child@, parent@, error.deep_view()).1,
{
    let mut text = String::new();
    match error {
        None => {
            push_str(&mut text, "Joined ");
            push_str(&mut text, child);
            push_str(&mut text, " from space ");
            push_str(&mut text, parent);
            (AppLogLevel::Info, text)
        },
        Some(e) => {
            push_str(&mut text, "Failed joining ");
            push_str(&mut text, child);
            push_str(&mut text, " from space ");
            push_str(&mut text, parent);
            push_str(&mut text, ": ");
            push_str(&mut text, e);
            (AppLogLevel::Warning, text)
        },
    }
}

/// The log line for a room left once no space linked it any more.
pub fn orphan_left_log(room_id: &str, parent: &str) -> (r: String)
    ensures
        r@ == "Left "@ + room_id@ + " after it was removed from space "@ + parent@,
{
    let mut text = String::new();
    push_str(&mut text, "Left ");
    push_str(&mut text, room_id);
    push_str(&mut text, " after it was removed from space ");
    push_str(&mut text, parent);
    text
}

} // verus!
