//! Chat commands that the owner sends to the backend.

use vstd::prelude::*;
use crate::text::{
    ascii_lower_seq, chars_of, is_prefix, is_whitespace, is_ws, lead_count, lemma_lead_count_bound,
    lemma_lead_step, push_char, starts_with, trim, trim_seq,
    ws_pred,
};

verus! {

/// The prefix that marks a chat message as a command.
pub open spec fn command_prefix() -> Seq<char> {
    "!matrixdl "@
}

pub open spec fn not_ws_pred() -> spec_fn(char) -> bool {
    |c: char| !is_ws(c)
}

/// The whitespace-separated words of `s` (what `str::split_whitespace` yields).
pub open spec fn words(s: Seq<char>) -> Seq<Seq<char>>
    decreases s.len(),
{
    let a = lead_count(s, ws_pred());
    let t = s.subrange(a as int, s.len() as int);
    let k = lead_count(t, not_ws_pred());
    if a >= s.len() || k == 0 {
        Seq::empty()
    } else {
        proof {
            lemma_lead_count_bound(s, ws_pred());
            lemma_lead_count_bound(t, not_ws_pred());
        }
        seq![t.subrange(0, k as int)] + words(t.subrange(k as int, t.len() as int))
    }
}

/// Words joined by single spaces.
pub open spec fn join_words(w: Seq<Seq<char>>) -> Seq<char>
    decreases w.len(),
{
    if w.len() == 0 {
        Seq::empty()
    } else if w.len() == 1 {
        w[0]
    } else {
        join_words(w.drop_last()) + seq![' '] + w.last()
    }
}

/// The room a `!matrixdl join <room>` message asks the backend to join: the
/// words after `join` (in any letter case), joined by single spaces.
pub open spec fn join_command_target(body: Seq<char>) -> Option<Seq<char>> {
    let t = trim_seq(body);
    let w = words(t);
    if !is_prefix(command_prefix(), t) || w.len() <= 2 || ascii_lower_seq(w[1]) != "join"@ {
        None
    } else {
        Some(join_words(w.subrange(2, w.len() as int)))
    }
}

/// Appends the words of `v[start..]` to `out`.
fn collect_words(v: &Vec<char>, start: usize, out: &mut Vec<Vec<char>>)
    requires
        start <= v@.len(),
    ensures
        final(out)@.map_values(|w: Vec<char>| w@) == old(out)@.map_values(|w: Vec<char>| w@)
            + words(v@.subrange(start as int, v@.len() as int)),
    decreases v@.len() - start,
{
    let n = v.len();
    let ghost s = v@.subrange(start as int, n as int);
    let mut i: usize = start;
    assert(s.subrange(0, s.len() as int) =~= s);
    while i < n && is_whitespace(v[i])
        invariant
            n == v@.len(),
            start <= i <= n,
            s == v@.subrange(start as int, n as int),
            lead_count(s, ws_pred()) == (i - start) + lead_count(
                v@.subrange(i as int, n as int),
                ws_pred(),
            ),
        decreases n - i,
    {
        proof {
            lemma_lead_step(v@, i as int, ws_pred());
        }
        i = i + 1;
    }
    proof {
        if i < n {
            assert(v@.subrange(i as int, n as int)[0] == v@[i as int]);
        }
        assert(lead_count(s, ws_pred()) == i - start);
        assert(s.subrange(i - start, s.len() as int) =~= v@.subrange(i as int, n as int));
    }
    let ghost t = v@.subrange(i as int, n as int);
    let mut j: usize = i;
    assert(t.subrange(0, t.len() as int) =~= t);
    while j < n && !is_whitespace(v[j])
        invariant
            n == v@.len(),
            i <= j <= n,
            t == v@.subrange(i as int, n as int),
            lead_count(t, not_ws_pred()) == (j - i) + lead_count(
                v@.subrange(j as int, n as int),
                not_ws_pred(),
            ),
        decreases n - j,
    {
        proof {
            lemma_lead_step(v@, j as int, not_ws_pred());
        }
        j = j + 1;
    }
    proof {
        if j < n {
            assert(v@.subrange(j as int, n as int)[0] == v@[j as int]);
        }
        assert(lead_count(t, not_ws_pred()) == j - i);
    }
    if i >= n || j == i {
        proof {
            assert(words(s) =~= Seq::<Seq<char>>::empty());
            assert(out@.map_values(|w: Vec<char>| w@) =~= old(out)@.map_values(|w: Vec<char>| w@)
                + words(s));
        }
        return;
    }
    let mut word: Vec<char> = Vec::new();
    let mut k: usize = i;
    while k < j
        invariant
            i <= k <= j <= n,
            n == v@.len(),
            word@ == v@.subrange(i as int, k as int),
        decreases j - k,
    {
        word.push(v[k]);
        k = k + 1;
        assert(word@ =~= v@.subrange(i as int, k as int));
    }
    let ghost before = out@;
    out.push(word);
    proof {
        assert(t.subrange(0, (j - i) as int) =~= v@.subrange(i as int, j as int));
        assert(t.subrange((j - i) as int, t.len() as int) =~= v@.subrange(j as int, n as int));
        assert(out@.map_values(|w: Vec<char>| w@) =~= before.map_values(|w: Vec<char>| w@).push(
            v@.subrange(i as int, j as int),
        ));
    }
    collect_words(v, j, out);
    proof {
        assert(words(s) == seq![v@.subrange(i as int, j as int)] + words(
            v@.subrange(j as int, n as int),
        ));
        assert(out@.map_values(|w: Vec<char>| w@) =~= old(out)@.map_values(|w: Vec<char>| w@)
            + words(s));
    }
}

fn lower_chars(w: &Vec<char>) -> (r: Vec<char>)
    ensures
        r@ == ascii_lower_seq(w@),
{
    let mut r: Vec<char> = Vec::new();
    let mut i: usize = 0;
    while i < w.len()
        invariant
            i <= w@.len(),
            r@ == ascii_lower_seq(w@).subrange(0, i as int),
        decreases w@.len() - i,
    {
        r.push(crate::text::ascii_lowercase_char(w[i]));
        i = i + 1;
        assert(r@ =~= ascii_lower_seq(w@).subrange(0, i as int));
    }
    assert(r@ =~= ascii_lower_seq(w@));
    r
}

fn chars_eq(a: &Vec<char>, b: &Vec<char>) -> (r: bool)
    ensures
        r == (a@ == b@),
{
    if a.len() != b.len() {
        return false;
    }
    let r = crate::text::seq_starts_with(a, b);
    assert(a@.subrange(0, a@.len() as int) =~= a@);
    r
}

proof fn lemma_join_words_push(x: Seq<Seq<char>>, w: Seq<char>)
    ensures
        join_words(x.push(w)) == if x.len() == 0 {
            w
        } else {
            join_words(x) + seq![' '] + w
        },
{
    assert(x.push(w).drop_last() =~= x);
}

/// The room that an owner's `!matrixdl join <room>` message names, if the
/// message is such a command.
pub fn parse_join_command(body: &str) -> (r: Option<String>)
    ensures
        match r {
            None => join_command_target(body@) is None,
            Some(t) => join_command_target(body@) == Some(t@),
        },
{
    let t = trim(body);
    if !starts_with(t.as_str(), "!matrixdl ") {
        return None;
    }
    let v = chars_of(t.as_str());
    let mut ws: Vec<Vec<char>> = Vec::new();
    collect_words(&v, 0, &mut ws);
    let ghost views = ws@.map_values(|w: Vec<char>| w@);
    proof {
        assert(v@.subrange(0, v@.len() as int) =~= t@);
        assert(ws@.map_values(|w: Vec<char>| w@) =~= Seq::<Seq<char>>::empty() + words(t@));
        assert(views == words(t@));
    }
    if ws.len() <= 2 {
        return None;
    }
    let lowered = lower_chars(&ws[1]);
    let join = chars_of("join");
    proof {
        assert(views[1] == ws@[1]@);
    }
    if !chars_eq(&lowered, &join) {
        return None;
    }
    let mut target = String::new();
    let mut k: usize = 2;
    while k < ws.len()
        invariant
            views == ws@.map_values(|w: Vec<char>| w@),
            2 <= k <= ws@.len(),
            target@ == join_words(views.subrange(2, k as int)),
        decreases ws@.len() - k,
    {
        proof {
            assert(views.subrange(2, k + 1) =~= views.subrange(2, k as int).push(views[k as int]));
            lemma_join_words_push(views.subrange(2, k as int), views[k as int]);
            assert(views[k as int] == ws@[k as int]@);
        }
        if k > 2 {
            push_char(&mut target, ' ');
        }
        let word = &ws[k];
        let mut q: usize = 0;
        let ghost base = target@;
        while q < word.len()
            invariant
                q <= word@.len(),
                target@ == base + word@.subrange(0, q as int),
            decreases word@.len() - q,
        {
            push_char(&mut target, word[q]);
            q = q + 1;
            assert(target@ =~= base + word@.subrange(0, q as int));
        }
        proof {
            assert(word@.subrange(0, word@.len() as int) =~= word@);
            if k == 2 {
                assert(target@ =~= views[k as int]);
            } else {
                assert(target@ =~= join_words(views.subrange(2, k as int)) + seq![' '] + views[k as int]);
            }
        }
        k = k + 1;
    }
    proof {
        reveal_strlit("join");
        assert(ascii_lower_seq("join"@) =~= "join"@);
    }
    Some(target)
}

/// Whether the backend answers a command by direct message: only when it runs
/// on an account other than the owner's.
pub fn replies_to_owner(client_user_id: Option<&str>, owner_user_id: &str) -> (r: bool)
    ensures
        r == !(client_user_id matches Some(u) && u@ == owner_user_id@),
{
    match client_user_id {
        Some(u) => u.to_owned() != owner_user_id.to_owned(),
        None => true,
    }
}

} // verus!
