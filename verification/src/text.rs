//! Character-level text rules shared by the rest of the library.

use vstd::prelude::*;

verus! {

/// Unicode `White_Space`, the set that `char::is_whitespace` documents.
pub open spec fn is_ws(c: char) -> bool {
    ||| ('\u{9}' <= c && c <= '\u{D}')
    ||| c == ' '
    ||| c == '\u{85}'
    ||| c == '\u{A0}'
    ||| c == '\u{1680}'
    ||| ('\u{2000}' <= c && c <= '\u{200A}')
    ||| c == '\u{2028}'
    ||| c == '\u{2029}'
    ||| c == '\u{202F}'
    ||| c == '\u{205F}'
    ||| c == '\u{3000}'
}

pub fn is_whitespace(c: char) -> (b: bool)
    ensures
        b == is_ws(c),
{
    ('\u{9}' <= c && c <= '\u{D}') || c == ' ' || c == '\u{85}' || c == '\u{A0}' || c == '\u{1680}'
        || ('\u{2000}' <= c && c <= '\u{200A}') || c == '\u{2028}' || c == '\u{2029}' || c
        == '\u{202F}' || c == '\u{205F}' || c == '\u{3000}'
}

/// Appends one character to a string (`String::push`).
#[verifier::external_body]
pub(crate) fn push_char(s: &mut String, c: char)
    ensures
        final(s)@ == old(s)@.push(c),
{
    s.push(c);
}

/// Appends `t` to `s`.
pub fn push_str(s: &mut String, t: &str)
    ensures
        final(s)@ == old(s)@ + t@,
{
    s.append(t);
}

/// Whether two strings hold the same characters.
pub fn str_eq(a: &str, b: &str) -> (r: bool)
    ensures
        r == (a@ == b@),
{
    a.to_owned() == b.to_owned()
}

/// `p` is a prefix of `s`.
pub open spec fn is_prefix(p: Seq<char>, s: Seq<char>) -> bool {
    p.len() <= s.len() && s.subrange(0, p.len() as int) == p
}

/// Whether the characters `p` start the characters `s`.
pub fn seq_starts_with(s: &Vec<char>, p: &Vec<char>) -> (r: bool)
    ensures
        r == is_prefix(p@, s@),
{
    if p.len() > s.len() {
        return false;
    }
    let mut i: usize = 0;
    while i < p.len()
        invariant
            p@.len() <= s@.len(),
            i <= p@.len(),
            forall|j: int| 0 <= j < i ==> s@[j] == p@[j],
        decreases p@.len() - i,
    {
        if s[i] != p[i] {
            assert(s@.subrange(0, p@.len() as int)[i as int] != p@[i as int]);
            return false;
        }
        i = i + 1;
    }
    assert(s@.subrange(0, p@.len() as int) =~= p@);
    true
}

/// Whether `s` starts with `p` (`str::starts_with`).
pub fn starts_with(s: &str, p: &str) -> (r: bool)
    ensures
        r == is_prefix(p@, s@),
{
    let vs = chars_of(s);
    let vp = chars_of(p);
    seq_starts_with(&vs, &vp)
}

/// The characters of `s` from position `k` on.
pub fn chars_from(s: &str, k: usize) -> (r: String)
    requires
        k <= s@.len(),
    ensures
        r@ == s@.subrange(k as int, s@.len() as int),
{
    let n = s.unicode_len();
    s.substring_char(k, n).to_owned()
}

/// The characters of `s`, in order.
pub fn chars_of(s: &str) -> (v: Vec<char>)
    ensures
        v@ == s@,
{
    let n = s.unicode_len();
    let mut v: Vec<char> = Vec::new();
    let mut i: usize = 0;
    while i < n
        invariant
            n == s@.len(),
            i <= n,
            v@ == s@.subrange(0, i as int),
        decreases n - i,
    {
        let c = s.get_char(i);
        v.push(c);
        i = i + 1;
        assert(v@ =~= s@.subrange(0, i as int));
    }
    assert(v@ =~= s@);
    v
}

/// Number of leading characters of `s` that satisfy `p`.
pub open spec fn lead_count(s: Seq<char>, p: spec_fn(char) -> bool) -> nat
    decreases s.len(),
{
    if s.len() > 0 && p(s[0]) {
        1 + lead_count(s.drop_first(), p)
    } else {
        0
    }
}

/// Number of trailing characters of `s` that satisfy `p`.
pub open spec fn trail_count(s: Seq<char>, p: spec_fn(char) -> bool) -> nat
    decreases s.len(),
{
    if s.len() > 0 && p(s.last()) {
        1 + trail_count(s.drop_last(), p)
    } else {
        0
    }
}

pub proof fn lemma_lead_count_bound(s: Seq<char>, p: spec_fn(char) -> bool)
    ensures
        lead_count(s, p) <= s.len(),
        forall|i: int| 0 <= i < lead_count(s, p) ==> p(#[trigger] s[i]),
        lead_count(s, p) < s.len() ==> !p(s[lead_count(s, p) as int]),
    decreases s.len(),
{
    if s.len() > 0 && p(s[0]) {
        lemma_lead_count_bound(s.drop_first(), p);
        assert forall|i: int| 0 <= i < lead_count(s, p) implies p(#[trigger] s[i]) by {
            if i > 0 {
                assert(s[i] == s.drop_first()[i - 1]);
            }
        }
    }
}

pub proof fn lemma_trail_count_bound(s: Seq<char>, p: spec_fn(char) -> bool)
    ensures
        trail_count(s, p) <= s.len(),
        forall|i: int| s.len() - trail_count(s, p) <= i < s.len() ==> p(#[trigger] s[i]),
        trail_count(s, p) < s.len() ==> !p(s[s.len() - trail_count(s, p) - 1]),
    decreases s.len(),
{
    if s.len() > 0 && p(s.last()) {
        lemma_trail_count_bound(s.drop_last(), p);
        assert forall|i: int| s.len() - trail_count(s, p) <= i < s.len() implies p(
            #[trigger] s[i],
        ) by {
            if i < s.len() - 1 {
                assert(s[i] == s.drop_last()[i]);
            }
        }
    }
}

/// `s` without its leading characters that satisfy `p`.
pub open spec fn strip_lead(s: Seq<char>, p: spec_fn(char) -> bool) -> Seq<char> {
    s.subrange(lead_count(s, p) as int, s.len() as int)
}

/// `s` without its trailing characters that satisfy `p`.
pub open spec fn strip_trail(s: Seq<char>, p: spec_fn(char) -> bool) -> Seq<char> {
    s.subrange(0, s.len() - trail_count(s, p))
}

pub open spec fn ws_pred() -> spec_fn(char) -> bool {
    |c: char| is_ws(c)
}

pub open spec fn char_pred(x: char) -> spec_fn(char) -> bool {
    |c: char| c == x
}

/// What `str::trim` gives back: leading and trailing whitespace removed.
pub open spec fn trim_seq(s: Seq<char>) -> Seq<char> {
    strip_trail(strip_lead(s, ws_pred()), ws_pred())
}

/// What `str::trim_start_matches(x)` gives back for a single character `x`.
pub open spec fn trim_start_char_seq(s: Seq<char>, x: char) -> Seq<char> {
    strip_lead(s, char_pred(x))
}

pub proof fn lemma_lead_step(s: Seq<char>, i: int, p: spec_fn(char) -> bool)
    requires
        0 <= i < s.len(),
        p(s[i]),
    ensures
        lead_count(s.subrange(i, s.len() as int), p) == 1 + lead_count(
            s.subrange(i + 1, s.len() as int),
            p,
        ),
{
    assert(s.subrange(i, s.len() as int).drop_first() =~= s.subrange(i + 1, s.len() as int));
}

proof fn lemma_trail_step(s: Seq<char>, j: int, p: spec_fn(char) -> bool)
    requires
        0 < j <= s.len(),
        p(s[j - 1]),
    ensures
        trail_count(s.subrange(0, j), p) == 1 + trail_count(s.subrange(0, j - 1), p),
{
    assert(s.subrange(0, j).drop_last() =~= s.subrange(0, j - 1));
}

/// Number of leading whitespace characters of `v`.
fn lead_ws_len(v: &Vec<char>) -> (k: usize)
    ensures
        k == lead_count(v@, ws_pred()),
{
    let mut i: usize = 0;
    assert(v@.subrange(0, v@.len() as int) =~= v@);
    while i < v.len() && is_whitespace(v[i])
        invariant
            i <= v@.len(),
            lead_count(v@, ws_pred()) == i + lead_count(v@.subrange(i as int, v@.len() as int), ws_pred()),
        decreases v@.len() - i,
    {
        proof {
            lemma_lead_step(v@, i as int, ws_pred());
        }
        i = i + 1;
    }
    proof {
        let rest = v@.subrange(i as int, v@.len() as int);
        if i < v.len() {
            assert(rest[0] == v@[i as int]);
        }
    }
    i
}

/// Number of leading copies of `x` in `v`.
fn lead_char_len(v: &Vec<char>, x: char) -> (k: usize)
    ensures
        k == lead_count(v@, char_pred(x)),
{
    let mut i: usize = 0;
    assert(v@.subrange(0, v@.len() as int) =~= v@);
    while i < v.len() && v[i] == x
        invariant
            i <= v@.len(),
            lead_count(v@, char_pred(x)) == i + lead_count(
                v@.subrange(i as int, v@.len() as int),
                char_pred(x),
            ),
        decreases v@.len() - i,
    {
        proof {
            lemma_lead_step(v@, i as int, char_pred(x));
        }
        i = i + 1;
    }
    proof {
        let rest = v@.subrange(i as int, v@.len() as int);
        if i < v.len() {
            assert(rest[0] == v@[i as int]);
        }
    }
    i
}

/// Number of trailing whitespace characters of `v[..end]`.
fn trail_ws_len(v: &Vec<char>, end: usize) -> (k: usize)
    requires
        end <= v@.len(),
    ensures
        k == trail_count(v@.subrange(0, end as int), ws_pred()),
        k <= end,
{
    let mut j: usize = end;
    while j > 0 && is_whitespace(v[j - 1])
        invariant
            j <= end <= v@.len(),
            trail_count(v@.subrange(0, end as int), ws_pred()) == (end - j) + trail_count(
                v@.subrange(0, j as int),
                ws_pred(),
            ),
        decreases j,
    {
        proof {
            lemma_trail_step(v@, j as int, ws_pred());
        }
        j = j - 1;
    }
    proof {
        let pre = v@.subrange(0, j as int);
        if j > 0 {
            assert(pre.last() == v@[j - 1]);
        }
    }
    end - j
}

/// `s` with leading and trailing whitespace removed (`str::trim`).
pub fn trim(s: &str) -> (r: String)
    ensures
        r@ == trim_seq(s@),
{
    let v = chars_of(s);
    let a = lead_ws_len(&v);
    proof {
        lemma_lead_count_bound(v@, ws_pred());
    }
    let ghost mid = v@.subrange(a as int, v@.len() as int);
    let mut w: Vec<char> = Vec::new();
    let mut i: usize = a;
    while i < v.len()
        invariant
            a <= i <= v@.len(),
            w@ == v@.subrange(a as int, i as int),
        decreases v@.len() - i,
    {
        w.push(v[i]);
        i = i + 1;
        assert(w@ =~= v@.subrange(a as int, i as int));
    }
    assert(w@ =~= mid);
    let t = trail_ws_len(&w, w.len());
    assert(w@.subrange(0, w@.len() as int) =~= w@);
    let mut out = String::new();
    let mut k: usize = 0;
    let keep = w.len() - t;
    while k < keep
        invariant
            keep == w@.len() - t,
            k <= keep,
            out@ == w@.subrange(0, k as int),
        decreases keep - k,
    {
        push_char(&mut out, w[k]);
        k = k + 1;
        assert(out@ =~= w@.subrange(0, k as int));
    }
    out
}

/// `s` with every leading copy of `x` removed (`str::trim_start_matches`).
pub fn trim_start_char(s: &str, x: char) -> (r: String)
    ensures
        r@ == trim_start_char_seq(s@, x),
{
    let v = chars_of(s);
    let a = lead_char_len(&v, x);
    proof {
        lemma_lead_count_bound(v@, char_pred(x));
    }
    let mut out = String::new();
    let mut i: usize = a;
    while i < v.len()
        invariant
            a <= i <= v@.len(),
            out@ == v@.subrange(a as int, i as int),
        decreases v@.len() - i,
    {
        push_char(&mut out, v[i]);
        i = i + 1;
        assert(out@ =~= v@.subrange(a as int, i as int));
    }
    out
}

/// ASCII letters lowered, every other character kept (`char::to_ascii_lowercase`).
pub open spec fn ascii_lower(c: char) -> char {
    if 'A' <= c && c <= 'Z' {
        ((c as u8) + 32u8) as char
    } else {
        c
    }
}

pub open spec fn ascii_lower_seq(s: Seq<char>) -> Seq<char> {
    Seq::new(s.len(), |i: int| ascii_lower(s[i]))
}

pub fn ascii_lowercase_char(c: char) -> (r: char)
    ensures
        r == ascii_lower(c),
{
    if 'A' <= c && c <= 'Z' {
        ((c as u8) + 32u8) as char
    } else {
        c
    }
}

/// `s` with ASCII letters lowered (`str::to_ascii_lowercase`).
pub fn to_ascii_lowercase(s: &str) -> (r: String)
    ensures
        r@ == ascii_lower_seq(s@),
{
    let v = chars_of(s);
    let mut out = String::new();
    let mut i: usize = 0;
    while i < v.len()
        invariant
            v@ == s@,
            i <= v@.len(),
            out@ == ascii_lower_seq(s@).subrange(0, i as int),
        decreases v@.len() - i,
    {
        let c = ascii_lowercase_char(v[i]);
        push_char(&mut out, c);
        i = i + 1;
        assert(out@ =~= ascii_lower_seq(s@).subrange(0, i as int));
    }
    assert(out@ =~= ascii_lower_seq(s@));
    out
}

/// `needle` occurs in `hay` starting at `i`.
pub open spec fn occurs_at(hay: Seq<char>, needle: Seq<char>, i: int) -> bool {
    0 <= i && i + needle.len() <= hay.len() && hay.subrange(i, i + needle.len()) == needle
}

/// `needle` occurs somewhere in `hay` (`str::contains`).
pub open spec fn has_substring(hay: Seq<char>, needle: Seq<char>) -> bool {
    exists|i: int| occurs_at(hay, needle, i)
}

/// Whether `needle` occurs in `hay`.
pub fn contains_text(hay: &str, needle: &str) -> (r: bool)
    ensures
        r == has_substring(hay@, needle@),
{
    let h = chars_of(hay);
    let n = chars_of(needle);
    if n.len() > h.len() {
        assert forall|i: int| !occurs_at(hay@, needle@, i) by {}
        return false;
    }
    let last = h.len() - n.len();
    let mut i: usize = 0;
    loop
        invariant_except_break
            h@ == hay@,
            n@ == needle@,
            last == h@.len() - n@.len(),
            n@.len() <= h@.len(),
            h@.len() <= usize::MAX,
            i <= last,
            forall|k: int| 0 <= k < i ==> !occurs_at(hay@, needle@, k),
        ensures
            forall|k: int| 0 <= k <= last ==> !occurs_at(hay@, needle@, k),
        decreases last - i,
    {
        let mut j: usize = 0;
        let mut same = true;
        while j < n.len()
            invariant
                h@ == hay@,
                n@ == needle@,
                i <= last,
                last == h@.len() - n@.len(),
                n@.len() <= h@.len(),
                h@.len() <= usize::MAX,
                j <= n@.len(),
                same == (forall|q: int| 0 <= q < j ==> h@[i + q] == n@[q]),
            decreases n@.len() - j,
        {
            if h[i + j] != n[j] {
                same = false;
            }
            j = j + 1;
        }
        if same {
            assert(hay@.subrange(i as int, i + needle@.len()) =~= needle@);
            assert(occurs_at(hay@, needle@, i as int));
            return true;
        }
        assert(!occurs_at(hay@, needle@, i as int)) by {
            let q = choose|q: int| 0 <= q < n@.len() && h@[i + q] != n@[q];
            assert(hay@.subrange(i as int, i + needle@.len())[q] != needle@[q]);
        }
        if i == last {
            break;
        }
        i = i + 1;
    }
    assert forall|k: int| !occurs_at(hay@, needle@, k) by {
        if 0 <= k <= last {
        }
    }
    false
}

/// The decimal digit character for `d` (below ten).
pub open spec fn digit_char(d: nat) -> char {
    (48 + d) as char
}

/// The decimal text of `n`, as `Display` writes it.
pub open spec fn decimal_seq(n: nat) -> Seq<char>
    decreases n,
{
    if n < 10 {
        seq![digit_char(n)]
    } else {
        decimal_seq(n / 10).push(digit_char(n % 10))
    }
}

/// The decimal text of a signed number, as `Display` writes it.
pub open spec fn signed_decimal_seq(n: int) -> Seq<char> {
    if n < 0 {
        seq!['-'] + decimal_seq((-n) as nat)
    } else {
        decimal_seq(n as nat)
    }
}

/// Appends the decimal text of `n`.
pub fn push_decimal(s: &mut String, n: u64)
    ensures
        final(s)@ == old(s)@ + decimal_seq(n as nat),
    decreases n,
{
    if n >= 10 {
        push_decimal(s, n / 10);
    }
    let d = (n % 10) as u8;
    push_char(s, (48u8 + d) as char);
    assert(s@ =~= old(s)@ + decimal_seq(n as nat));
}

/// Appends the decimal text of a signed number.
pub fn push_signed_decimal(s: &mut String, n: i64)
    ensures
        final(s)@ == old(s)@ + signed_decimal_seq(n as int),
{
    if n < 0 {
        push_char(s, '-');
        let m: u64 = ((-(n + 1)) as u64) + 1;
        push_decimal(s, m);
        assert(s@ =~= old(s)@ + signed_decimal_seq(n as int));
    } else {
        push_decimal(s, n as u64);
    }
}

pub open spec fn not_char_pred(x: char) -> spec_fn(char) -> bool {
    |c: char| c != x
}

/// The part of `s` before the first `x`, or all of `s` without one
/// (what `s.split(x).next()` yields).
pub open spec fn before_first_seq(s: Seq<char>, x: char) -> Seq<char> {
    s.subrange(0, lead_count(s, not_char_pred(x)) as int)
}

/// Number of leading characters of `v` other than `x`.
fn lead_not_char_len(v: &Vec<char>, x: char) -> (k: usize)
    ensures
        k == lead_count(v@, not_char_pred(x)),
{
    let mut i: usize = 0;
    assert(v@.subrange(0, v@.len() as int) =~= v@);
    while i < v.len() && v[i] != x
        invariant
            i <= v@.len(),
            lead_count(v@, not_char_pred(x)) == i + lead_count(
                v@.subrange(i as int, v@.len() as int),
                not_char_pred(x),
            ),
        decreases v@.len() - i,
    {
        proof {
            lemma_lead_step(v@, i as int, not_char_pred(x));
        }
        i = i + 1;
    }
    proof {
        let rest = v@.subrange(i as int, v@.len() as int);
        if i < v.len() {
            assert(rest[0] == v@[i as int]);
        }
    }
    i
}

/// The part of `s` before the first `x` (all of `s` without one).
pub fn before_first_char(s: &str, x: char) -> (r: String)
    ensures
        r@ == before_first_seq(s@, x),
{
    let v = chars_of(s);
    let k = lead_not_char_len(&v, x);
    proof {
        lemma_lead_count_bound(v@, not_char_pred(x));
    }
    s.substring_char(0, k).to_owned()
}

/// Whether `x` occurs in `s`.
pub fn contains_char(s: &str, x: char) -> (r: bool)
    ensures
        r == s@.contains(x),
{
    let v = chars_of(s);
    let k = lead_not_char_len(&v, x);
    proof {
        lemma_lead_count_bound(v@, not_char_pred(x));
        if k < v@.len() {
            assert(v@[k as int] == x);
        } else {
            assert forall|i: int| 0 <= i < v@.len() implies v@[i] != x by {
                assert(not_char_pred(x)(v@[i]));
            }
        }
    }
    k < v.len()
}

/// `s` split at its first `x`: the part before it and the part after it
/// (what `str::split_once` gives), or `None` when `x` does not occur.
pub open spec fn split_once_seq(s: Seq<char>, x: char) -> Option<(Seq<char>, Seq<char>)> {
    let k = lead_count(s, not_char_pred(x));
    if k < s.len() {
        Some((s.subrange(0, k as int), s.subrange(k + 1int, s.len() as int)))
    } else {
        None
    }
}

/// Splits `s` at its first `x`.
pub fn split_once_char(s: &str, x: char) -> (r: Option<(String, String)>)
    ensures
        match r {
            None => split_once_seq(s@, x) is None,
            Some((a, b)) => split_once_seq(s@, x) == Some((a@, b@)),
        },
{
    let v = chars_of(s);
    let k = lead_not_char_len(&v, x);
    proof {
        lemma_lead_count_bound(v@, not_char_pred(x));
    }
    if k < v.len() {
        let n = s.unicode_len();
        let a = s.substring_char(0, k).to_owned();
        let b = s.substring_char(k + 1, n).to_owned();
        Some((a, b))
    } else {
        None
    }
}

/// `s` without the prefix `p`, when `s` starts with it (`str::strip_prefix`).
pub open spec fn strip_prefix_seq(s: Seq<char>, p: Seq<char>) -> Option<Seq<char>> {
    if is_prefix(p, s) {
        Some(s.subrange(p.len() as int, s.len() as int))
    } else {
        None
    }
}

/// Strips the prefix `p` from `s`.
pub fn strip_prefix(s: &str, p: &str) -> (r: Option<String>)
    ensures
        match r {
            None => strip_prefix_seq(s@, p@) is None,
            Some(t) => strip_prefix_seq(s@, p@) == Some(t@),
        },
{
    if starts_with(s, p) {
        Some(chars_from(s, p.unicode_len()))
    } else {
        None
    }
}

/// `s` with every `a` replaced by `b`.
pub open spec fn replace_char_seq(s: Seq<char>, a: char, b: char) -> Seq<char> {
    Seq::new(s.len(), |i: int| if s[i] == a { b } else { s[i] })
}

/// Replaces every `a` in `s` by `b` (`str::replace` with one-character patterns).
pub fn replace_char(s: &str, a: char, b: char) -> (r: String)
    ensures
        r@ == replace_char_seq(s@, a, b),
{
    let v = chars_of(s);
    let mut out = String::new();
    let mut i: usize = 0;
    while i < v.len()
        invariant
            v@ == s@,
            i <= v@.len(),
            out@ == replace_char_seq(s@, a, b).subrange(0, i as int),
        decreases v@.len() - i,
    {
        if v[i] == a {
            push_char(&mut out, b);
        } else {
            push_char(&mut out, v[i]);
        }
        i = i + 1;
        assert(out@ =~= replace_char_seq(s@, a, b).subrange(0, i as int));
    }
    assert(out@ =~= replace_char_seq(s@, a, b));
    out
}

/// The character views of a list of strings.
pub open spec fn string_views(v: Seq<String>) -> Seq<Seq<char>> {
    v.map_values(|s: String| s@)
}

/// Whether a list of strings holds `s`.
pub fn contains_string(v: &Vec<String>, s: &str) -> (r: bool)
    ensures
        r == string_views(v@).contains(s@),
{
    let mut i: usize = 0;
    while i < v.len()
        invariant
            i <= v@.len(),
            forall|j: int| 0 <= j < i ==> v@[j]@ != s@,
        decreases v@.len() - i,
    {
        if str_eq(v[i].as_str(), s) {
            assert(string_views(v@)[i as int] == s@);
            return true;
        }
        i = i + 1;
    }
    assert forall|j: int| 0 <= j < string_views(v@).len() implies string_views(v@)[j] != s@ by {
        assert(string_views(v@)[j] == v@[j]@);
    }
    false
}

/// A copy of a list of strings.
pub fn copy_strings(v: &Vec<String>) -> (r: Vec<String>)
    ensures
        r@ == v@,
{
    let mut r: Vec<String> = Vec::new();
    let mut i: usize = 0;
    while i < v.len()
        invariant
            i <= v@.len(),
            r@ == v@.take(i as int),
        decreases v@.len() - i,
    {
        r.push(v[i].clone());
        i = i + 1;
        assert(r@ =~= v@.take(i as int));
    }
    assert(v@.take(v@.len() as int) =~= v@);
    r
}

} // verus!
