//! Character-level text helpers: conversion between `str`/`String` and
//! character vectors, whitespace trimming, prefix tests and line splitting.
use vstd::prelude::*;

verus! {

/// The characters of `s`, in order.
pub fn to_chars(s: &str) -> (res: Vec<char>)
    ensures
        res@ == s@,
{
    let mut res: Vec<char> = Vec::new();
    for c in it: s.chars()
        invariant
            res@ == it.seq().take(it.index() as int),
            it.seq() == s@,
    {
        res.push(c);
    }
    res
}

/// `String::push`: appends the character `c` at the end of `s`.
#[verifier::external_body]
pub(crate) fn push_char(s: &mut String, c: char)
    ensures
        final(s)@ == old(s)@.push(c),
{
    s.push(c);
}

/// Appends every character of `cs` to `out`.
pub fn append_chars(out: &mut String, cs: &[char])
    ensures
        final(out)@ == old(out)@ + cs@,
{
    let mut i: usize = 0;
    while i < cs.len()
        invariant
            i <= cs.len(),
            out@ == old(out)@ + cs@.take(i as int),
        decreases cs.len() - i,
    {
        push_char(out, cs[i]);
        i = i + 1;
        assert(cs@.take(i as int) == cs@.take((i - 1) as int).push(cs@[i - 1]));
    }
    assert(cs@.take(cs.len() as int) == cs@);
}

/// A `String` holding exactly the characters `cs`.
pub fn string_of(cs: &[char]) -> (res: String)
    ensures
        res@ == cs@,
{
    let mut res = String::new();
    append_chars(&mut res, cs);
    res
}

/// The Unicode `White_Space` property, the set of characters that
/// `char::is_whitespace` accepts.
pub open spec fn is_ws(c: char) -> bool {
    ||| '\u{9}' <= c && c <= '\u{d}'
    ||| c == ' '
    ||| c == '\u{85}'
    ||| c == '\u{a0}'
    ||| c == '\u{1680}'
    ||| '\u{2000}' <= c && c <= '\u{200a}'
    ||| c == '\u{2028}'
    ||| c == '\u{2029}'
    ||| c == '\u{202f}'
    ||| c == '\u{205f}'
    ||| c == '\u{3000}'
}

pub fn is_ws_char(c: char) -> (b: bool)
    ensures
        b == is_ws(c),
{
    ('\u{9}' <= c && c <= '\u{d}') || c == ' ' || c == '\u{85}' || c == '\u{a0}' || c
        == '\u{1680}' || ('\u{2000}' <= c && c <= '\u{200a}') || c == '\u{2028}' || c
        == '\u{2029}' || c == '\u{202f}' || c == '\u{205f}' || c == '\u{3000}'
}

/// Every character of `s` is whitespace (so `s.trim()` is empty).
pub open spec fn is_blank(s: Seq<char>) -> bool {
    forall|i: int| 0 <= i < s.len() ==> is_ws(#[trigger] s[i])
}

/// Number of leading whitespace characters.
pub open spec fn lead_ws(s: Seq<char>) -> nat
    decreases s.len(),
{
    if s.len() > 0 && is_ws(s[0]) {
        1 + lead_ws(s.drop_first())
    } else {
        0
    }
}

/// Number of trailing whitespace characters.
pub open spec fn trail_ws(s: Seq<char>) -> nat
    decreases s.len(),
{
    if s.len() > 0 && is_ws(s.last()) {
        1 + trail_ws(s.drop_last())
    } else {
        0
    }
}

/// `str::trim_start`.
pub open spec fn trim_start(s: Seq<char>) -> Seq<char> {
    s.skip(lead_ws(s) as int)
}

/// `str::trim_end`.
pub open spec fn trim_end(s: Seq<char>) -> Seq<char> {
    s.take(s.len() - trail_ws(s))
}

/// `str::trim`: whitespace removed from both ends.
pub open spec fn trim(s: Seq<char>) -> Seq<char> {
    trim_end(trim_start(s))
}

pub proof fn lemma_lead_ws(s: Seq<char>)
    ensures
        lead_ws(s) <= s.len(),
        forall|i: int| 0 <= i < lead_ws(s) ==> is_ws(#[trigger] s[i]),
        lead_ws(s) < s.len() ==> !is_ws(s[lead_ws(s) as int]),
    decreases s.len(),
{
    if s.len() > 0 && is_ws(s[0]) {
        lemma_lead_ws(s.drop_first());
        assert forall|i: int| 0 <= i < lead_ws(s) implies is_ws(#[trigger] s[i]) by {
            if i > 0 {
                assert(s[i] == s.drop_first()[i - 1]);
            }
        }
    }
}

pub proof fn lemma_trail_ws(s: Seq<char>)
    ensures
        trail_ws(s) <= s.len(),
        forall|i: int| s.len() - trail_ws(s) <= i < s.len() ==> is_ws(#[trigger] s[i]),
        trail_ws(s) < s.len() ==> !is_ws(s[s.len() - trail_ws(s) - 1]),
    decreases s.len(),
{
    if s.len() > 0 && is_ws(s.last()) {
        lemma_trail_ws(s.drop_last());
        assert forall|i: int| s.len() - trail_ws(s) <= i < s.len() implies is_ws(
            #[trigger] s[i],
        ) by {
            if i < s.len() - 1 {
                assert(s[i] == s.drop_last()[i]);
            }
        }
    }
}

/// `trim(s)` is the piece of `s` left when only whitespace is cut from its
/// two ends: what is cut is blank, and the piece neither starts nor ends
/// with whitespace.
pub proof fn lemma_trim_piece(s: Seq<char>)
    ensures
        ({
            let i = lead_ws(s) as int;
            let j = s.len() - trail_ws(trim_start(s));
            &&& 0 <= i <= j <= s.len()
            &&& trim(s) == s.subrange(i, j)
            &&& is_blank(s.take(i))
            &&& is_blank(s.skip(j))
            &&& i < j ==> !is_ws(s[i]) && !is_ws(s[j - 1])
        }),
{
    lemma_lead_ws(s);
    let i = lead_ws(s) as int;
    let t = trim_start(s);
    lemma_trail_ws(t);
    let j = s.len() - trail_ws(t);
    assert(trim(s) =~= s.subrange(i, j));
    assert forall|k: int| 0 <= k < s.take(i).len() implies is_ws(#[trigger] s.take(i)[k]) by {}
    assert forall|k: int| 0 <= k < s.skip(j).len() implies is_ws(#[trigger] s.skip(j)[k]) by {
        assert(s.skip(j)[k] == t[j - i + k]);
    }
    if i < j {
        assert(s[j - 1] == t[t.len() - trail_ws(t) - 1]);
    }
}

/// Any `n` characters of `s` that are all whitespace and followed by a
/// non-whitespace character (or the end) are its leading whitespace.
pub proof fn lemma_lead_ws_unique(s: Seq<char>, n: int)
    requires
        0 <= n <= s.len(),
        forall|i: int| 0 <= i < n ==> is_ws(#[trigger] s[i]),
        n < s.len() ==> !is_ws(s[n]),
    ensures
        lead_ws(s) == n,
    decreases s.len(),
{
    if n > 0 {
        assert(is_ws(s[0]));
        assert forall|i: int| 0 <= i < n - 1 implies is_ws(#[trigger] s.drop_first()[i]) by {
            assert(s.drop_first()[i] == s[i + 1]);
        }
        if n - 1 < s.len() - 1 {
            assert(s.drop_first()[n - 1] == s[n]);
        }
        lemma_lead_ws_unique(s.drop_first(), n - 1);
    }
}

pub proof fn lemma_trail_ws_unique(s: Seq<char>, n: int)
    requires
        0 <= n <= s.len(),
        forall|i: int| s.len() - n <= i < s.len() ==> is_ws(#[trigger] s[i]),
        n < s.len() ==> !is_ws(s[s.len() - n - 1]),
    ensures
        trail_ws(s) == n,
    decreases s.len(),
{
    if n > 0 {
        assert(is_ws(s[s.len() - 1]));
        assert forall|i: int| s.len() - 1 - (n - 1) <= i < s.len() - 1 implies is_ws(
            #[trigger] s.drop_last()[i],
        ) by {
            assert(s.drop_last()[i] == s[i]);
        }
        if n - 1 < s.len() - 1 {
            assert(s.drop_last()[s.len() - 1 - (n - 1) - 1] == s[s.len() - n - 1]);
        }
        lemma_trail_ws_unique(s.drop_last(), n - 1);
    }
}

/// The bounds `(start, end)` of `trim(cs)` inside `cs`.
pub fn trim_bounds(cs: &[char]) -> (res: (usize, usize))
    ensures
        res.0 <= res.1 <= cs.len(),
        cs@.subrange(res.0 as int, res.1 as int) == trim(cs@),
        res.0 == lead_ws(cs@),
{
    let mut start: usize = 0;
    while start < cs.len() && is_ws_char(cs[start])
        invariant
            start <= cs.len(),
            forall|i: int| 0 <= i < start ==> is_ws(#[trigger] cs@[i]),
        decreases cs.len() - start,
    {
        start = start + 1;
    }
    proof {
        lemma_lead_ws_unique(cs@, start as int);
    }
    let ghost t = cs@.skip(start as int);
    let mut end: usize = cs.len();
    while end > start && is_ws_char(cs[end - 1])
        invariant
            start <= end <= cs.len(),
            t == cs@.skip(start as int),
            forall|i: int| end <= i < cs.len() ==> is_ws(#[trigger] cs@[i]),
        decreases end,
    {
        end = end - 1;
    }
    proof {
        let n = cs.len() - end;
        assert forall|i: int| t.len() - n <= i < t.len() implies is_ws(#[trigger] t[i]) by {
            assert(t[i] == cs@[i + start]);
        }
        if n < t.len() {
            assert(t[t.len() - n - 1] == cs@[end - 1]);
        }
        lemma_trail_ws_unique(t, n);
        assert(cs@.subrange(start as int, end as int) == t.take(t.len() - n));
    }
    (start, end)
}

/// `s` begins with `p`.
pub open spec fn starts_with(s: Seq<char>, p: Seq<char>) -> bool {
    p.len() <= s.len() && s.take(p.len() as int) == p
}

pub fn has_prefix(s: &[char], p: &str) -> (b: bool)
    ensures
        b == starts_with(s@, p@),
{
    let pc = to_chars(p);
    if pc.len() > s.len() {
        return false;
    }
    let mut i: usize = 0;
    while i < pc.len()
        invariant
            pc@ == p@,
            pc.len() <= s.len(),
            i <= pc.len(),
            forall|j: int| 0 <= j < i ==> s@[j] == pc@[j],
        decreases pc.len() - i,
    {
        if s[i] != pc[i] {
            assert(s@.take(pc.len() as int)[i as int] != p@[i as int]);
            return false;
        }
        i = i + 1;
    }
    assert(s@.take(pc.len() as int) == p@);
    true
}

/// A line with one trailing carriage return removed.
pub open spec fn strip_cr(l: Seq<char>) -> Seq<char> {
    if l.len() > 0 && l.last() == '\r' {
        l.drop_last()
    } else {
        l
    }
}

/// The lines of `s` from position `start` on, as `str::lines` yields them:
/// split at `'\n'`, a `'\r'` right before the `'\n'` dropped, and no empty
/// line after a final `'\n'`.
pub open spec fn lines_from(s: Seq<char>, start: int) -> Seq<Seq<char>>
    decreases s.len() - start,
{
    if start < 0 || start >= s.len() {
        Seq::empty()
    } else {
        let e = next_char(s, '\n', start);
        proof {
            lemma_next_char(s, '\n', start);
        }
        if e < s.len() {
            seq![strip_cr(s.subrange(start, e))] + lines_from(s, e + 1)
        } else {
            seq![s.subrange(start, e)]
        }
    }
}

/// `str::lines`.
pub open spec fn split_lines(s: Seq<char>) -> Seq<Seq<char>> {
    lines_from(s, 0)
}

/// The chars `cs[start..end]` with one trailing `'\r'` dropped when `crlf`.
fn line_chars(cs: &[char], start: usize, end: usize, crlf: bool) -> (res: Vec<char>)
    requires
        start <= end <= cs.len(),
    ensures
        crlf ==> res@ == strip_cr(cs@.subrange(start as int, end as int)),
        !crlf ==> res@ == cs@.subrange(start as int, end as int),
{
    let mut stop = end;
    if crlf && end > start && cs[end - 1] == '\r' {
        stop = end - 1;
    }
    let mut res: Vec<char> = Vec::new();
    let mut i = start;
    while i < stop
        invariant
            start <= i <= stop <= end <= cs.len(),
            res@ == cs@.subrange(start as int, i as int),
        decreases stop - i,
    {
        res.push(cs[i]);
        i = i + 1;
    }
    res
}

/// The lines of `cs`, as `str::lines` splits them.
pub fn lines_of(cs: &[char]) -> (res: Vec<Vec<char>>)
    ensures
        res@.map_values(|l: Vec<char>| l@) == split_lines(cs@),
{
    let mut res: Vec<Vec<char>> = Vec::new();
    let mut start: usize = 0;
    while start < cs.len()
        invariant
            start <= cs.len(),
            res@.map_values(|l: Vec<char>| l@) + lines_from(cs@, start as int) == split_lines(
                cs@,
            ),
        decreases cs.len() - start,
    {
        let mut e = start;
        while e < cs.len() && cs[e] != '\n'
            invariant
                start <= e <= cs.len(),
                forall|j: int| start <= j < e ==> cs@[j] != '\n',
            decreases cs.len() - e,
        {
            e = e + 1;
        }
        proof {
            lemma_next_char_unique(cs@, '\n', start as int, e as int);
        }
        let ghost before = res@.map_values(|l: Vec<char>| l@);
        if e < cs.len() {
            let l = line_chars(cs, start, e, true);
            res.push(l);
            assert(res@.map_values(|l: Vec<char>| l@) == before.push(l@));
            assert(lines_from(cs@, start as int) == seq![l@] + lines_from(cs@, e + 1));
            assert(before + (seq![l@] + lines_from(cs@, e + 1)) == before.push(l@) + lines_from(
                cs@,
                e + 1,
            ));
            start = e + 1;
        } else {
            let l = line_chars(cs, start, e, false);
            res.push(l);
            assert(res@.map_values(|l: Vec<char>| l@) == before.push(l@));
            assert(lines_from(cs@, start as int) == seq![l@]);
            assert(lines_from(cs@, e as int) == Seq::<Seq<char>>::empty());
            start = e;
        }
    }
    assert(lines_from(cs@, start as int) == Seq::<Seq<char>>::empty());
    res
}

/// Whether `a` and `b` hold the same characters.
pub fn chars_eq(a: &[char], b: &[char]) -> (res: bool)
    ensures
        res == (a@ == b@),
{
    if a.len() != b.len() {
        return false;
    }
    let mut i: usize = 0;
    while i < a.len()
        invariant
            a.len() == b.len(),
            i <= a.len(),
            forall|j: int| 0 <= j < i ==> a@[j] == b@[j],
        decreases a.len() - i,
    {
        if a[i] != b[i] {
            return false;
        }
        i = i + 1;
    }
    assert(a@ == b@);
    true
}

/// Index of the first `a` directly followed by `b`, at or after `start`,
/// or `s.len()` when there is none.
pub open spec fn find_pair_from(s: Seq<char>, a: char, b: char, start: int) -> int
    decreases s.len() - start,
{
    if start < 0 || start + 1 >= s.len() {
        s.len() as int
    } else if s[start] == a && s[start + 1] == b {
        start
    } else {
        find_pair_from(s, a, b, start + 1)
    }
}

pub proof fn lemma_find_pair(s: Seq<char>, a: char, b: char, start: int)
    requires
        0 <= start,
    ensures
        find_pair_from(s, a, b, start) == s.len() || (start <= find_pair_from(s, a, b, start)
            && find_pair_from(s, a, b, start) + 2 <= s.len()),
        find_pair_from(s, a, b, start) < s.len() ==> s[find_pair_from(s, a, b, start)] == a
            && s[find_pair_from(s, a, b, start) + 1] == b,
    decreases s.len() - start,
{
    if start + 1 < s.len() && !(s[start] == a && s[start + 1] == b) {
        lemma_find_pair(s, a, b, start + 1);
    }
}

/// Position of the first `a` followed by `b` in `cs`, or `cs.len()`.
pub fn find_pair(cs: &[char], a: char, b: char) -> (res: usize)
    ensures
        res == find_pair_from(cs@, a, b, 0),
{
    let mut i: usize = 0;
    while cs.len() - i >= 2 && !(cs[i] == a && cs[i + 1] == b)
        invariant
            i <= cs.len(),
            find_pair_from(cs@, a, b, i as int) == find_pair_from(cs@, a, b, 0),
        decreases cs.len() - i,
    {
        i = i + 1;
    }
    if cs.len() - i >= 2 {
        i
    } else {
        cs.len()
    }
}

/// Index of the first `c` at or after `start`, or `s.len()`.
pub open spec fn next_char(s: Seq<char>, c: char, start: int) -> int
    decreases s.len() - start,
{
    if start < 0 || start >= s.len() {
        s.len() as int
    } else if s[start] == c {
        start
    } else {
        next_char(s, c, start + 1)
    }
}

pub proof fn lemma_next_char(s: Seq<char>, c: char, start: int)
    requires
        0 <= start,
    ensures
        next_char(s, c, start) == s.len() || start <= next_char(s, c, start) < s.len(),
        next_char(s, c, start) <= s.len(),
        next_char(s, c, start) < s.len() ==> s[next_char(s, c, start)] == c,
        forall|j: int| start <= j < next_char(s, c, start) ==> s[j] != c,
    decreases s.len() - start,
{
    if start < s.len() && s[start] != c {
        lemma_next_char(s, c, start + 1);
    }
}

pub proof fn lemma_next_char_unique(s: Seq<char>, c: char, start: int, e: int)
    requires
        0 <= start <= e <= s.len(),
        e < s.len() ==> s[e] == c,
        forall|j: int| start <= j < e ==> s[j] != c,
    ensures
        next_char(s, c, start) == e,
    decreases e - start,
{
    if start < e {
        lemma_next_char_unique(s, c, start + 1, e);
    }
}

/// The lines, each followed by a newline, in order.
pub open spec fn with_newlines(ls: Seq<Seq<char>>) -> Seq<char>
    decreases ls.len(),
{
    if ls.len() == 0 {
        Seq::empty()
    } else {
        ls[0] + seq!['\n'] + with_newlines(ls.drop_first())
    }
}

proof fn lemma_lines_from_rejoin(s: Seq<char>, start: int)
    requires
        0 <= start <= s.len(),
        !s.contains('\r'),
    ensures
        with_newlines(lines_from(s, start)) == if start >= s.len() {
            Seq::<char>::empty()
        } else if s.last() == '\n' {
            s.skip(start)
        } else {
            s.skip(start).push('\n')
        },
    decreases s.len() - start,
{
    if start < s.len() {
        let e = next_char(s, '\n', start);
        lemma_next_char(s, '\n', start);
        let piece = s.subrange(start, e);
        if e < s.len() {
            assert(!(piece.len() > 0 && piece.last() == '\r')) by {
                if piece.len() > 0 && piece.last() == '\r' {
                    assert(s[e - 1] == '\r');
                }
            }
            assert(strip_cr(piece) == piece);
            lemma_lines_from_rejoin(s, e + 1);
            let ls = lines_from(s, start);
            assert(ls == seq![piece] + lines_from(s, e + 1));
            assert(ls.drop_first() =~= lines_from(s, e + 1));
            assert(ls[0] == piece);
            assert(with_newlines(ls) == piece + seq!['\n'] + with_newlines(lines_from(s, e + 1)));
            if e + 1 >= s.len() {
                assert(with_newlines(lines_from(s, e + 1)) == Seq::<char>::empty());
                assert(s.last() == '\n');
                assert(s.skip(start) =~= piece + seq!['\n']);
            } else if s.last() == '\n' {
                assert(s.skip(start) =~= piece + seq!['\n'] + s.skip(e + 1));
            } else {
                assert(s.skip(start).push('\n') =~= piece + seq!['\n'] + s.skip(e + 1).push('\n'));
            }
        } else {
            assert(s[s.len() - 1] != '\n');
            let ls = lines_from(s, start);
            assert(ls == seq![piece]);
            assert(ls.drop_first() =~= Seq::<Seq<char>>::empty());
            assert(with_newlines(ls) == piece + seq!['\n'] + with_newlines(
                Seq::<Seq<char>>::empty(),
            ));
            assert(s.skip(start).push('\n') =~= piece + seq!['\n']);
        }
    }
}

/// Splitting into lines loses nothing: for text without carriage returns,
/// the lines, each followed by a newline, give back the text (with a
/// newline added at the end when it had none).
pub proof fn lemma_lines_rejoin(s: Seq<char>)
    requires
        !s.contains('\r'),
    ensures
        with_newlines(split_lines(s)) == if s.len() == 0 || s.last() == '\n' {
            s
        } else {
            s.push('\n')
        },
{
    lemma_lines_from_rejoin(s, 0);
    assert(s.skip(0) == s);
}

} // verus!
