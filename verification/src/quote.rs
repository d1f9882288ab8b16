//! Shell quoting, shell variable names and the `session-closed` hook text.
use vstd::prelude::*;

use crate::text::{
    is_blank, is_ws, lemma_trim_piece, append_chars, has_prefix, lemma_next_char, lemma_next_char_unique, next_char, push_char,
    starts_with, string_of, to_chars, trim, trim_bounds,
};

verus! {

/// Each character of `s` replaced by `f` of it, the pieces joined in order.
pub open spec fn flat_chars(s: Seq<char>, f: spec_fn(char) -> Seq<char>) -> Seq<char>
    decreases s.len(),
{
    if s.len() == 0 {
        Seq::empty()
    } else {
        flat_chars(s.drop_last(), f) + f(s.last())
    }
}

pub proof fn lemma_flat_chars_append(a: Seq<char>, b: Seq<char>, f: spec_fn(char) -> Seq<char>)
    ensures
        flat_chars(a + b, f) == flat_chars(a, f) + flat_chars(b, f),
    decreases b.len(),
{
    if b.len() == 0 {
        assert(a + b == a);
    } else {
        lemma_flat_chars_append(a, b.drop_last(), f);
        assert((a + b).drop_last() == a + b.drop_last());
    }
}

pub proof fn lemma_flat_chars_push(a: Seq<char>, c: char, f: spec_fn(char) -> Seq<char>)
    ensures
        flat_chars(a.push(c), f) == flat_chars(a, f) + f(c),
{
    assert(a.push(c).drop_last() == a);
}

pub proof fn lemma_flat_chars_cons(c: char, b: Seq<char>, f: spec_fn(char) -> Seq<char>)
    ensures
        flat_chars(seq![c] + b, f) == f(c) + flat_chars(b, f),
{
    lemma_flat_chars_append(seq![c], b, f);
    assert(seq![c].drop_last() == Seq::<char>::empty());
    assert(flat_chars(Seq::<char>::empty(), f) + f(c) == f(c));
}

/// How a character is written inside double quotes: `\`, `"` and the
/// backquote get a backslash in front.
pub open spec fn dq_escape(c: char) -> Seq<char> {
    if c == '\\' || c == '"' || c == '`' {
        seq!['\\', c]
    } else {
        seq![c]
    }
}

/// `s` in double quotes, with `\`, `"` and the backquote escaped; `$` is
/// left as it is, so the shell still expands variables in it.
pub open spec fn expand_quoted(s: Seq<char>) -> Seq<char> {
    seq!['"'] + flat_chars(s, |c: char| dq_escape(c)) + seq!['"']
}

/// How a character is written inside single quotes: a `'` closes the
/// quotes, adds a double-quoted `'` and opens them again.
pub open spec fn sq_escape(c: char) -> Seq<char> {
    if c == '\'' {
        seq!['\'', '"', '\'', '"', '\'']
    } else {
        seq![c]
    }
}

/// `s` in single quotes, so that the shell takes it literally.
pub open spec fn single_quoted(s: Seq<char>) -> Seq<char> {
    seq!['\''] + flat_chars(s, |c: char| sq_escape(c)) + seq!['\'']
}

/// Quotes `s` in double quotes for the shell, keeping `$` expansions.
pub fn sh_expand_quote(s: &str) -> (res: String)
    ensures
        res@ == expand_quoted(s@),
{
    let cs = to_chars(s);
    let mut out = String::new();
    push_char(&mut out, '"');
    let mut i: usize = 0;
    while i < cs.len()
        invariant
            i <= cs.len(),
            cs@ == s@,
            out@ == seq!['"'] + flat_chars(cs@.take(i as int), |c: char| dq_escape(c)),
        decreases cs.len() - i,
    {
        let c = cs[i];
        if c == '\\' || c == '"' || c == '`' {
            push_char(&mut out, '\\');
        }
        push_char(&mut out, c);
        proof {
            assert(cs@.take(i + 1) == cs@.take(i as int).push(c));
            lemma_flat_chars_push(cs@.take(i as int), c, |c: char| dq_escape(c));
        }
        i = i + 1;
    }
    push_char(&mut out, '"');
    assert(cs@.take(cs.len() as int) == cs@);
    out
}

/// Quotes `s` in single quotes for the shell, so that it is taken literally.
pub fn sh_single_quote(s: &str) -> (res: String)
    ensures
        res@ == single_quoted(s@),
{
    let cs = to_chars(s);
    let mut out = String::new();
    push_char(&mut out, '\'');
    let mut i: usize = 0;
    while i < cs.len()
        invariant
            i <= cs.len(),
            cs@ == s@,
            out@ == seq!['\''] + flat_chars(cs@.take(i as int), |c: char| sq_escape(c)),
        decreases cs.len() - i,
    {
        let c = cs[i];
        if c == '\'' {
            push_char(&mut out, '\'');
            push_char(&mut out, '"');
            push_char(&mut out, '\'');
            push_char(&mut out, '"');
            push_char(&mut out, '\'');
        } else {
            push_char(&mut out, c);
        }
        proof {
            assert(cs@.take(i + 1) == cs@.take(i as int).push(c));
            lemma_flat_chars_push(cs@.take(i as int), c, |c: char| sq_escape(c));
        }
        i = i + 1;
    }
    push_char(&mut out, '\'');
    assert(cs@.take(cs.len() as int) == cs@);
    out
}

pub open spec fn is_ascii_lower(c: char) -> bool {
    'a' <= c && c <= 'z'
}

pub open spec fn is_ascii_upper(c: char) -> bool {
    'A' <= c && c <= 'Z'
}

pub open spec fn is_ascii_digit(c: char) -> bool {
    '0' <= c && c <= '9'
}

pub open spec fn is_ascii_alpha(c: char) -> bool {
    is_ascii_lower(c) || is_ascii_upper(c)
}

pub open spec fn is_ascii_alnum(c: char) -> bool {
    is_ascii_alpha(c) || is_ascii_digit(c)
}

/// `char::to_ascii_uppercase`.
pub open spec fn ascii_upper(c: char) -> char {
    if is_ascii_lower(c) {
        ((c as u8) - 32u8) as char
    } else {
        c
    }
}

pub fn is_alnum_char(c: char) -> (b: bool)
    ensures
        b == is_ascii_alnum(c),
{
    ('a' <= c && c <= 'z') || ('A' <= c && c <= 'Z') || ('0' <= c && c <= '9')
}

pub fn is_alpha_char(c: char) -> (b: bool)
    ensures
        b == is_ascii_alpha(c),
{
    ('a' <= c && c <= 'z') || ('A' <= c && c <= 'Z')
}

fn upper_char(c: char) -> (u: char)
    ensures
        u == ascii_upper(c),
{
    if 'a' <= c && c <= 'z' {
        ((c as u8) - 32u8) as char
    } else {
        c
    }
}

/// The character of a variable name that stands for `c`.
pub open spec fn var_char(c: char) -> char {
    if is_ascii_alnum(c) {
        ascii_upper(c)
    } else {
        '_'
    }
}

/// A shell variable name made from `id`: letters upper-cased, digits kept,
/// every other character `_`, and a leading `_` when the result would be
/// empty or start with a digit.
pub open spec fn sanitized(id: Seq<char>) -> Seq<char> {
    let m = id.map_values(|c: char| var_char(c));
    if m.len() == 0 || is_ascii_digit(m[0]) {
        seq!['_'] + m
    } else {
        m
    }
}

/// Turns a task id into the suffix of its shell variable name.
pub fn sanitize_var(id: &str) -> (res: String)
    ensures
        res@ == sanitized(id@),
{
    let cs = to_chars(id);
    let mut m: Vec<char> = Vec::new();
    let mut i: usize = 0;
    while i < cs.len()
        invariant
            i <= cs.len(),
            cs@ == id@,
            m@ == cs@.take(i as int).map_values(|c: char| var_char(c)),
        decreases cs.len() - i,
    {
        let c = cs[i];
        if is_alnum_char(c) {
            m.push(upper_char(c));
        } else {
            m.push('_');
        }
        assert(cs@.take(i + 1).map_values(|c: char| var_char(c)) == cs@.take(
            i as int,
        ).map_values(|c: char| var_char(c)).push(var_char(c)));
        i = i + 1;
    }
    assert(cs@.take(cs.len() as int) == cs@);
    let mut out = String::new();
    if m.len() == 0 || ('0' <= m[0] && m[0] <= '9') {
        push_char(&mut out, '_');
    }
    append_chars(&mut out, m.as_slice());
    out
}

/// The hook text as the cleanup script runs it: trimmed, and when it starts
/// with `run-shell`, the rest trimmed and rid of one pair of matching single
/// or double quotes around it.
pub open spec fn normalized_hook(hook: Seq<char>) -> Seq<char> {
    let t = trim(hook);
    if starts_with(t, "run-shell"@) {
        let r = trim(t.skip(9));
        if r.len() >= 2 && ((r[0] == '\'' && r.last() == '\'') || (r[0] == '"' && r.last()
            == '"')) {
            r.subrange(1, r.len() - 1)
        } else {
            r
        }
    } else {
        t
    }
}

/// Turns a tmux `session-closed` hook command into the shell text to run.
pub fn normalize_session_closed_hook(hook: &str) -> (res: String)
    ensures
        res@ == normalized_hook(hook@),
{
    proof {
        reveal_strlit("run-shell");
    }
    let cs = to_chars(hook);
    let (s, e) = trim_bounds(cs.as_slice());
    let mut t: Vec<char> = Vec::new();
    let mut i = s;
    while i < e
        invariant
            s <= i <= e <= cs.len(),
            t@ == cs@.subrange(s as int, i as int),
        decreases e - i,
    {
        t.push(cs[i]);
        i = i + 1;
    }
    if !has_prefix(t.as_slice(), "run-shell") {
        return string_of(t.as_slice());
    }
    let mut rest: Vec<char> = Vec::new();
    let mut j: usize = 9;
    while j < t.len()
        invariant
            9 <= t.len(),
            9 <= j <= t.len(),
            rest@ == t@.subrange(9, j as int),
        decreases t.len() - j,
    {
        rest.push(t[j]);
        j = j + 1;
    }
    assert(rest@ == t@.skip(9));
    let (rs, re) = trim_bounds(rest.as_slice());
    let n = re - rs;
    if n >= 2 {
        let first = rest[rs];
        let last = rest[re - 1];
        if (first == '\'' && last == '\'') || (first == '"' && last == '"') {
            assert(rest@.subrange(rs + 1, re - 1) == rest@.subrange(rs as int, re as int).subrange(
                1,
                n - 1,
            ));
            return string_of(&rest.as_slice()[rs + 1..re - 1]);
        }
    }
    string_of(&rest.as_slice()[rs..re])
}

/// A word made only of single- and double-quoted parts, read as a POSIX
/// shell reads it: `Some` of its value, or `None` when the quotes do not
/// close, something stands outside them, or a `$` or backquote in double
/// quotes would expand. `in_dq` tells whether reading starts inside double
/// quotes.
pub open spec fn shell_value(s: Seq<char>, in_dq: bool) -> Option<Seq<char>>
    decreases s.len(),
{
    if s.len() == 0 {
        if in_dq {
            None
        } else {
            Some(Seq::empty())
        }
    } else if !in_dq {
        if s[0] == '\'' {
            let j = next_char(s, '\'', 1);
            proof {
                lemma_next_char(s, '\'', 1);
            }
            if j >= s.len() {
                None
            } else {
                prepend(s.subrange(1, j), shell_value(s.skip(j + 1), false))
            }
        } else if s[0] == '"' {
            shell_value(s.drop_first(), true)
        } else {
            None
        }
    } else {
        if s[0] == '"' {
            shell_value(s.drop_first(), false)
        } else if s[0] == '\\' && s.len() >= 2 && s[1] == '\n' {
            shell_value(s.skip(2), true)
        } else if s[0] == '\\' && s.len() >= 2 && (s[1] == '$' || s[1] == '`' || s[1] == '"'
            || s[1] == '\\') {
            prepend(seq![s[1]], shell_value(s.skip(2), true))
        } else if s[0] == '$' || s[0] == '`' {
            None
        } else {
            prepend(seq![s[0]], shell_value(s.drop_first(), true))
        }
    }
}

pub open spec fn prepend(p: Seq<char>, o: Option<Seq<char>>) -> Option<Seq<char>> {
    match o {
        Some(v) => Some(p + v),
        None => None,
    }
}

proof fn lemma_flat_chars_id(s: Seq<char>, f: spec_fn(char) -> Seq<char>)
    requires
        forall|i: int| 0 <= i < s.len() ==> f(#[trigger] s[i]) == seq![s[i]],
    ensures
        flat_chars(s, f) == s,
    decreases s.len(),
{
    if s.len() > 0 {
        assert forall|i: int| 0 <= i < s.drop_last().len() implies f(
            #[trigger] s.drop_last()[i],
        ) == seq![s.drop_last()[i]] by {
            assert(s.drop_last()[i] == s[i]);
        }
        lemma_flat_chars_id(s.drop_last(), f);
        assert(f(s[s.len() - 1]) == seq![s.last()]);
        assert(s.drop_last() + seq![s.last()] == s);
    }
}

/// Reading `'a'"'"'...` where `a` holds no `'`: `a`, a quote, then the rest.
proof fn lemma_sq_step(a: Seq<char>, fb: Seq<char>)
    requires
        forall|i: int| 0 <= i < a.len() ==> a[i] != '\'',
    ensures
        shell_value(seq!['\''] + a + seq!['\'', '"', '\'', '"', '\''] + fb + seq!['\''], false)
            == prepend(a + seq!['\''], shell_value(seq!['\''] + fb + seq!['\''], false)),
{
    let w = seq!['\''] + a + seq!['\'', '"', '\'', '"', '\''] + fb + seq!['\''];
    let k = a.len() as int;
    assert forall|j: int| 1 <= j < k + 1 implies w[j] != '\'' by {
        assert(w[j] == a[j - 1]);
    }
    lemma_next_char_unique(w, '\'', 1, k + 1);
    assert(w.subrange(1, k + 1) == a);
    let r1 = w.skip(k + 2);
    assert(r1 == seq!['"', '\'', '"', '\''] + fb + seq!['\'']);
    let r2 = r1.drop_first();
    assert(r2 == seq!['\'', '"', '\''] + fb + seq!['\'']);
    let r3 = r2.drop_first();
    assert(r3 == seq!['"', '\''] + fb + seq!['\'']);
    let r4 = r3.drop_first();
    assert(r4 == seq!['\''] + fb + seq!['\'']);
    assert(shell_value(r3, true) == shell_value(r4, false));
    assert(shell_value(r2, true) == prepend(seq!['\''], shell_value(r3, true)));
    assert(shell_value(r1, false) == shell_value(r2, true));
    assert(shell_value(w, false) == prepend(a, shell_value(r1, false)));
    match shell_value(r4, false) {
        Some(v) => {
            assert(a + (seq!['\''] + v) == a + seq!['\''] + v);
        },
        None => {},
    }
}

/// `single_quoted(s)` when `s` has its first `'` at `k`: `'`, the text
/// before it, the escaped quote, then `single_quoted` of the rest.
proof fn lemma_sq_split(s: Seq<char>, k: int)
    requires
        0 <= k < s.len(),
        s[k] == '\'',
        forall|j: int| 0 <= j < k ==> s[j] != '\'',
    ensures
        single_quoted(s) == seq!['\''] + s.take(k) + seq!['\'', '"', '\'', '"', '\'']
            + flat_chars(s.skip(k + 1), |c: char| sq_escape(c)) + seq!['\''],
        single_quoted(s.skip(k + 1)) == seq!['\''] + flat_chars(
            s.skip(k + 1),
            |c: char| sq_escape(c),
        ) + seq!['\''],
{
    let f = |c: char| sq_escape(c);
    let a = s.take(k);
    let b = s.skip(k + 1);
    assert(s == a + seq!['\''] + b);
    assert forall|i: int| 0 <= i < a.len() implies f(#[trigger] a[i]) == seq![a[i]] by {
        assert(a[i] == s[i]);
    }
    lemma_flat_chars_id(a, f);
    lemma_flat_chars_append(a + seq!['\''], b, f);
    lemma_flat_chars_push(a, '\'', f);
    assert(a + seq!['\''] == a.push('\''));
}

/// The shell reads back from `single_quoted(s)` exactly `s`, with nothing
/// expanded.
#[verifier::spinoff_prover]
pub proof fn lemma_single_quoted_reads_back(s: Seq<char>)
    ensures
        shell_value(single_quoted(s), false) == Some(s),
    decreases s.len(),
{
    let f = |c: char| sq_escape(c);
    let w = single_quoted(s);
    if exists|k: int| 0 <= k < s.len() && s[k] == '\'' {
        let k0 = choose|k: int| 0 <= k < s.len() && s[k] == '\'';
        let k = first_quote_at_or_before(s, k0);
        let a = s.take(k);
        let b = s.skip(k + 1);
        lemma_sq_split(s, k);
        assert forall|i: int| 0 <= i < a.len() implies a[i] != '\'' by {
            assert(a[i] == s[i]);
        }
        lemma_sq_step(a, flat_chars(b, f));
        lemma_single_quoted_reads_back(b);
        assert(a + seq!['\''] + b == s);
    } else {
        assert forall|i: int| 0 <= i < s.len() implies f(#[trigger] s[i]) == seq![s[i]] by {}
        lemma_flat_chars_id(s, f);
        assert(w == seq!['\''] + s + seq!['\'']);
        lemma_next_char_unique(w, '\'', 1, s.len() + 1int);
        assert(w.subrange(1, s.len() + 1int) == s);
        assert(w.skip(s.len() + 2int) == Seq::<char>::empty());
        assert(w[0] == '\'');
        assert(shell_value(w, false) == prepend(s, shell_value(Seq::<char>::empty(), false)));
        assert(s + Seq::<char>::empty() == s);
    }
}

/// The first index `k <= k0` with `s[k] == '\''`, given that `s[k0]` is one.
proof fn first_quote_at_or_before(s: Seq<char>, k0: int) -> (k: int)
    requires
        0 <= k0 < s.len(),
        s[k0] == '\'',
    ensures
        0 <= k <= k0,
        s[k] == '\'',
        forall|j: int| 0 <= j < k ==> s[j] != '\'',
    decreases k0,
{
    if exists|j: int| 0 <= j < k0 && s[j] == '\'' {
        let j = choose|j: int| 0 <= j < k0 && s[j] == '\'';
        first_quote_at_or_before(s, j)
    } else {
        k0
    }
}

proof fn lemma_dq_body_reads_back(s: Seq<char>)
    requires
        !s.contains('$'),
    ensures
        shell_value(flat_chars(s, |c: char| dq_escape(c)) + seq!['"'], true) == Some(s),
    decreases s.len(),
{
    let f = |c: char| dq_escape(c);
    if s.len() == 0 {
        assert(flat_chars(s, f) + seq!['"'] == seq!['"']);
        assert(seq!['"'].drop_first() == Seq::<char>::empty());
        assert(shell_value(seq!['"'], true) == shell_value(Seq::<char>::empty(), false));
    } else {
        let c = s[0];
        let t = s.drop_first();
        assert(s == seq![c] + t);
        assert(!t.contains('$')) by {
            if t.contains('$') {
                let i = choose|i: int| 0 <= i < t.len() && t[i] == '$';
                assert(s[i + 1] == '$');
            }
        }
        assert(c != '$') by {
            assert(s[0] == c);
        }
        lemma_flat_chars_cons(c, t, f);
        lemma_dq_body_reads_back(t);
        let rest = flat_chars(t, f) + seq!['"'];
        let w = flat_chars(s, f) + seq!['"'];
        if c == '\\' || c == '"' || c == '`' {
            assert(w == seq!['\\', c] + rest);
            assert(w.skip(2) == rest);
            assert(w[0] == '\\' && w[1] == c);
            assert(shell_value(w, true) == prepend(seq![c], shell_value(rest, true)));
        } else {
            assert(w == seq![c] + rest);
            assert(w.drop_first() == rest);
            assert(w[0] == c);
            assert(shell_value(w, true) == prepend(seq![c], shell_value(rest, true)));
        }
        assert(seq![c] + t == s);
    }
}

/// Without a `$` in it, the shell reads back from `expand_quoted(s)`
/// exactly `s`.
pub proof fn lemma_expand_quoted_reads_back(s: Seq<char>)
    requires
        !s.contains('$'),
    ensures
        shell_value(expand_quoted(s), false) == Some(s),
{
    let f = |c: char| dq_escape(c);
    let w = expand_quoted(s);
    assert(w.drop_first() == flat_chars(s, f) + seq!['"']);
    lemma_dq_body_reads_back(s);
}

/// A hook that is not a `run-shell` command is kept whole: the cleanup
/// script gets all of it, every line, with only whitespace cut from its two
/// ends.
pub proof fn lemma_plain_hook_kept_whole(h: Seq<char>)
    requires
        !starts_with(trim(h), "run-shell"@),
    ensures
        exists|i: int, j: int|
            {
                &&& 0 <= i <= j <= h.len()
                &&& normalized_hook(h) == h.subrange(i, j)
                &&& is_blank(h.take(i))
                &&& is_blank(h.skip(j))
                &&& i < j ==> !is_ws(h[i]) && !is_ws(h[j - 1])
            },
{
    lemma_trim_piece(h);
    let i = crate::text::lead_ws(h) as int;
    let j = h.len() - crate::text::trail_ws(crate::text::trim_start(h));
    assert(normalized_hook(h) == h.subrange(i, j));
}

/// Whatever the hook, the text the cleanup script runs is one contiguous
/// piece of it: nothing in its middle is dropped.
pub proof fn lemma_hook_is_contiguous_piece(h: Seq<char>)
    ensures
        exists|i: int, j: int| 0 <= i <= j <= h.len() && normalized_hook(h) == h.subrange(i, j),
{
    lemma_trim_piece(h);
    let i = crate::text::lead_ws(h) as int;
    let j = h.len() - crate::text::trail_ws(crate::text::trim_start(h));
    let t = trim(h);
    if starts_with(t, "run-shell"@) {
        reveal_strlit("run-shell");
        let u = t.skip(9);
        lemma_trim_piece(u);
        let a = crate::text::lead_ws(u) as int;
        let b = u.len() - crate::text::trail_ws(crate::text::trim_start(u));
        let r = trim(u);
        assert(r =~= h.subrange(i + 9 + a, i + 9 + b));
        if r.len() >= 2 && ((r[0] == '\'' && r.last() == '\'') || (r[0] == '"' && r.last()
            == '"')) {
            assert(r.subrange(1, r.len() - 1) =~= h.subrange(i + 9 + a + 1, i + 9 + b - 1));
        }
    } else {
        assert(normalized_hook(h) == h.subrange(i, j));
    }
}

proof fn lemma_trim_keeps(s: Seq<char>, n: int)
    requires
        0 <= n < s.len(),
        forall|i: int| 0 <= i < n ==> is_ws(#[trigger] s[i]),
        !is_ws(s[n]),
        !is_ws(s.last()),
    ensures
        trim(s) == s.skip(n),
{
    crate::text::lemma_lead_ws_unique(s, n);
    let t = s.skip(n);
    assert(t.last() == s.last());
    crate::text::lemma_trail_ws_unique(t, 0);
    assert(t.take(t.len() as int) == t);
}

/// A `run-shell` hook whose command is in single or double quotes runs
/// exactly the quoted command.
pub proof fn lemma_run_shell_quoted(x: Seq<char>, q: char)
    requires
        q == '\'' || q == '"',
    ensures
        normalized_hook("run-shell "@ + seq![q] + x + seq![q]) == x,
{
    reveal_strlit("run-shell ");
    reveal_strlit("run-shell");
    let h = "run-shell "@ + seq![q] + x + seq![q];
    assert(h[0] == 'r');
    assert(h.last() == q);
    lemma_trim_keeps(h, 0);
    assert(h.skip(0) == h);
    assert(h.take(9) =~= "run-shell"@);
    let u = h.skip(9);
    assert(u =~= seq![' ', q] + x + seq![q]);
    assert(u[1] == q);
    assert(u.last() == q);
    lemma_trim_keeps(u, 1);
    let r = trim(u);
    assert(r =~= seq![q] + x + seq![q]);
    assert(r.subrange(1, r.len() - 1) =~= x);
}

} // verus!
