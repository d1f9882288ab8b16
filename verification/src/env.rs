//! Environment variable names and `$VAR` / `${VAR...}` expansion.
use vstd::prelude::*;

use crate::error::{res_view, DevoError, SpecError};
use crate::quote::{
    ascii_upper, is_alnum_char, is_alpha_char, is_ascii_alnum, is_ascii_alpha, is_ascii_digit,
    is_ascii_lower, sanitized, var_char,
};
use crate::text::{
    append_chars, chars_eq, find_pair, find_pair_from, lemma_find_pair, lemma_next_char, lemma_next_char_unique, next_char,
    string_of, to_chars,
};

verus! {

/// `name` is a shell variable name: `[A-Za-z_][A-Za-z0-9_]*`.
pub open spec fn valid_env_name(name: Seq<char>) -> bool {
    &&& name.len() > 0
    &&& (is_ascii_alpha(name[0]) || name[0] == '_')
    &&& forall|i: int| 0 <= i < name.len() ==> is_ascii_alnum(#[trigger] name[i]) || name[i] == '_'
}

/// What checking `name` as a variable name gives.
pub open spec fn env_name_check(name: Seq<char>) -> Result<(), SpecError> {
    if name.len() == 0 {
        Err(SpecError::EmptyEnvVarName)
    } else if valid_env_name(name) {
        Ok(())
    } else {
        Err(SpecError::InvalidEnvVarName(name))
    }
}

pub fn check_env_name_chars(cs: &[char]) -> (b: bool)
    ensures
        b == valid_env_name(cs@),
{
    if cs.len() == 0 {
        return false;
    }
    if !(is_alpha_char(cs[0]) || cs[0] == '_') {
        return false;
    }
    let mut i: usize = 0;
    while i < cs.len()
        invariant
            i <= cs.len(),
            forall|j: int| 0 <= j < i ==> is_ascii_alnum(#[trigger] cs@[j]) || cs@[j] == '_',
        decreases cs.len() - i,
    {
        if !(is_alnum_char(cs[i]) || cs[i] == '_') {
            return false;
        }
        i = i + 1;
    }
    true
}

/// Checks that `name` can be used as a shell variable name.
pub fn validate_env_var_name(name: &str) -> (res: Result<(), DevoError>)
    ensures
        res_view(res, |u: ()| u) == env_name_check(name@),
{
    let cs = to_chars(name);
    check_name(cs.as_slice())
}

/// Checks that the characters `cs` form a shell variable name.
pub fn check_name(cs: &[char]) -> (res: Result<(), DevoError>)
    ensures
        res_view(res, |u: ()| u) == env_name_check(cs@),
{
    if cs.len() == 0 {
        return Err(DevoError::EmptyEnvVarName);
    }
    if check_env_name_chars(cs) {
        Ok(())
    } else {
        Err(DevoError::InvalidEnvVarName(string_of(cs)))
    }
}

/// The variables as name/value character sequences, in order.
pub open spec fn env_view(env: Seq<(String, String)>) -> Seq<(Seq<char>, Seq<char>)> {
    env.map_values(|p: (String, String)| (p.0@, p.1@))
}

/// The value of the first variable called `name`, if any.
pub open spec fn env_get(env: Seq<(Seq<char>, Seq<char>)>, name: Seq<char>) -> Option<Seq<char>>
    decreases env.len(),
{
    if env.len() == 0 {
        None
    } else if env[0].0 == name {
        Some(env[0].1)
    } else {
        env_get(env.drop_first(), name)
    }
}

/// The value of `name`, empty when it is not set.
pub open spec fn env_value(env: Seq<(Seq<char>, Seq<char>)>, name: Seq<char>) -> Seq<char> {
    match env_get(env, name) {
        Some(v) => v,
        None => Seq::empty(),
    }
}

/// Looks `name` up among the variables `env`, first match first.
pub fn env_lookup(env: &[(String, String)], name: &[char]) -> (res: Option<Vec<char>>)
    ensures
        match res {
            Some(v) => env_get(env_view(env@), name@) == Some(v@),
            None => env_get(env_view(env@), name@) is None,
        },
{
    let mut i: usize = 0;
    assert(env_view(env@).skip(0) == env_view(env@));
    while i < env.len()
        invariant
            i <= env.len(),
            env_get(env_view(env@), name@) == env_get(env_view(env@).skip(i as int), name@),
        decreases env.len() - i,
    {
        let k = to_chars(env[i].0.as_str());
        assert(env_view(env@).skip(i as int)[0] == (env@[i as int].0@, env@[i as int].1@));
        if chars_eq(k.as_slice(), name) {
            return Some(to_chars(env[i].1.as_str()));
        }
        assert(env_view(env@).skip(i as int).drop_first() == env_view(env@).skip(i + 1));
        i = i + 1;
    }
    None
}

fn env_value_chars(env: &[(String, String)], name: &[char]) -> (res: Vec<char>)
    ensures
        res@ == env_value(env_view(env@), name@),
{
    match env_lookup(env, name) {
        Some(v) => v,
        None => Vec::new(),
    }
}

/// `a` then `b`, or the first error.
pub open spec fn then_res(a: Result<Seq<char>, SpecError>, b: Result<Seq<char>, SpecError>) -> Result<Seq<char>, SpecError> {
    match a {
        Err(e) => Err(e),
        Ok(x) => match b {
            Err(e) => Err(e),
            Ok(y) => Ok(x + y),
        },
    }
}

/// Length of the run of `[A-Za-z0-9_]` characters starting at `start`.
pub open spec fn name_run(s: Seq<char>, start: int) -> nat
    decreases s.len() - start,
{
    if start < 0 || start >= s.len() {
        0
    } else if is_ascii_alnum(s[start]) || s[start] == '_' {
        1 + name_run(s, start + 1)
    } else {
        0
    }
}

pub proof fn lemma_name_run(s: Seq<char>, start: int)
    requires
        0 <= start,
    ensures
        start + name_run(s, start) <= s.len() || name_run(s, start) == 0,
    decreases s.len() - start,
{
    if start < s.len() && (is_ascii_alnum(s[start]) || s[start] == '_') {
        lemma_name_run(s, start + 1);
    }
}

/// `s` with `$NAME`, `${NAME}`, `${NAME:-default}` and `${NAME:+alt}`
/// replaced from `env`, read left to right; an unset variable counts as
/// empty, and a `$` followed by no name stays as it is.
pub open spec fn expanded(s: Seq<char>, env: Seq<(Seq<char>, Seq<char>)>) -> Result<Seq<char>, SpecError>
    decreases s.len(),
{
    if s.len() == 0 {
        Ok(Seq::empty())
    } else if s[0] != '$' {
        then_res(Ok(seq![s[0]]), expanded(s.drop_first(), env))
    } else if s.len() >= 2 && s[1] == '{' {
        let close = next_char(s, '}', 2);
        proof {
            lemma_next_char(s, '}', 2);
        }
        let body = s.subrange(2, close);
        let rest = if close < s.len() {
            s.skip(close + 1)
        } else {
            Seq::empty()
        };
        then_res(brace_expanded(body, env), expanded(rest, env))
    } else {
        let n = name_run(s, 1) as int;
        proof {
            lemma_name_run(s, 1);
        }
        if n == 0 {
            then_res(Ok(seq!['$']), expanded(s.drop_first(), env))
        } else {
            let name = s.subrange(1, 1 + n);
            match env_name_check(name) {
                Err(e) => Err(e),
                Ok(_) => then_res(Ok(env_value(env, name)), expanded(s.skip(1 + n), env)),
            }
        }
    }
}

/// The text between `${` and `}`: `NAME:-default` (the default, expanded,
/// when the value is empty), `NAME:+alt` (the alternative, expanded, when
/// it is not), or a bare `NAME`. The first `:-` wins over any `:+`.
pub open spec fn brace_expanded(body: Seq<char>, env: Seq<(Seq<char>, Seq<char>)>) -> Result<Seq<char>, SpecError>
    decreases body.len(),
{
    let d = find_pair_from(body, ':', '-', 0);
    let a = find_pair_from(body, ':', '+', 0);
    proof {
        lemma_find_pair(body, ':', '-', 0);
        lemma_find_pair(body, ':', '+', 0);
    }
    if d < body.len() {
        let name = body.take(d);
        match env_name_check(name) {
            Err(e) => Err(e),
            Ok(_) => {
                let value = env_value(env, name);
                if value.len() == 0 {
                    expanded(body.skip(d + 2), env)
                } else {
                    Ok(value)
                }
            },
        }
    } else if a < body.len() {
        let name = body.take(a);
        match env_name_check(name) {
            Err(e) => Err(e),
            Ok(_) => {
                let value = env_value(env, name);
                if value.len() == 0 {
                    Ok(Seq::empty())
                } else {
                    expanded(body.skip(a + 2), env)
                }
            },
        }
    } else {
        match env_name_check(body) {
            Err(e) => Err(e),
            Ok(_) => Ok(env_value(env, body)),
        }
    }
}

proof fn lemma_then_ok(a: Seq<char>, b: Seq<char>, x: Result<Seq<char>, SpecError>)
    ensures
        then_res(Ok(a), then_res(Ok(b), x)) == then_res(Ok(a + b), x),
{
    match x {
        Ok(y) => {
            assert(a + (b + y) == a + b + y);
        },
        Err(_) => {},
    }
}

proof fn lemma_name_run_unique(s: Seq<char>, start: int, e: int)
    requires
        0 <= start <= e <= s.len(),
        e < s.len() ==> !(is_ascii_alnum(s[e]) || s[e] == '_'),
        forall|j: int| start <= j < e ==> is_ascii_alnum(#[trigger] s[j]) || s[j] == '_',
    ensures
        name_run(s, start) == e - start,
    decreases e - start,
{
    if start < e {
        lemma_name_run_unique(s, start + 1, e);
    }
}

pub(crate) fn push_all(out: &mut Vec<char>, v: &[char])
    ensures
        final(out)@ == old(out)@ + v@,
{
    let mut k: usize = 0;
    while k < v.len()
        invariant
            k <= v.len(),
            out@ == old(out)@ + v@.take(k as int),
        decreases v.len() - k,
    {
        out.push(v[k]);
        k = k + 1;
        assert(v@.take(k as int) == v@.take(k - 1).push(v@[k - 1]));
    }
    assert(v@.take(v.len() as int) == v@);
}

/// Expands the characters `cs`; see `expanded`.
fn expand_chars(cs: &[char], env: &[(String, String)]) -> (res: Result<Vec<char>, DevoError>)
    ensures
        res_view(res, |v: Vec<char>| v@) == expanded(cs@, env_view(env@)),
    decreases cs.len(), 1int,
{
    let ghost e = env_view(env@);
    let mut out: Vec<char> = Vec::new();
    let mut i: usize = 0;
    assert(cs@.skip(0) == cs@);
    assert(Seq::<char>::empty() + cs@ == cs@);
    while i < cs.len()
        invariant
            i <= cs.len(),
            e == env_view(env@),
            expanded(cs@, e) == then_res(Ok(out@), expanded(cs@.skip(i as int), e)),
        decreases cs.len() - i,
    {
        let ghost t = cs@.skip(i as int);
        let ghost out0 = out@;
        if cs[i] != '$' {
            let c = cs[i];
            out.push(c);
            proof {
                assert(t[0] == c);
                assert(t.drop_first() == cs@.skip(i + 1));
                assert(expanded(t, e) == then_res(Ok(seq![c]), expanded(t.drop_first(), e)));
                lemma_then_ok(out0, seq![c], expanded(t.drop_first(), e));
                assert(out@ == out0 + seq![c]);
            }
            i = i + 1;
        } else if cs.len() - i >= 2 && cs[i + 1] == '{' {
            let mut j = i + 2;
            while j < cs.len() && cs[j] != '}'
                invariant
                    i + 2 <= j <= cs.len(),
                    forall|k: int| i + 2 <= k < j ==> cs@[k] != '}',
                decreases cs.len() - j,
            {
                j = j + 1;
            }
            proof {
                lemma_next_char_unique(t, '}', 2, j - i);
                assert(t.subrange(2, j - i) == cs@.subrange(i + 2, j as int));
            }
            let body = &cs[i + 2..j];
            let next = if j < cs.len() {
                j + 1
            } else {
                j
            };
            proof {
                if j < cs.len() {
                    assert(t.skip(j - i + 1) == cs@.skip(next as int));
                } else {
                    assert(cs@.skip(next as int) == Seq::<char>::empty());
                }
            }
            proof {
                assert(t[0] == '$' && t[1] == '{');
                assert(expanded(t, e) == then_res(
                    brace_expanded(body@, e),
                    expanded(cs@.skip(next as int), e),
                ));
            }
            match brace_chars(body, env) {
                Err(err) => {
                    return Err(err);
                },
                Ok(v) => {
                    push_all(&mut out, v.as_slice());
                    proof {
                        lemma_then_ok(out0, v@, expanded(cs@.skip(next as int), e));
                        assert(expanded(cs@, e) == then_res(
                            Ok(out@),
                            expanded(cs@.skip(next as int), e),
                        ));
                    }
                },
            }
            i = next;
        } else {
            let mut j = i + 1;
            while j < cs.len() && (is_alnum_char(cs[j]) || cs[j] == '_')
                invariant
                    i + 1 <= j <= cs.len(),
                    forall|k: int| i + 1 <= k < j ==> is_ascii_alnum(#[trigger] cs@[k]) || cs@[k]
                        == '_',
                decreases cs.len() - j,
            {
                j = j + 1;
            }
            proof {
                assert forall|k: int| 1 <= k < j - i implies is_ascii_alnum(#[trigger] t[k])
                    || t[k] == '_' by {
                    assert(t[k] == cs@[i + k]);
                }
                lemma_name_run_unique(t, 1, j - i);
            }
            proof {
                assert(t[0] == '$');
                assert(!(t.len() >= 2 && t[1] == '{'));
            }
            if j == i + 1 {
                out.push('$');
                proof {
                    assert(t.drop_first() == cs@.skip(i + 1));
                    assert(expanded(t, e) == then_res(Ok(seq!['$']), expanded(t.drop_first(), e)));
                    lemma_then_ok(out0, seq!['$'], expanded(t.drop_first(), e));
                    assert(out@ == out0 + seq!['$']);
                }
                i = i + 1;
            } else {
                let name = &cs[i + 1..j];
                proof {
                    assert(t.subrange(1, j - i) == name@);
                    assert(t.skip(j - i) == cs@.skip(j as int));
                }
                match check_name(name) {
                    Err(err) => {
                        return Err(err);
                    },
                    Ok(()) => {},
                }
                let v = env_value_chars(env, name);
                push_all(&mut out, v.as_slice());
                proof {
                    assert(expanded(t, e) == then_res(Ok(v@), expanded(cs@.skip(j as int), e)));
                    lemma_then_ok(out0, v@, expanded(cs@.skip(j as int), e));
                }
                i = j;
            }
        }
    }
    proof {
        assert(cs@.skip(i as int) == Seq::<char>::empty());
        assert(out@ + Seq::<char>::empty() == out@);
    }
    Ok(out)
}

/// Expands the text between `${` and `}`; see `brace_expanded`.
fn brace_chars(body: &[char], env: &[(String, String)]) -> (res: Result<Vec<char>, DevoError>)
    ensures
        res_view(res, |v: Vec<char>| v@) == brace_expanded(body@, env_view(env@)),
    decreases body.len(), 0int,
{
    proof {
        lemma_find_pair(body@, ':', '-', 0);
        lemma_find_pair(body@, ':', '+', 0);
    }
    let d = find_pair(body, ':', '-');
    if d < body.len() {
        let name = &body[0..d];
        match check_name(name) {
            Err(err) => {
                return Err(err);
            },
            Ok(()) => {},
        }
        let value = env_value_chars(env, name);
        if value.len() == 0 {
            return expand_chars(&body[d + 2..body.len()], env);
        } else {
            return Ok(value);
        }
    }
    let a = find_pair(body, ':', '+');
    if a < body.len() {
        let name = &body[0..a];
        match check_name(name) {
            Err(err) => {
                return Err(err);
            },
            Ok(()) => {},
        }
        let value = env_value_chars(env, name);
        if value.len() == 0 {
            return Ok(Vec::new());
        } else {
            return expand_chars(&body[a + 2..body.len()], env);
        }
    }
    match check_name(body) {
        Err(err) => Err(err),
        Ok(()) => Ok(env_value_chars(env, body)),
    }
}

/// Expands `$NAME`, `${NAME}`, `${NAME:-default}` and `${NAME:+alt}` in
/// `input` with the variables `env`.
pub fn expand_env_vars(input: &str, env: &[(String, String)]) -> (res: Result<String, DevoError>)
    ensures
        res_view(res, |s: String| s@) == expanded(input@, env_view(env@)),
{
    let cs = to_chars(input);
    match expand_chars(cs.as_slice(), env) {
        Err(err) => Err(err),
        Ok(v) => Ok(string_of(v.as_slice())),
    }
}

/// Expands the text found between `${` and `}`.
pub fn expand_brace_body(body: &str, env: &[(String, String)]) -> (res: Result<String, DevoError>)
    ensures
        res_view(res, |s: String| s@) == brace_expanded(body@, env_view(env@)),
{
    let cs = to_chars(body);
    match brace_chars(cs.as_slice(), env) {
        Err(err) => Err(err),
        Ok(v) => Ok(string_of(v.as_slice())),
    }
}

proof fn lemma_var_char(c: char)
    ensures
        is_ascii_alnum(var_char(c)) || var_char(c) == '_',
        is_ascii_digit(var_char(c)) ==> is_ascii_digit(c),
        ('a' <= c && c <= 'z') ==> var_char(c) as int == c as int - 32,
        ('A' <= c && c <= 'Z') || ('0' <= c && c <= '9') ==> var_char(c) == c,
        !(('a' <= c && c <= 'z') || ('A' <= c && c <= 'Z') || ('0' <= c && c <= '9'))
            ==> var_char(c) == '_',
{
    if is_ascii_lower(c) {
        assert(ascii_upper(c) == ((c as u8) - 32u8) as char);
        assert((c as u8) as int == c as int);
        assert('A' <= ascii_upper(c) && ascii_upper(c) <= 'Z');
    }
}

/// Each character of a task id gives one character of its variable name,
/// in place (after a leading `_` when the id is empty or starts with a
/// digit): a lower-case ASCII letter its upper-case form, an upper-case
/// letter or a digit itself, anything else `_`.
pub proof fn lemma_sanitized_chars(id: Seq<char>)
    ensures
        ({
            let off = if id.len() == 0 || ('0' <= id[0] && id[0] <= '9') {
                1int
            } else {
                0int
            };
            let r = sanitized(id);
            &&& r.len() == id.len() + off
            &&& off == 1 ==> r[0] == '_'
            &&& forall|i: int|
                0 <= i < id.len() ==> {
                    let c = #[trigger] id[i];
                    &&& ('a' <= c && c <= 'z') ==> r[i + off] as int == c as int - 32
                    &&& (('A' <= c && c <= 'Z') || ('0' <= c && c <= '9')) ==> r[i + off] == c
                    &&& !(('a' <= c && c <= 'z') || ('A' <= c && c <= 'Z') || ('0' <= c && c
                        <= '9')) ==> r[i + off] == '_'
                }
        }),
{
    let m = id.map_values(|c: char| var_char(c));
    if id.len() > 0 {
        lemma_var_char(id[0]);
    }
    assert forall|i: int| 0 <= i < id.len() implies {
        let c = #[trigger] id[i];
        let off = if id.len() == 0 || ('0' <= id[0] && id[0] <= '9') {
            1int
        } else {
            0int
        };
        let r = sanitized(id);
        &&& ('a' <= c && c <= 'z') ==> r[i + off] as int == c as int - 32
        &&& (('A' <= c && c <= 'Z') || ('0' <= c && c <= '9')) ==> r[i + off] == c
        &&& !(('a' <= c && c <= 'z') || ('A' <= c && c <= 'Z') || ('0' <= c && c <= '9'))
            ==> r[i + off] == '_'
    } by {
        lemma_var_char(id[i]);
        let off = if id.len() == 0 || ('0' <= id[0] && id[0] <= '9') {
            1int
        } else {
            0int
        };
        assert(sanitized(id)[i + off] == m[i]);
    }
}

/// The name `sanitize_var` makes is always a valid shell variable name.
pub proof fn lemma_sanitized_is_valid_name(id: Seq<char>)
    ensures
        valid_env_name(sanitized(id)),
{
    let m = id.map_values(|c: char| var_char(c));
    let r = sanitized(id);
    assert forall|i: int| 0 <= i < m.len() implies is_ascii_alnum(#[trigger] m[i]) || m[i] == '_' by {
        lemma_var_char(id[i]);
    }
    if m.len() == 0 || is_ascii_digit(m[0]) {
        assert(r == seq!['_'] + m);
        assert forall|i: int| 0 <= i < r.len() implies is_ascii_alnum(#[trigger] r[i]) || r[i] == '_' by {
            if i > 0 {
                assert(r[i] == m[i - 1]);
            }
        }
    } else {
        lemma_var_char(id[0]);
    }
}

/// Text without a `$` expands to itself.
pub proof fn lemma_expand_without_dollar(s: Seq<char>, env: Seq<(Seq<char>, Seq<char>)>)
    requires
        !s.contains('$'),
    ensures
        expanded(s, env) == Ok::<Seq<char>, SpecError>(s),
    decreases s.len(),
{
    if s.len() > 0 {
        assert(s[0] != '$');
        assert(!s.drop_first().contains('$')) by {
            if s.drop_first().contains('$') {
                let i = choose|i: int| 0 <= i < s.drop_first().len() && s.drop_first()[i] == '$';
                assert(s[i + 1] == '$');
            }
        }
        lemma_expand_without_dollar(s.drop_first(), env);
        assert(expanded(s, env) == then_res(Ok(seq![s[0]]), expanded(s.drop_first(), env)));
        assert(seq![s[0]] + s.drop_first() =~= s);
    } else {
        assert(s =~= Seq::<char>::empty());
    }
}

/// A complete `${...}` expression expands on its own, and the text after it
/// is expanded too: `"${" + b + "}" + q` gives the expansion of `b` as a
/// brace body followed by the expansion of `q`.
pub proof fn lemma_brace_then_rest(
    b: Seq<char>,
    q: Seq<char>,
    env: Seq<(Seq<char>, Seq<char>)>,
)
    requires
        !b.contains('}'),
    ensures
        expanded(seq!['$', '{'] + b + seq!['}'] + q, env) == then_res(
            brace_expanded(b, env),
            expanded(q, env),
        ),
{
    let s = seq!['$', '{'] + b + seq!['}'] + q;
    let e = 2 + b.len() as int;
    assert forall|j: int| 2 <= j < e implies s[j] != '}' by {
        assert(s[j] == b[j - 2]);
    }
    assert(s[e] == '}');
    lemma_next_char_unique(s, '}', 2, e);
    assert(s.subrange(2, e) =~= b);
    assert(s.skip(e + 1) =~= q);
    assert(s[0] == '$' && s[1] == '{');
}

/// `$NAME` with a valid name, followed by text that does not continue the
/// name, gives the variable's value (empty when unset) followed by the
/// expansion of that text.
pub proof fn lemma_name_then_rest(
    name: Seq<char>,
    q: Seq<char>,
    env: Seq<(Seq<char>, Seq<char>)>,
)
    requires
        valid_env_name(name),
        q.len() > 0 ==> !(is_ascii_alnum(q[0]) || q[0] == '_'),
    ensures
        expanded(seq!['$'] + name + q, env) == then_res(
            Ok(
                match env_get(env, name) {
                    Some(v) => v,
                    None => Seq::empty(),
                },
            ),
            expanded(q, env),
        ),
{
    let s = seq!['$'] + name + q;
    let e = 1 + name.len() as int;
    assert forall|j: int| 1 <= j < e implies is_ascii_alnum(#[trigger] s[j]) || s[j] == '_' by {
        assert(s[j] == name[j - 1]);
    }
    if e < s.len() {
        assert(s[e] == q[0]);
    }
    lemma_name_run_unique(s, 1, e);
    assert(s.subrange(1, e) =~= name);
    assert(s.skip(e) =~= q);
    assert(s[0] == '$');
    assert(s[1] != '{') by {
        assert(s[1] == name[0]);
    }
}

/// A name passes the check exactly when it is non-empty, starts with an
/// ASCII letter or `_`, and holds only ASCII letters, digits and `_`; an
/// empty name and any other name are refused with different errors.
pub proof fn lemma_env_name_check_exact(n: Seq<char>)
    ensures
        (env_name_check(n) is Ok) <==> (n.len() > 0 && (('a' <= n[0] && n[0] <= 'z') || ('A'
            <= n[0] && n[0] <= 'Z') || n[0] == '_') && forall|i: int|
            0 <= i < n.len() ==> ('a' <= #[trigger] n[i] && n[i] <= 'z') || ('A' <= n[i] && n[i]
                <= 'Z') || ('0' <= n[i] && n[i] <= '9') || n[i] == '_'),
        n.len() == 0 ==> env_name_check(n) == Err::<(), SpecError>(SpecError::EmptyEnvVarName),
        n.len() > 0 && env_name_check(n) is Err ==> env_name_check(n) == Err::<(), SpecError>(
            SpecError::InvalidEnvVarName(n),
        ),
{
}

/// Brace body `NAME:-default`: the variable's value when it is set and not
/// empty, else the expansion of the default.
pub proof fn lemma_default_form(
    name: Seq<char>,
    d: Seq<char>,
    env: Seq<(Seq<char>, Seq<char>)>,
)
    requires
        valid_env_name(name),
    ensures
        brace_expanded(name + seq![':', '-'] + d, env) == (match env_get(env, name) {
            Some(v) => if v.len() > 0 {
                Ok(v)
            } else {
                expanded(d, env)
            },
            None => expanded(d, env),
        }),
{
    let b = name + seq![':', '-'] + d;
    let k = name.len() as int;
    assert forall|j: int| 0 <= j < k implies b[j] != ':' by {
        assert(b[j] == name[j]);
        assert(is_ascii_alnum(name[j]) || name[j] == '_');
    }
    lemma_first_pair_at(b, ':', '-', k);
    assert(b.take(k) =~= name);
    assert(b.skip(k + 2) =~= d);
}

/// Brace body `NAME:+alt`: empty when the variable is unset or empty, else
/// the expansion of the alternative.
pub proof fn lemma_alt_form(
    name: Seq<char>,
    a: Seq<char>,
    env: Seq<(Seq<char>, Seq<char>)>,
)
    requires
        valid_env_name(name),
        forall|j: int| 0 <= j && j + 1 < a.len() ==> !(#[trigger] a[j] == ':' && a[j + 1] == '-'),
    ensures
        brace_expanded(name + seq![':', '+'] + a, env) == (match env_get(env, name) {
            Some(v) => if v.len() > 0 {
                expanded(a, env)
            } else {
                Ok(Seq::empty())
            },
            None => Ok(Seq::empty()),
        }),
{
    let b = name + seq![':', '+'] + a;
    let k = name.len() as int;
    assert forall|j: int| 0 <= j && j + 1 < b.len() implies !(#[trigger] b[j] == ':' && b[j + 1]
        == '-') by {
        if j < k {
            assert(b[j] == name[j]);
            assert(is_ascii_alnum(name[j]) || name[j] == '_');
        } else if j == k {
            assert(b[j + 1] == '+');
        } else if j == k + 1 {
            assert(b[j] == '+');
        } else {
            assert(b[j] == a[j - k - 2]);
            assert(b[j + 1] == a[j - k - 1]);
        }
    }
    lemma_no_pair(b, ':', '-', 0);
    assert forall|j: int| 0 <= j < k implies b[j] != ':' by {
        assert(b[j] == name[j]);
        assert(is_ascii_alnum(name[j]) || name[j] == '_');
    }
    lemma_first_pair_at(b, ':', '+', k);
    assert(b.take(k) =~= name);
    assert(b.skip(k + 2) =~= a);
}

/// Brace body that is a bare valid name: the variable's value, empty when
/// unset.
pub proof fn lemma_plain_brace(name: Seq<char>, env: Seq<(Seq<char>, Seq<char>)>)
    requires
        valid_env_name(name),
    ensures
        brace_expanded(name, env) == Ok::<Seq<char>, SpecError>(
            match env_get(env, name) {
                Some(v) => v,
                None => Seq::empty(),
            },
        ),
{
    assert forall|j: int| 0 <= j && j + 1 < name.len() implies !(#[trigger] name[j] == ':'
        && name[j + 1] == '-') by {
        assert(is_ascii_alnum(name[j]) || name[j] == '_');
    }
    assert forall|j: int| 0 <= j && j + 1 < name.len() implies !(#[trigger] name[j] == ':'
        && name[j + 1] == '+') by {
        assert(is_ascii_alnum(name[j]) || name[j] == '_');
    }
    lemma_no_pair(name, ':', '-', 0);
    lemma_no_pair(name, ':', '+', 0);
}

proof fn lemma_no_pair(s: Seq<char>, a: char, b: char, start: int)
    requires
        0 <= start,
        forall|j: int| start <= j && j + 1 < s.len() ==> !(#[trigger] s[j] == a && s[j + 1] == b),
    ensures
        find_pair_from(s, a, b, start) == s.len(),
    decreases s.len() - start,
{
    if start + 1 < s.len() {
        lemma_no_pair(s, a, b, start + 1);
    }
}

proof fn lemma_first_pair_at(s: Seq<char>, a: char, b: char, k: int)
    requires
        0 <= k,
        k + 1 < s.len(),
        s[k] == a && s[k + 1] == b,
        forall|j: int| 0 <= j < k ==> s[j] != a,
    ensures
        find_pair_from(s, a, b, 0) == k,
{
    lemma_first_pair_from(s, a, b, 0, k);
}

proof fn lemma_first_pair_from(s: Seq<char>, a: char, b: char, start: int, k: int)
    requires
        0 <= start <= k,
        k + 1 < s.len(),
        s[k] == a && s[k + 1] == b,
        forall|j: int| start <= j < k ==> s[j] != a,
    ensures
        find_pair_from(s, a, b, start) == k,
    decreases k - start,
{
    if start < k {
        lemma_first_pair_from(s, a, b, start + 1, k);
    }
}

} // verus!
