//! The tmux session name: as the script computes it, and as the library
//! resolves it from the configuration and the environment.
use vstd::prelude::*;

use crate::config::{Config, SpecConfig};
use crate::env::{
    env_get, env_lookup, env_view, expand_env_vars, expanded, lemma_expand_without_dollar,
};
use crate::error::{res_view, DevoError, SpecError};
use crate::quote::{
    expand_quoted, lemma_expand_quoted_reads_back, lemma_single_quoted_reads_back, sh_expand_quote,
    sh_single_quote, shell_value, single_quoted,
};
use crate::text::{string_of, to_chars};

verus! {

/// The shell text assigned to `SESSION_NAME` in the script: the name given
/// on the command line, single-quoted; else the configured name,
/// double-quoted so that the shell expands its variables; else the
/// inherited `SESSION_NAME`, which must be set.
pub open spec fn session_value(cfg: SpecConfig, override_session: Option<Seq<char>>) -> Seq<char> {
    match override_session {
        Some(s) => single_quoted(s),
        None => match cfg.session {
            Some(s) => expand_quoted(s),
            None => "\"${SESSION_NAME:?session is not set and SESSION_NAME is not available}\""@,
        },
    }
}

/// The shell text for the session name; see `session_value`.
pub fn session_shell_value(cfg: &Config, override_session: Option<&str>) -> (res: String)
    ensures
        res@ == session_value(
            cfg@,
            match override_session {
                Some(s) => Some(s@),
                None => None,
            },
        ),
{
    match override_session {
        Some(session) => sh_single_quote(session),
        None => match &cfg.session {
            Some(session) => sh_expand_quote(session.as_str()),
            None => String::from_str(
                "\"${SESSION_NAME:?session is not set and SESSION_NAME is not available}\"",
            ),
        },
    }
}

/// The session name: the one given on the command line, which must not be
/// empty; else the configured name with its variables expanded from `env`;
/// else `SESSION_NAME` from `env`, which must be set; a name that comes
/// out empty is refused.
pub open spec fn resolved_session(
    cfg: SpecConfig,
    override_session: Option<Seq<char>>,
    env: Seq<(Seq<char>, Seq<char>)>,
) -> Result<Seq<char>, SpecError> {
    match override_session {
        Some(s) => if s.len() == 0 {
            Err(SpecError::EmptySessionOverride)
        } else {
            Ok(s)
        },
        None => match cfg.session {
            Some(s) => match expanded(s, env) {
                Err(e) => Err(e),
                Ok(r) => if r.len() == 0 {
                    Err(SpecError::EmptyResolvedSession)
                } else {
                    Ok(r)
                },
            },
            None => match env_get(env, "SESSION_NAME"@) {
                None => Err(SpecError::SessionNameUnavailable),
                Some(v) => if v.len() == 0 {
                    Err(SpecError::EmptyResolvedSession)
                } else {
                    Ok(v)
                },
            },
        },
    }
}

/// Resolves the session name; see `resolved_session`. `env` holds the
/// environment variables, name and value, first match first.
pub fn resolve_session_name(
    cfg: &Config,
    override_session: Option<String>,
    env: &[(String, String)],
) -> (res: Result<String, DevoError>)
    ensures
        res_view(res, |s: String| s@) == resolved_session(
            cfg@,
            match override_session {
                Some(s) => Some(s@),
                None => None,
            },
            env_view(env@),
        ),
        res matches Ok(s) ==> s@.len() > 0,
        match override_session {
            Some(s) => s@.len() > 0 ==> (res matches Ok(r) && r@ == s@),
            None => true,
        },
{
    if let Some(session) = override_session {
        let cs = to_chars(session.as_str());
        if cs.len() == 0 {
            return Err(DevoError::EmptySessionOverride);
        }
        return Ok(session);
    }
    match &cfg.session {
        Some(session) => {
            let resolved = match expand_env_vars(session.as_str(), env) {
                Err(e) => {
                    return Err(e);
                },
                Ok(r) => r,
            };
            let cs = to_chars(resolved.as_str());
            if cs.len() == 0 {
                return Err(DevoError::EmptyResolvedSession);
            }
            Ok(resolved)
        },
        None => {
            let key = to_chars("SESSION_NAME");
            match env_lookup(env, key.as_slice()) {
                None => Err(DevoError::SessionNameUnavailable),
                Some(v) => {
                    if v.len() == 0 {
                        return Err(DevoError::EmptyResolvedSession);
                    }
                    Ok(string_of(v.as_slice()))
                },
            }
        },
    }
}

/// `--session` wins: a non-empty name given on the command line is the
/// session name, whatever the configuration and the environment hold.
pub proof fn lemma_override_wins(
    cfg: SpecConfig,
    s: Seq<char>,
    env: Seq<(Seq<char>, Seq<char>)>,
)
    requires
        s.len() > 0,
    ensures
        resolved_session(cfg, Some(s), env) == Ok::<Seq<char>, SpecError>(s),
{
}

/// An empty name given on the command line is refused, whatever the
/// configuration and the environment hold.
pub proof fn lemma_empty_override_refused(
    cfg: SpecConfig,
    env: Seq<(Seq<char>, Seq<char>)>,
)
    ensures
        resolved_session(cfg, Some(Seq::empty()), env) == Err::<Seq<char>, SpecError>(
            SpecError::EmptySessionOverride,
        ),
{
}

/// In the script, the shell sets `SESSION_NAME` to exactly the name given
/// on the command line, and to exactly the configured name when that holds
/// no `$` and none is given on the command line.
pub proof fn lemma_script_session_reads_back(cfg: SpecConfig, override_session: Option<Seq<char>>)
    ensures
        override_session matches Some(s) ==> shell_value(
            session_value(cfg, override_session),
            false,
        ) == Some(s),
        (override_session is None && cfg.session is Some && !cfg.session->Some_0.contains('$'))
            ==> shell_value(session_value(cfg, override_session), false) == Some(
            cfg.session->Some_0,
        ),
{
    match override_session {
        Some(s) => {
            lemma_single_quoted_reads_back(s);
        },
        None => {
            match cfg.session {
                Some(s) => {
                    if !s.contains('$') {
                        lemma_expand_quoted_reads_back(s);
                    }
                },
                None => {},
            }
        },
    }
}

/// Without `--session`, a configured name with no `$` in it is the session
/// name as it stands, when it is not empty.
pub proof fn lemma_plain_configured_name(
    cfg: SpecConfig,
    env: Seq<(Seq<char>, Seq<char>)>,
)
    requires
        cfg.session is Some,
        cfg.session->Some_0.len() > 0,
        !cfg.session->Some_0.contains('$'),
    ensures
        resolved_session(cfg, None, env) == Ok::<Seq<char>, SpecError>(cfg.session->Some_0),
{
    lemma_expand_without_dollar(cfg.session->Some_0, env);
}

} // verus!
