//! Turning an environment into `KEY=value` pairs, and those pairs into the
//! text of a `.env` file.

use vstd::prelude::*;
use crate::error::{EnvlyError, is_validation_err};
use crate::ids::{uuid_text, uuid_string};
use crate::models::{
    Vault, Project, Environment, EnvMapping, Secret, msg_not_found, not_found_msg,
    env_consistent, project_consistent,
};
use crate::seqs::{Identified, has_ident, first_with_ident, position_of, lemma_first_with_ident};
use crate::text::{push_str, chars_of};

verus! {

/// The value of the first secret with identifier `id` (empty if there is none).
pub open spec fn secret_value_of(secrets: Seq<Secret>, id: u128) -> Seq<char> {
    match first_with_ident(secrets, id) {
        Some(i) => secrets[i].value.inner()@,
        None => Seq::empty(),
    }
}

/// Mapping `k` of `ms` names a secret that `secrets` lacks.
pub open spec fn dangling(secrets: Seq<Secret>, ms: Seq<EnvMapping>, k: int) -> bool {
    0 <= k < ms.len() && !has_ident(secrets, ms[k].secret_id)
}

/// The message for a mapping whose secret is missing.
pub open spec fn msg_dangling(m: EnvMapping) -> Seq<char> {
    "Secret with id '"@ + uuid_text(m.secret_id) + "' not found (referenced by mapping '"@
        + m.local_key@ + "')"@
}

/// `r` is the error for the first mapping of `ms` whose secret is missing.
pub open spec fn fails_at_first_dangling<T>(secrets: Seq<Secret>, ms: Seq<EnvMapping>, r: Result<T, EnvlyError>) -> bool {
    exists|k: int| #[trigger] dangling(secrets, ms, k)
        && (forall|j: int| 0 <= j < k ==> !dangling(secrets, ms, j))
        && is_validation_err(r, msg_dangling(ms[k]))
}

/// What `resolve_environment` answers for the mappings `ms`: each mapping's local
/// key with its secret's value, in order; or the error for the first mapping
/// whose secret is missing.
pub open spec fn resolution_ok(secrets: Seq<Secret>, ms: Seq<EnvMapping>, r: Seq<(String, String)>) -> bool {
    &&& r.len() == ms.len()
    &&& forall|k: int| 0 <= k < ms.len() ==> {
        &&& (#[trigger] r[k]).0@ == ms[k].local_key@
        &&& r[k].1@ == secret_value_of(secrets, ms[k].secret_id)
    }
}

/// What resolving environment `env_id` of the first project with identifier
/// `project_id` answers: the project's and the environment's absence are
/// errors; else each mapping's local key with its secret's value, in order, or
/// the error for the first mapping whose secret is missing.
pub open spec fn resolve_outcome(vault: Vault, project_id: u128, env_id: u128, r: Result<Vec<(String, String)>, EnvlyError>) -> bool {
    match first_with_ident(vault.projects@, project_id) {
        None => is_validation_err(r, msg_not_found("Project"@, project_id)),
        Some(i) => match first_with_ident(vault.projects@[i].environments@, env_id) {
            None => is_validation_err(r, msg_not_found("Environment"@, env_id)),
            Some(e) => mappings_outcome(vault.secrets@, vault.projects@[i].environments@[e].mappings@, r),
        },
    }
}

/// What resolving the mappings `ms` answers.
pub open spec fn mappings_outcome(secrets: Seq<Secret>, ms: Seq<EnvMapping>, r: Result<Vec<(String, String)>, EnvlyError>) -> bool {
    &&& r is Ok <==> (forall|k: int| !dangling(secrets, ms, k))
    &&& r matches Ok(v) ==> resolution_ok(secrets, ms, v@)
    &&& r is Err ==> fails_at_first_dangling(secrets, ms, r)
}

/// Resolves the mappings of environment `env_id` of the first project with
/// identifier `project_id` into (local key, secret value) pairs, in order.
pub fn resolve_environment(vault: &Vault, project_id: u128, env_id: u128) -> (r: Result<Vec<(String, String)>, EnvlyError>)
    ensures
        resolve_outcome(*vault, project_id, env_id, r),
{
    let pi = match position_of(&vault.projects, project_id) {
        Some(i) => i,
        None => {
            return Err(EnvlyError::Validation(not_found_msg("Project", project_id)));
        },
    };
    let project = &vault.projects[pi];
    let ei = match position_of(&project.environments, env_id) {
        Some(k) => k,
        None => {
            return Err(EnvlyError::Validation(not_found_msg("Environment", env_id)));
        },
    };
    let env = &project.environments[ei];
    let ghost ms = env.mappings@;
    let mut resolved: Vec<(String, String)> = Vec::with_capacity(env.mappings.len());
    let mut k: usize = 0;
    while k < env.mappings.len()
        invariant
            ms == env.mappings@,
            pi < vault.projects@.len(),
            ei < vault.projects@[pi as int].environments@.len(),
            first_with_ident(vault.projects@, project_id) == Some(pi as int),
            first_with_ident(vault.projects@[pi as int].environments@, env_id) == Some(ei as int),
            ms == vault.projects@[pi as int].environments@[ei as int].mappings@,
            k <= ms.len(),
            resolved@.len() == k,
            forall|j: int| 0 <= j < k ==> !dangling(vault.secrets@, ms, j),
            forall|j: int| 0 <= j < k ==> {
                &&& (#[trigger] resolved@[j]).0@ == ms[j].local_key@
                &&& resolved@[j].1@ == secret_value_of(vault.secrets@, ms[j].secret_id)
            },
        decreases ms.len() - k,
    {
        let mapping = &env.mappings[k];
        let si = match position_of(&vault.secrets, mapping.secret_id) {
            Some(i) => i,
            None => {
                let mut m = String::new();
                push_str(&mut m, "Secret with id '");
                let u = uuid_string(mapping.secret_id);
                push_str(&mut m, u.as_str());
                push_str(&mut m, "' not found (referenced by mapping '");
                push_str(&mut m, mapping.local_key.as_str());
                push_str(&mut m, "')");
                proof {
                    assert(m@ =~= msg_dangling(ms[k as int]));
                    assert(dangling(vault.secrets@, ms, k as int));
                }
                let r: Result<Vec<(String, String)>, EnvlyError> = Err(EnvlyError::Validation(m));
                proof {
                    assert(is_validation_err(r, msg_dangling(ms[k as int])));
                    assert(!(forall|j: int| !dangling(vault.secrets@, ms, j)));
                    assert(fails_at_first_dangling(vault.secrets@, ms, r));
                    assert(first_with_ident(vault.projects@, project_id) == Some(pi as int));
                    assert(first_with_ident(vault.projects@[pi as int].environments@, env_id) == Some(ei as int));
                    assert(r is Err);
                    assert(mappings_outcome(vault.secrets@, ms, r));
                }
                return r;
            },
        };
        let value = vault.secrets[si].value.as_inner().clone();
        resolved.push((mapping.local_key.clone(), value));
        k = k + 1;
    }
    proof {
        assert forall|j: int| !dangling(vault.secrets@, ms, j) by {
            if 0 <= j < ms.len() {
                assert(j < k);
            }
        }
    }
    let r: Result<Vec<(String, String)>, EnvlyError> = Ok(resolved);
    proof {
        assert(mappings_outcome(vault.secrets@, ms, r));
    }
    r
}

/// In a consistent vault, resolving an environment fails only when the project
/// or the environment is not there.
pub proof fn lemma_resolve_consistent(vault: Vault, i: int, e: int)
    requires
        vault.consistent(),
        0 <= i < vault.projects@.len(),
        0 <= e < vault.projects@[i].environments@.len(),
    ensures
        forall|k: int| !dangling(vault.secrets@, vault.projects@[i].environments@[e].mappings@, k),
{
    assert(project_consistent(vault.projects@[i], vault.secrets@));
    assert(env_consistent(vault.projects@[i].environments@[e], vault.secrets@));
    let ms = vault.projects@[i].environments@[e].mappings@;
    assert forall|k: int| !dangling(vault.secrets@, ms, k) by {
        if 0 <= k < ms.len() {
            assert(has_ident(vault.secrets@, ms[k].secret_id));
        }
    }
}

// ---- the text of a .env file ----

/// The text of the `.env` file for the mappings `ms`: one line per mapping,
/// its local key and the value of the secret it names.
pub open spec fn mappings_text(secrets: Seq<Secret>, ms: Seq<EnvMapping>) -> Seq<char>
    decreases ms.len(),
{
    if ms.len() == 0 {
        Seq::empty()
    } else {
        mappings_text(secrets, ms.drop_last()) + env_line(
            ms.last().local_key@,
            secret_value_of(secrets, ms.last().secret_id),
        )
    }
}

/// The file written from a resolution of `ms` is the text of `ms`.
pub proof fn lemma_resolved_text(secrets: Seq<Secret>, ms: Seq<EnvMapping>, r: Seq<(String, String)>)
    requires
        resolution_ok(secrets, ms, r),
    ensures
        env_file_text(r) == mappings_text(secrets, ms),
    decreases ms.len(),
{
    if ms.len() > 0 {
        let r2 = r.drop_last();
        let m2 = ms.drop_last();
        assert forall|k: int| 0 <= k < m2.len() implies {
            &&& (#[trigger] r2[k]).0@ == m2[k].local_key@
            &&& r2[k].1@ == secret_value_of(secrets, m2[k].secret_id)
        } by {
            assert(r2[k] == r[k] && m2[k] == ms[k]);
        }
        lemma_resolved_text(secrets, m2, r2);
        assert(r.last() == r[r.len() - 1]);
    }
}

/// Whether `v` must be written between double quotes.
pub open spec fn needs_quoting_spec(v: Seq<char>) -> bool {
    ||| v.len() == 0
    ||| v.contains(' ')
    ||| v.contains('\n')
    ||| v.contains('\r')
    ||| v.contains('#')
    ||| v.contains('"')
    ||| v.contains('\'')
    ||| v.contains('\\')
    ||| v.contains('=')
}

/// How one character is written inside double quotes.
pub open spec fn escape_char(c: char) -> Seq<char> {
    if c == '\\' {
        seq!['\\', '\\']
    } else if c == '"' {
        seq!['\\', '"']
    } else if c == '\n' {
        seq!['\\', 'n']
    } else if c == '\r' {
        seq!['\\', 'r']
    } else {
        seq![c]
    }
}

/// How a value is written inside double quotes.
pub open spec fn escape(v: Seq<char>) -> Seq<char>
    decreases v.len(),
{
    if v.len() == 0 {
        Seq::empty()
    } else {
        escape(v.drop_last()) + escape_char(v.last())
    }
}

/// The line that declares `key` with value `value`.
pub open spec fn env_line(key: Seq<char>, value: Seq<char>) -> Seq<char> {
    if needs_quoting_spec(value) {
        key + "=\""@ + escape(value) + "\"\n"@
    } else {
        key + "="@ + value + "\n"@
    }
}

/// The text of a `.env` file declaring `pairs`, one line each, in order.
pub open spec fn env_file_text(pairs: Seq<(String, String)>) -> Seq<char>
    decreases pairs.len(),
{
    if pairs.len() == 0 {
        Seq::empty()
    } else {
        env_file_text(pairs.drop_last()) + env_line(pairs.last().0@, pairs.last().1@)
    }
}

/// Whether `value` must be written between double quotes: it is empty or holds
/// a space, a line break, `#`, a quote, a backslash or `=`.
pub fn needs_quoting(value: &str) -> (b: bool)
    ensures
        b == needs_quoting_spec(value@),
{
    let v = chars_of(value);
    let mut i: usize = 0;
    while i < v.len()
        invariant
            v@ == value@,
            i <= v.len(),
            forall|j: int| 0 <= j < i ==> {
                let c = #[trigger] v@[j];
                c != ' ' && c != '\n' && c != '\r' && c != '#' && c != '"' && c != '\'' && c != '\\' && c != '='
            },
        decreases v.len() - i,
    {
        let c = v[i];
        if c == ' ' || c == '\n' || c == '\r' || c == '#' || c == '"' || c == '\'' || c == '\\' || c == '=' {
            assert(v@[i as int] == c);
            return true;
        }
        i = i + 1;
    }
    proof {
        assert(!value@.contains(' ') && !value@.contains('\n') && !value@.contains('\r')
            && !value@.contains('#') && !value@.contains('"') && !value@.contains('\'')
            && !value@.contains('\\') && !value@.contains('=')) by {
            assert forall|c: char| #[trigger] value@.contains(c) implies c != ' ' && c != '\n' && c
                != '\r' && c != '#' && c != '"' && c != '\'' && c != '\\' && c != '=' by {
                let j = choose|j: int| 0 <= j < value@.len() && value@[j] == c;
                assert(v@[j] == c);
            }
        }
    }
    v.len() == 0
}

/// Appends `value` written inside double quotes (without the quotes).
fn push_escaped(out: &mut String, value: &str)
    ensures
        final(out)@ == old(out)@ + escape(value@),
{
    let v = chars_of(value);
    let ghost o = out@;
    let mut i: usize = 0;
    while i < v.len()
        invariant
            v@ == value@,
            i <= v.len(),
            out@ == o + escape(v@.subrange(0, i as int)),
        decreases v.len() - i,
    {
        let c = v[i];
        if c == '\\' {
            out.push('\\');
            out.push('\\');
        } else if c == '"' {
            out.push('\\');
            out.push('"');
        } else if c == '\n' {
            out.push('\\');
            out.push('n');
        } else if c == '\r' {
            out.push('\\');
            out.push('r');
        } else {
            out.push(c);
        }
        proof {
            let s1 = v@.subrange(0, i + 1);
            assert(s1.drop_last() =~= v@.subrange(0, i as int));
            assert(s1.last() == c);
            assert(out@ =~= o + escape(s1));
        }
        i = i + 1;
    }
    proof {
        assert(v@.subrange(0, v@.len() as int) =~= v@);
    }
}

/// The text of a `.env` file that declares each pair on a line of its own:
/// `KEY=value`, or `KEY="escaped value"` where the value needs quoting.
pub fn format_env_file(resolved: &[(String, String)]) -> (s: String)
    ensures
        s@ == env_file_text(resolved@),
{
    let mut out = String::new();
    let mut k: usize = 0;
    while k < resolved.len()
        invariant
            k <= resolved@.len(),
            out@ == env_file_text(resolved@.subrange(0, k as int)),
        decreases resolved@.len() - k,
    {
        let ghost before = out@;
        let key = &resolved[k].0;
        let value = &resolved[k].1;
        push_str(&mut out, key.as_str());
        if needs_quoting(value.as_str()) {
            push_str(&mut out, "=\"");
            push_escaped(&mut out, value.as_str());
            push_str(&mut out, "\"\n");
        } else {
            push_str(&mut out, "=");
            push_str(&mut out, value.as_str());
            push_str(&mut out, "\n");
        }
        proof {
            let p1 = resolved@.subrange(0, k + 1);
            assert(p1.drop_last() =~= resolved@.subrange(0, k as int));
            assert(p1.last() == resolved@[k as int]);
            assert(out@ =~= before + env_line(key@, value@));
        }
        k = k + 1;
    }
    proof {
        assert(resolved@.subrange(0, resolved@.len() as int) =~= resolved@);
    }
    out
}

} // verus!
