//! Environment commands: listing, creating, changing, deleting, activating
//! and cloning environments, and adding and removing their mappings. A
//! command that changes what an active environment resolves to says which
//! `.env` link must be written again.

use vstd::prelude::*;
use crate::error::{EnvlyError, error_text, map_err};
use crate::ids::{Timestamp, uuid_string, uuid_text, utc_now};
use crate::seqs::{
    Identified, Labelled, has_ident, has_label, has_label_except, first_with_ident, without_ident,
    labels_unique, labels_differ, pairwise, position_of, lemma_first_with_ident,
    lemma_same_idents_first,
};
use crate::models::{
    Vault, Project, Environment, EnvMapping, Secret, msg_not_found, msg_env_exists, only_at,
    project_consistent, env_consistent, same_project_header, idents_unique, env_fits,
    not_both_active, at_most_one_active, lemma_update_project, ident_at_most_once,
    env_with_active,
};
use crate::resolver::{
    resolve_environment, format_env_file, mappings_text, lemma_resolved_text, dangling,
    msg_dangling, secret_value_of, lemma_resolve_consistent,
};
use crate::text::{is_blank, push_str};
use crate::commands::{validation_text, fails_with, report};
use crate::commands::projects::{copy_mappings, mappings_copied, lemma_copied_env_consistent};

verus! {

/// The `.env` text for environment `e` of project `i`.
pub open spec fn link_content(vault: Vault, i: int, e: int) -> Seq<char> {
    mappings_text(vault.secrets@, vault.projects@[i].environments@[e].mappings@)
}

/// `t` asks to write `content` as the `.env` link of project `p`: its
/// folder, its environment file name and the content.
pub open spec fn writes_link(t: (String, String, String), p: Project, content: Seq<char>) -> bool {
    t.0 == p.folder_path && t.1 == p.env_filename && t.2@ == content
}

/// `r` failed with the error for the first mapping of `ms` whose secret is missing.
pub open spec fn reports_first_dangling<T>(secrets: Seq<Secret>, ms: Seq<EnvMapping>, r: Result<T, String>) -> bool {
    exists|k: int|
        #[trigger] dangling(secrets, ms, k) && (forall|j: int| 0 <= j < k ==> !dangling(secrets, ms, j))
            && fails_with(r, validation_text(msg_dangling(ms[k])))
}

/// What resolving environment `env_id` of project `i` and writing its link
/// gives: the link to write, or the error for a mapping whose secret is missing.
pub open spec fn link_outcome(vault: Vault, i: int, env_id: u128, r: Result<(String, String, String), String>) -> bool {
    match first_with_ident(vault.projects@[i].environments@, env_id) {
        Some(e) => if forall|k: int| !dangling(vault.secrets@, vault.projects@[i].environments@[e].mappings@, k) {
            r matches Ok(t) && writes_link(t, vault.projects@[i], link_content(vault, i, e))
        } else {
            reports_first_dangling(vault.secrets@, vault.projects@[i].environments@[e].mappings@, r)
        },
        None => fails_with(r, validation_text(msg_not_found("Environment"@, env_id))),
    }
}

/// Some environment of `envs` has identifier `id` and is active.
pub open spec fn active_with(envs: Seq<Environment>, id: u128) -> bool {
    exists|k: int| 0 <= k < envs.len() && (#[trigger] envs[k]).id == id && envs[k].is_active
}

/// Resolves environment `env_id` of project `project_id` into the link to write.
fn link_for(vault: &Vault, project_id: u128, env_id: u128, pi: usize) -> (r: Result<(String, String, String), String>)
    requires
        first_with_ident(vault.projects@, project_id) == Some(pi as int),
    ensures
        link_outcome(*vault, pi as int, env_id, r),
{
    proof {
        lemma_first_with_ident(vault.projects@, project_id);
    }
    let resolved = match resolve_environment(vault, project_id, env_id) {
        Ok(v) => v,
        Err(e) => {
            return Err(map_err(e));
        },
    };
    let content = format_env_file(resolved.as_slice());
    proof {
        let e = first_with_ident(vault.projects@[pi as int].environments@, env_id)->Some_0;
        lemma_resolved_text(
            vault.secrets@,
            vault.projects@[pi as int].environments@[e].mappings@,
            resolved@,
        );
    }
    Ok((vault.projects[pi].folder_path.clone(), vault.projects[pi].env_filename.clone(), content))
}

/// When environment `env_id` of project `project_id` is active, the link
/// that must be written again for it.
pub fn refresh_active_symlink(vault: &Vault, project_id: u128, env_id: u128) -> (r: Result<
    Option<(String, String, String)>,
    String,
>)
    ensures
        match first_with_ident(vault.projects@, project_id) {
            None => fails_with(r, "Project not found"@),
            Some(i) => if active_with(vault.projects@[i].environments@, env_id) {
                match r {
                    Ok(Some(t)) => link_outcome(*vault, i, env_id, Ok(t)),
                    Ok(None) => false,
                    Err(m) => link_outcome(*vault, i, env_id, Err(m)),
                }
            } else {
                r matches Ok(x) && x is None
            },
        },
{
    proof {
        reveal_strlit("Project not found");
    }
    let pi = match position_of(&vault.projects, project_id) {
        Some(i) => i,
        None => {
            return Err(String::from_str("Project not found"));
        },
    };
    let envs = &vault.projects[pi].environments;
    let mut is_active = false;
    let mut k: usize = 0;
    while k < envs.len()
        invariant
            envs@ == vault.projects@[pi as int].environments@,
            k <= envs@.len(),
            is_active <==> exists|j: int| 0 <= j < k && (#[trigger] envs@[j]).id == env_id && envs@[j].is_active,
        decreases envs.len() - k,
    {
        if envs[k].id == env_id && envs[k].is_active {
            is_active = true;
        }
        k = k + 1;
    }
    if !is_active {
        return Ok(None);
    }
    match link_for(vault, project_id, env_id, pi) {
        Ok(t) => Ok(Some(t)),
        Err(m) => Err(m),
    }
}

/// What an environment list shows of an environment.
pub struct EnvironmentSummary {
    pub id: u128,
    pub name: String,
    pub description: String,
    pub is_active: bool,
    pub mapping_count: usize,
    pub created_at: Timestamp,
    pub updated_at: Timestamp,
}

/// `s` shows environment `e`.
pub open spec fn env_summarizes(s: EnvironmentSummary, e: Environment) -> bool {
    &&& s.id == e.id
    &&& s.name == e.name
    &&& s.description == e.description
    &&& s.is_active == e.is_active
    &&& s.mapping_count == e.mappings@.len()
    &&& s.created_at == e.created_at
    &&& s.updated_at == e.updated_at
}

impl EnvironmentSummary {
    /// The summary of `e`.
    pub fn from(e: &Environment) -> (s: Self)
        ensures
            env_summarizes(s, *e),
    {
        EnvironmentSummary {
            id: e.id,
            name: e.name.clone(),
            description: e.description.clone(),
            is_active: e.is_active,
            mapping_count: e.mappings.len(),
            created_at: e.created_at,
            updated_at: e.updated_at,
        }
    }
}

/// What a mapping list shows of a mapping: also the key of the secret it
/// names, or `[deleted]` when that secret is gone.
pub struct MappingSummary {
    pub id: u128,
    pub local_key: String,
    pub secret_id: u128,
    pub secret_key: String,
    pub notes: String,
}

/// `s` shows mapping `m` of a vault whose secrets are `secrets`.
pub open spec fn mapping_summarizes(s: MappingSummary, m: EnvMapping, secrets: Seq<Secret>) -> bool {
    &&& s.id == m.id
    &&& s.local_key == m.local_key
    &&& s.secret_id == m.secret_id
    &&& s.secret_key@ == (match first_with_ident(secrets, m.secret_id) {
        Some(k) => secrets[k].key@,
        None => "[deleted]"@,
    })
    &&& s.notes == m.notes
}

/// "`<what>` with id '`<uuid>`' not found", as a command reports it.
pub open spec fn missing_text(what: Seq<char>, id: u128) -> Seq<char> {
    what + " with id '"@ + uuid_text(id) + "' not found"@
}

/// The text "`<what>` with id '`<uuid>`' not found".
pub fn missing(what: &str, id: u128) -> (s: String)
    ensures
        s@ == missing_text(what@, id),
{
    let mut s = String::new();
    push_str(&mut s, what);
    push_str(&mut s, " with id '");
    let u = uuid_string(id);
    push_str(&mut s, u.as_str());
    push_str(&mut s, "' not found");
    proof {
        assert(s@ =~= missing_text(what@, id));
    }
    s
}

/// The summaries of the environments of project `project_id`, in order.
pub fn list_environments(vault: &Vault, project_id: u128) -> (r: Result<Vec<EnvironmentSummary>, String>)
    ensures
        match first_with_ident(vault.projects@, project_id) {
            Some(i) => r matches Ok(v) && v@.len() == vault.projects@[i].environments@.len()
                && forall|k: int|
                0 <= k < v@.len() ==> env_summarizes(
                    #[trigger] v@[k],
                    vault.projects@[i].environments@[k],
                ),
            None => fails_with(r, missing_text("Project"@, project_id)),
        },
{
    let project = match vault.find_project(project_id) {
        Some(p) => p,
        None => {
            return Err(missing("Project", project_id));
        },
    };
    let mut v: Vec<EnvironmentSummary> = Vec::new();
    let mut k: usize = 0;
    while k < project.environments.len()
        invariant
            k <= project.environments@.len(),
            v@.len() == k,
            forall|j: int| 0 <= j < k ==> env_summarizes(#[trigger] v@[j], project.environments@[j]),
        decreases project.environments.len() - k,
    {
        v.push(EnvironmentSummary::from(&project.environments[k]));
        k = k + 1;
    }
    Ok(v)
}

/// The summaries of the mappings of environment `env_id` of project
/// `project_id`, in order.
pub fn list_mappings(vault: &Vault, project_id: u128, env_id: u128) -> (r: Result<Vec<MappingSummary>, String>)
    ensures
        match first_with_ident(vault.projects@, project_id) {
            Some(i) => match first_with_ident(vault.projects@[i].environments@, env_id) {
                Some(e) => r matches Ok(v) && v@.len()
                    == vault.projects@[i].environments@[e].mappings@.len() && forall|k: int|
                    0 <= k < v@.len() ==> mapping_summarizes(
                        #[trigger] v@[k],
                        vault.projects@[i].environments@[e].mappings@[k],
                        vault.secrets@,
                    ),
                None => fails_with(r, missing_text("Environment"@, env_id)),
            },
            None => fails_with(r, missing_text("Project"@, project_id)),
        },
{
    proof {
        reveal_strlit("[deleted]");
    }
    let project = match vault.find_project(project_id) {
        Some(p) => p,
        None => {
            return Err(missing("Project", project_id));
        },
    };
    let env = match position_of(&project.environments, env_id) {
        Some(e) => &project.environments[e],
        None => {
            return Err(missing("Environment", env_id));
        },
    };
    let mut v: Vec<MappingSummary> = Vec::new();
    let mut k: usize = 0;
    while k < env.mappings.len()
        invariant
            k <= env.mappings@.len(),
            v@.len() == k,
            forall|j: int|
                0 <= j < k ==> mapping_summarizes(#[trigger] v@[j], env.mappings@[j], vault.secrets@),
        decreases env.mappings.len() - k,
    {
        let m = &env.mappings[k];
        let secret_key = match vault.find_secret(m.secret_id) {
            Some(s) => s.key.clone(),
            None => String::from_str("[deleted]"),
        };
        v.push(
            MappingSummary {
                id: m.id,
                local_key: m.local_key.clone(),
                secret_id: m.secret_id,
                secret_key,
                notes: m.notes.clone(),
            },
        );
        k = k + 1;
    }
    Ok(v)
}

/// What a new environment is made of.
pub struct CreateEnvironmentArgs {
    pub project_id: u128,
    pub name: String,
    pub description: String,
}

/// `e` is a fresh inactive environment with the given name and description
/// and no mappings.
pub open spec fn fresh_env(e: Environment, name: String, description: String) -> bool {
    &&& e.name == name
    &&& e.description == description
    &&& !e.is_active
    &&& e.mappings@.len() == 0
    &&& e.created_at == e.updated_at
}

/// The outcome of adding environment `env` to project `project_id` of `old`,
/// as a command reports it, with `new` the vault after.
pub open spec fn env_added(old: Vault, new: Vault, project_id: u128, env: Environment, r: Result<u128, String>) -> bool {
    if is_blank(env.name@) {
        fails_with(r, validation_text("Environment name cannot be empty"@))
    } else {
        match first_with_ident(old.projects@, project_id) {
            None => fails_with(r, validation_text(msg_not_found("Project"@, project_id))),
            Some(i) => if has_label(old.projects@[i].environments@, env.name@) {
                fails_with(r, validation_text(msg_env_exists(env.name@, old.projects@[i].name@)))
            } else {
                &&& r == Ok::<u128, String>(env.id)
                &&& only_at(old.projects@, new.projects@, i)
                &&& same_project_header(old.projects@[i], new.projects@[i])
                &&& new.projects@[i].environments@ == old.projects@[i].environments@.push(env)
            },
        }
    }
}

/// Creates an environment in project `args.project_id`; gives its identifier.
pub fn create_environment(vault: &mut Vault, args: CreateEnvironmentArgs) -> (r: Result<u128, String>)
    ensures
        final(vault).cipher_kind == old(vault).cipher_kind,
        final(vault).cipher_version == old(vault).cipher_version,
        exists|env: Environment|
            fresh_env(env, args.name, args.description) && #[trigger] env_added(
                *old(vault),
                *final(vault),
                args.project_id,
                env,
                r,
            ),
        r is Err ==> *final(vault) == *old(vault),
        final(vault).secrets == old(vault).secrets,
        old(vault).consistent() ==> final(vault).consistent(),
{
    let mut env = Environment::new(args.name);
    env.description = args.description;
    let id = env.id;
    let ghost e = env;
    let r = vault.add_environment(args.project_id, env);
    proof {
        reveal_strlit("Environment name cannot be empty");
        assert(env_fits(*old(vault), args.project_id, e));
    }
    let out = match r {
        Ok(()) => Ok(id),
        Err(x) => Err(map_err(x)),
    };
    proof {
        assert(env_added(*old(vault), *final(vault), args.project_id, e, out));
    }
    out
}

/// Which fields of an environment to change.
pub struct UpdateEnvironmentArgs {
    pub project_id: u128,
    pub env_id: u128,
    pub name: Option<String>,
    pub description: Option<String>,
}

/// `n` is environment `o` with the fields that `args` gives replaced, and
/// its update time set anew.
pub open spec fn env_changed(o: Environment, n: Environment, args: UpdateEnvironmentArgs) -> bool {
    &&& n.id == o.id
    &&& n.name == (match args.name {
        Some(x) => x,
        None => o.name,
    })
    &&& n.description == (match args.description {
        Some(x) => x,
        None => o.description,
    })
    &&& n.is_active == o.is_active
    &&& n.mappings == o.mappings
    &&& n.created_at == o.created_at
}

/// Changes the fields of environment `args.env_id` of project
/// `args.project_id` that `args` gives; a new name must not be used by
/// another environment of the project.
pub fn update_environment(vault: &mut Vault, args: UpdateEnvironmentArgs) -> (r: Result<(), String>)
    ensures
        final(vault).cipher_kind == old(vault).cipher_kind,
        final(vault).cipher_version == old(vault).cipher_version,
        match first_with_ident(old(vault).projects@, args.project_id) {
            None => if args.name is Some {
                fails_with(r, validation_text(msg_not_found("Project"@, args.project_id)))
            } else {
                fails_with(r, "Project not found"@)
            },
            Some(i) => if args.name matches Some(n) && has_label_except(
                old(vault).projects@[i].environments@,
                n@,
                args.env_id,
            ) {
                fails_with(
                    r,
                    validation_text(
                        msg_env_exists(args.name->Some_0@, old(vault).projects@[i].name@),
                    ),
                )
            } else {
                match first_with_ident(old(vault).projects@[i].environments@, args.env_id) {
                    None => fails_with(r, "Environment not found"@),
                    Some(k) => {
                        &&& r is Ok
                        &&& only_at(old(vault).projects@, final(vault).projects@, i)
                        &&& same_project_header(old(vault).projects@[i], final(vault).projects@[i])
                        &&& only_at(
                            old(vault).projects@[i].environments@,
                            final(vault).projects@[i].environments@,
                            k,
                        )
                        &&& env_changed(
                            old(vault).projects@[i].environments@[k],
                            final(vault).projects@[i].environments@[k],
                            args,
                        )
                    },
                }
            },
        },
        r is Err ==> *final(vault) == *old(vault),
        final(vault).secrets == old(vault).secrets,
        old(vault).consistent() && (forall|i: int|
            first_with_ident(old(vault).projects@, args.project_id) == Some(i) ==> idents_unique(
                #[trigger] old(vault).projects@[i].environments@,
            )) ==> final(vault).consistent(),
{
    proof {
        reveal_strlit("Project not found");
        reveal_strlit("Environment not found");
    }
    if let Some(name) = &args.name {
        if let Err(e) = vault.ensure_env_name_unique(args.project_id, name.as_str(), args.env_id) {
            return Err(map_err(e));
        }
    }
    let ghost old_vault = *vault;
    let pi = match position_of(&vault.projects, args.project_id) {
        Some(i) => i,
        None => {
            return Err(String::from_str("Project not found"));
        },
    };
    let ei = match position_of(&vault.projects[pi].environments, args.env_id) {
        Some(k) => k,
        None => {
            return Err(String::from_str("Environment not found"));
        },
    };
    let now = utc_now();
    if let Some(name) = args.name {
        vault.projects[pi].environments[ei].name = name;
    }
    if let Some(desc) = args.description {
        vault.projects[pi].environments[ei].description = desc;
    }
    vault.projects[pi].environments[ei].updated_at = now;
    proof {
        let s = old_vault.projects@;
        let t = vault.projects@;
        let oe = s[pi as int].environments@;
        let ne = t[pi as int].environments@;
        lemma_first_with_ident(oe, args.env_id);
        if old_vault.consistent() && idents_unique(oe) {
            assert(project_consistent(s[pi as int], old_vault.secrets@));
            assert forall|a: int, b: int| 0 <= a < b < ne.len() implies (labels_differ::<
                Environment,
            >())(#[trigger] ne[a], #[trigger] ne[b]) by {
                if a == ei {
                    assert(ne[b] == oe[b]);
                    assert(oe[b].id != args.env_id);
                } else if b == ei {
                    assert(ne[a] == oe[a]);
                    assert(oe[a].id != args.env_id);
                } else {
                    assert(ne[a] == oe[a] && ne[b] == oe[b]);
                    assert((labels_differ::<Environment>())(oe[a], oe[b]));
                }
            }
            assert forall|a: int, b: int| 0 <= a < b < ne.len() implies (not_both_active())(
                #[trigger] ne[a],
                #[trigger] ne[b],
            ) by {
                assert(ne[a].is_active == oe[a].is_active && ne[b].is_active == oe[b].is_active);
                assert((not_both_active())(oe[a], oe[b]));
            }
            assert forall|e: int| 0 <= e < ne.len() implies env_consistent(
                #[trigger] ne[e],
                vault.secrets@,
            ) by {
                assert(ne[e].mappings == oe[e].mappings);
                assert(env_consistent(oe[e], old_vault.secrets@));
            }
            lemma_update_project(s, t, pi as int, vault.secrets@);
        }
    }
    Ok(())
}

/// The folder and environment file name of project `project_id` when its
/// environment `env_id` is active: that link must be removed before the
/// environment is deleted.
pub fn active_link_of_env(vault: &Vault, project_id: u128, env_id: u128) -> (r: Result<
    Option<(String, String)>,
    String,
>)
    ensures
        match first_with_ident(vault.projects@, project_id) {
            None => fails_with(r, missing_text("Project"@, project_id)),
            Some(i) => match first_with_ident(vault.projects@[i].environments@, env_id) {
                Some(k) => if vault.projects@[i].environments@[k].is_active {
                    r matches Ok(Some(l)) && l.0 == vault.projects@[i].folder_path && l.1
                        == vault.projects@[i].env_filename
                } else {
                    r matches Ok(x) && x is None
                },
                None => r matches Ok(x) && x is None,
            },
        },
{
    let project = match vault.find_project(project_id) {
        Some(p) => p,
        None => {
            return Err(missing("Project", project_id));
        },
    };
    match position_of(&project.environments, env_id) {
        Some(k) => {
            if project.environments[k].is_active {
                Ok(Some((project.folder_path.clone(), project.env_filename.clone())))
            } else {
                Ok(None)
            }
        },
        None => Ok(None),
    }
}

/// Deletes environment `env_id` of project `project_id`.
pub fn delete_environment(vault: &mut Vault, project_id: u128, env_id: u128) -> (r: Result<(), String>)
    ensures
        final(vault).cipher_kind == old(vault).cipher_kind,
        final(vault).cipher_version == old(vault).cipher_version,
        match first_with_ident(old(vault).projects@, project_id) {
            None => fails_with(r, validation_text(msg_not_found("Project"@, project_id))),
            Some(i) => if has_ident(old(vault).projects@[i].environments@, env_id) {
                &&& r is Ok
                &&& only_at(old(vault).projects@, final(vault).projects@, i)
                &&& same_project_header(old(vault).projects@[i], final(vault).projects@[i])
                &&& final(vault).projects@[i].environments@ == without_ident(
                    old(vault).projects@[i].environments@,
                    env_id,
                )
            } else {
                fails_with(r, validation_text(msg_not_found("Environment"@, env_id)))
            },
        },
        r is Err ==> *final(vault) == *old(vault),
        final(vault).secrets == old(vault).secrets,
        old(vault).consistent() ==> final(vault).consistent(),
{
    report(vault.remove_environment(project_id, env_id))
}

/// Makes environment `env_id` the only active one of project `project_id`,
/// and gives the link to write for it.
pub fn activate_environment(vault: &mut Vault, project_id: u128, env_id: u128) -> (r: Result<
    (String, String, String),
    String,
>)
    ensures
        final(vault).cipher_kind == old(vault).cipher_kind,
        final(vault).cipher_version == old(vault).cipher_version,
        match first_with_ident(old(vault).projects@, project_id) {
            None => fails_with(r, validation_text(msg_not_found("Project"@, project_id)))
                && *final(vault) == *old(vault),
            Some(i) => if has_ident(old(vault).projects@[i].environments@, env_id) {
                &&& only_at(old(vault).projects@, final(vault).projects@, i)
                &&& same_project_header(old(vault).projects@[i], final(vault).projects@[i])
                &&& final(vault).projects@[i].environments@.len()
                    == old(vault).projects@[i].environments@.len()
                &&& forall|k: int|
                    0 <= k < old(vault).projects@[i].environments@.len() ==> env_with_active(
                        old(vault).projects@[i].environments@[k],
                        #[trigger] final(vault).projects@[i].environments@[k],
                        old(vault).projects@[i].environments@[k].id == env_id,
                    )
                &&& link_outcome(*final(vault), i, env_id, r)
            } else {
                fails_with(r, validation_text(msg_not_found("Environment"@, env_id)))
                    && *final(vault) == *old(vault)
            },
        },
        final(vault).secrets == old(vault).secrets,
        old(vault).consistent() && (forall|i: int|
            first_with_ident(old(vault).projects@, project_id) == Some(i) ==> ident_at_most_once(
                #[trigger] old(vault).projects@[i].environments@,
                env_id,
            )) ==> final(vault).consistent(),
{
    if let Err(e) = vault.activate_environment(project_id, env_id) {
        return Err(map_err(e));
    }
    proof {
        lemma_first_with_ident(old(vault).projects@, project_id);
        let i = first_with_ident(old(vault).projects@, project_id)->Some_0;
        let ops = old(vault).projects@;
        let nps = vault.projects@;
        assert forall|j: int| 0 <= j < ops.len() implies #[trigger] nps[j].ident() == ops[j].ident() by {
            if j != i {
                assert(nps[j] == ops[j]);
            }
        }
        lemma_same_idents_first(ops, nps, project_id);
        let oe = ops[i].environments@;
        let ne = nps[i].environments@;
        assert forall|k: int| 0 <= k < oe.len() implies #[trigger] ne[k].ident() == oe[k].ident() by {
            assert(env_with_active(oe[k], ne[k], oe[k].id == env_id));
        }
        lemma_same_idents_first(oe, ne, env_id);
    }
    let pi = match position_of(&vault.projects, project_id) {
        Some(i) => i,
        None => {
            return Err(String::from_str("Project not found"));
        },
    };
    link_for(vault, project_id, env_id, pi)
}

/// Makes environment `env_id` of project `project_id` inactive, and gives
/// the folder and file name of the link to remove.
pub fn deactivate_environment(vault: &mut Vault, project_id: u128, env_id: u128) -> (r: Result<
    (String, String),
    String,
>)
    ensures
        final(vault).cipher_kind == old(vault).cipher_kind,
        final(vault).cipher_version == old(vault).cipher_version,
        match first_with_ident(old(vault).projects@, project_id) {
            None => fails_with(r, validation_text(msg_not_found("Project"@, project_id))),
            Some(i) => match first_with_ident(old(vault).projects@[i].environments@, env_id) {
                Some(k) => {
                    &&& r matches Ok(l) && l.0 == old(vault).projects@[i].folder_path && l.1
                        == old(vault).projects@[i].env_filename
                    &&& only_at(old(vault).projects@, final(vault).projects@, i)
                    &&& same_project_header(old(vault).projects@[i], final(vault).projects@[i])
                    &&& only_at(
                        old(vault).projects@[i].environments@,
                        final(vault).projects@[i].environments@,
                        k,
                    )
                    &&& env_with_active(
                        old(vault).projects@[i].environments@[k],
                        final(vault).projects@[i].environments@[k],
                        false,
                    )
                },
                None => fails_with(r, validation_text(msg_not_found("Environment"@, env_id))),
            },
        },
        r is Err ==> *final(vault) == *old(vault),
        final(vault).secrets == old(vault).secrets,
        old(vault).consistent() ==> final(vault).consistent(),
{
    if let Err(e) = vault.deactivate_environment(project_id, env_id) {
        return Err(map_err(e));
    }
    proof {
        lemma_first_with_ident(old(vault).projects@, project_id);
        let i = first_with_ident(old(vault).projects@, project_id)->Some_0;
        let ops = old(vault).projects@;
        let nps = vault.projects@;
        assert forall|j: int| 0 <= j < ops.len() implies #[trigger] nps[j].ident() == ops[j].ident() by {
            if j != i {
                assert(nps[j] == ops[j]);
            }
        }
        lemma_same_idents_first(ops, nps, project_id);
    }
    let pi = match position_of(&vault.projects, project_id) {
        Some(i) => i,
        None => {
            return Err(String::from_str("Project not found"));
        },
    };
    Ok((vault.projects[pi].folder_path.clone(), vault.projects[pi].env_filename.clone()))
}

/// What a new mapping is made of.
pub struct AddMappingArgs {
    pub project_id: u128,
    pub env_id: u128,
    pub local_key: String,
    pub secret_id: u128,
    pub notes: String,
}

/// Adds a mapping to environment `args.env_id` of project `args.project_id`;
/// gives its identifier. The caller then writes the environment's link again
/// if it is active (`refresh_active_symlink`).
pub fn add_mapping(vault: &mut Vault, args: AddMappingArgs) -> (r: Result<u128, String>)
    ensures
        final(vault).cipher_kind == old(vault).cipher_kind,
        final(vault).cipher_version == old(vault).cipher_version,
        exists|m: EnvMapping|
            #![trigger m.id]
            m.local_key == args.local_key && m.secret_id == args.secret_id && m.notes == args.notes
                && (r is Ok ==> r == Ok::<u128, String>(m.id)) && (r is Err ==> *final(vault)
                == *old(vault)) && (r is Ok <==> {
                &&& !is_blank(args.local_key@)
                &&& has_ident(old(vault).secrets@, args.secret_id)
                &&& first_with_ident(old(vault).projects@, args.project_id) matches Some(i)
                    && first_with_ident(old(vault).projects@[i].environments@, args.env_id) matches Some(k)
                    && !has_label(old(vault).projects@[i].environments@[k].mappings@, args.local_key@)
            }) && (r is Ok ==> {
                let i = first_with_ident(old(vault).projects@, args.project_id)->Some_0;
                let k = first_with_ident(old(vault).projects@[i].environments@, args.env_id)->Some_0;
                &&& only_at(old(vault).projects@, final(vault).projects@, i)
                &&& same_project_header(old(vault).projects@[i], final(vault).projects@[i])
                &&& only_at(
                    old(vault).projects@[i].environments@,
                    final(vault).projects@[i].environments@,
                    k,
                )
                &&& final(vault).projects@[i].environments@[k].mappings@
                    == old(vault).projects@[i].environments@[k].mappings@.push(m)
            }),
        final(vault).secrets == old(vault).secrets,
        old(vault).consistent() ==> final(vault).consistent(),
{
    let mut mapping = EnvMapping::new(args.local_key, args.secret_id);
    mapping.notes = args.notes;
    let id = mapping.id;
    let ghost m = mapping;
    let r = vault.add_mapping(args.project_id, args.env_id, mapping);
    let out = match r {
        Ok(()) => Ok(id),
        Err(e) => Err(map_err(e)),
    };
    proof {
        if out is Ok {
            let i = first_with_ident(old(vault).projects@, args.project_id)->Some_0;
            lemma_first_with_ident(old(vault).projects@, args.project_id);
            lemma_first_with_ident(old(vault).projects@[i].environments@, args.env_id);
        }
        assert(m.id == id);
    }
    out
}

/// Removes mapping `mapping_id` of environment `env_id` of project
/// `project_id`. The caller then writes the environment's link again if it
/// is active (`refresh_active_symlink`).
pub fn remove_mapping(vault: &mut Vault, project_id: u128, env_id: u128, mapping_id: u128) -> (r:
    Result<(), String>)
    ensures
        final(vault).cipher_kind == old(vault).cipher_kind,
        final(vault).cipher_version == old(vault).cipher_version,
        r is Ok <==> (first_with_ident(old(vault).projects@, project_id) matches Some(i)
            && first_with_ident(old(vault).projects@[i].environments@, env_id) matches Some(k)
            && has_ident(old(vault).projects@[i].environments@[k].mappings@, mapping_id)),
        r is Ok ==> {
            let i = first_with_ident(old(vault).projects@, project_id)->Some_0;
            let k = first_with_ident(old(vault).projects@[i].environments@, env_id)->Some_0;
            &&& only_at(old(vault).projects@, final(vault).projects@, i)
            &&& same_project_header(old(vault).projects@[i], final(vault).projects@[i])
            &&& only_at(
                old(vault).projects@[i].environments@,
                final(vault).projects@[i].environments@,
                k,
            )
            &&& final(vault).projects@[i].environments@[k].mappings@ == without_ident(
                old(vault).projects@[i].environments@[k].mappings@,
                mapping_id,
            )
        },
        r is Err ==> *final(vault) == *old(vault),
        final(vault).secrets == old(vault).secrets,
        old(vault).consistent() ==> final(vault).consistent(),
{
    report(vault.remove_mapping(project_id, env_id, mapping_id))
}

/// Which environment to clone, into which project, under which name.
pub struct CloneEnvironmentArgs {
    pub source_project_id: u128,
    pub source_env_id: u128,
    pub target_project_id: u128,
    pub new_name: String,
}

/// Clones environment `args.source_env_id` of project
/// `args.source_project_id` into project `args.target_project_id` under a
/// new name, with copies of its mappings; the clone is inactive. Gives the
/// clone's identifier.
pub fn clone_environment(vault: &mut Vault, args: CloneEnvironmentArgs) -> (r: Result<u128, String>)
    ensures
        final(vault).cipher_kind == old(vault).cipher_kind,
        final(vault).cipher_version == old(vault).cipher_version,
        match first_with_ident(old(vault).projects@, args.source_project_id) {
            None => fails_with(r, "Source project not found"@),
            Some(i) => match first_with_ident(old(vault).projects@[i].environments@, args.source_env_id) {
                None => fails_with(r, "Source environment not found"@),
                Some(k) => exists|env: Environment|
                    #![trigger env.id]
                    env.name == args.new_name && env.description
                        == old(vault).projects@[i].environments@[k].description && !env.is_active
                        && env.created_at == env.updated_at && mappings_copied(
                        env.mappings@,
                        old(vault).projects@[i].environments@[k].mappings@,
                    ) && env_added(*old(vault), *final(vault), args.target_project_id, env, r),
            },
        },
        r is Err ==> *final(vault) == *old(vault),
        final(vault).secrets == old(vault).secrets,
        old(vault).consistent() ==> final(vault).consistent(),
{
    proof {
        reveal_strlit("Source project not found");
        reveal_strlit("Source environment not found");
        reveal_strlit("Environment name cannot be empty");
    }
    let si = match position_of(&vault.projects, args.source_project_id) {
        Some(i) => i,
        None => {
            return Err(String::from_str("Source project not found"));
        },
    };
    let sk = match position_of(&vault.projects[si].environments, args.source_env_id) {
        Some(k) => k,
        None => {
            return Err(String::from_str("Source environment not found"));
        },
    };
    let now = utc_now();
    let mappings = copy_mappings(&vault.projects[si].environments[sk].mappings);
    let mut new_env = Environment::new(args.new_name);
    new_env.description = vault.projects[si].environments[sk].description.clone();
    new_env.mappings = mappings;
    new_env.created_at = now;
    new_env.updated_at = now;
    let id = new_env.id;
    let ghost e = new_env;
    proof {
        if old(vault).consistent() {
            let src = old(vault).projects@[si as int];
            assert(project_consistent(src, old(vault).secrets@));
            assert(env_consistent(src.environments@[sk as int], old(vault).secrets@));
            lemma_copied_env_consistent(e, src.environments@[sk as int], old(vault).secrets@);
            assert(env_fits(*old(vault), args.target_project_id, e));
        }
    }
    let r = vault.add_environment(args.target_project_id, new_env);
    let out = match r {
        Ok(()) => Ok(id),
        Err(x) => Err(map_err(x)),
    };
    proof {
        assert(env_added(*old(vault), *final(vault), args.target_project_id, e, out));
        assert(e.id == id);
    }
    out
}

} // verus!
