//! Project commands: listing, creating, changing, starring, cloning and
//! deleting projects.

use vstd::prelude::*;
use crate::error::{EnvlyError, error_text};
use crate::ids::{Timestamp, utc_now};
use crate::seqs::{
    Labelled, has_ident, has_label, has_label_except, first_with_ident, without_ident, labels_unique,
    pairwise, labels_differ, position_of, lemma_first_with_ident,
};
use crate::models::{
    Vault, Project, Environment, EnvMapping, msg_project_exists, msg_not_found, project_consistent,
    env_consistent, at_most_one_active, not_both_active, only_at, idents_unique, lemma_update_project,
};
use crate::text::{is_blank, push_str};
use crate::ids::{uuid_string, uuid_text};
use crate::commands::{validation_text, fails_with, report};

verus! {

/// The identifier and name of a project's active environment.
pub struct ActiveEnvInfo {
    pub id: u128,
    pub name: String,
}

/// What a project list shows of a project.
pub struct ProjectSummary {
    pub id: u128,
    pub name: String,
    pub description: String,
    pub folder_path: String,
    pub env_filename: String,
    pub environment_count: usize,
    pub starred: bool,
    pub active_env: Option<ActiveEnvInfo>,
    pub path_valid: bool,
    pub created_at: Timestamp,
    pub updated_at: Timestamp,
}

/// The index of the first active environment of `envs`.
pub open spec fn first_active(envs: Seq<Environment>) -> Option<int>
    decreases envs.len(),
{
    if envs.len() == 0 {
        None
    } else if envs[0].is_active {
        Some(0)
    } else {
        match first_active(envs.drop_first()) {
            Some(i) => Some(i + 1),
            None => None,
        }
    }
}

/// What `first_active` finds.
pub proof fn lemma_first_active(envs: Seq<Environment>)
    ensures
        match first_active(envs) {
            Some(i) => 0 <= i < envs.len() && envs[i].is_active && forall|j: int|
                0 <= j < i ==> !(#[trigger] envs[j]).is_active,
            None => forall|j: int| 0 <= j < envs.len() ==> !(#[trigger] envs[j]).is_active,
        },
    decreases envs.len(),
{
    if envs.len() > 0 {
        lemma_first_active(envs.drop_first());
        if !envs[0].is_active {
            assert forall|j: int| 0 < j < envs.len() implies #[trigger] envs[j] == envs.drop_first()[j - 1] by {}
        }
    }
}

/// The index of the first active environment of `envs`.
pub fn find_active(envs: &Vec<Environment>) -> (r: Option<usize>)
    ensures
        r matches Some(i) ==> i < envs@.len() && envs@[i as int].is_active,
        match first_active(envs@) {
            Some(i) => r matches Some(j) && j == i,
            None => r is None,
        },
{
    proof {
        lemma_first_active(envs@);
    }
    let mut i: usize = 0;
    while i < envs.len()
        invariant
            i <= envs@.len(),
            forall|j: int| 0 <= j < i ==> !(#[trigger] envs@[j]).is_active,
            match first_active(envs@) {
                Some(k) => 0 <= k < envs@.len() && envs@[k].is_active && forall|j: int|
                    0 <= j < k ==> !(#[trigger] envs@[j]).is_active,
                None => forall|j: int| 0 <= j < envs@.len() ==> !(#[trigger] envs@[j]).is_active,
            },
        decreases envs.len() - i,
    {
        if envs[i].is_active {
            return Some(i);
        }
        i = i + 1;
    }
    None
}

/// `s` shows project `p`, whose folder exists exactly when `path_valid`.
pub open spec fn summarizes(s: ProjectSummary, p: Project, path_valid: bool) -> bool {
    &&& s.id == p.id
    &&& s.name == p.name
    &&& s.description == p.description
    &&& s.folder_path == p.folder_path
    &&& s.env_filename == p.env_filename
    &&& s.environment_count == p.environments@.len()
    &&& s.starred == p.starred
    &&& match first_active(p.environments@) {
        Some(i) => s.active_env matches Some(a) && a.id == p.environments@[i].id && a.name
            == p.environments@[i].name,
        None => s.active_env is None,
    }
    &&& s.path_valid == path_valid
    &&& s.created_at == p.created_at
    &&& s.updated_at == p.updated_at
}

impl ProjectSummary {
    /// The summary of `p`; `path_valid` says whether its folder exists.
    pub fn from(p: &Project, path_valid: bool) -> (s: Self)
        ensures
            summarizes(s, *p, path_valid),
    {
        let active_env = match find_active(&p.environments) {
            Some(i) => Some(
                ActiveEnvInfo { id: p.environments[i].id, name: p.environments[i].name.clone() },
            ),
            None => None,
        };
        ProjectSummary {
            id: p.id,
            name: p.name.clone(),
            description: p.description.clone(),
            folder_path: p.folder_path.clone(),
            env_filename: p.env_filename.clone(),
            environment_count: p.environments.len(),
            starred: p.starred,
            active_env,
            path_valid,
            created_at: p.created_at,
            updated_at: p.updated_at,
        }
    }
}

/// The summaries of all projects, in order; `path_valid` says for each
/// project whether its folder exists.
pub fn list_projects(vault: &Vault, path_valid: &Vec<bool>) -> (r: Vec<ProjectSummary>)
    requires
        path_valid@.len() == vault.projects@.len(),
    ensures
        r@.len() == vault.projects@.len(),
        forall|i: int|
            0 <= i < r@.len() ==> summarizes(#[trigger] r@[i], vault.projects@[i], path_valid@[i]),
{
    let mut r: Vec<ProjectSummary> = Vec::new();
    let mut i: usize = 0;
    while i < vault.projects.len()
        invariant
            path_valid@.len() == vault.projects@.len(),
            i <= vault.projects@.len(),
            r@.len() == i,
            forall|j: int|
                0 <= j < i ==> summarizes(#[trigger] r@[j], vault.projects@[j], path_valid@[j]),
        decreases vault.projects.len() - i,
    {
        r.push(ProjectSummary::from(&vault.projects[i], path_valid[i]));
        i = i + 1;
    }
    r
}

/// What a new project is made of.
pub struct CreateProjectArgs {
    pub name: String,
    pub folder_path: String,
    pub description: String,
    pub env_filename: String,
}

/// The environment file name a project gets: the one asked for, or `.env`
/// when none is given.
pub open spec fn chosen_env_filename(asked: Seq<char>) -> Seq<char> {
    if asked.len() == 0 {
        ".env"@
    } else {
        asked
    }
}

/// `p` is a fresh project made from `args`.
pub open spec fn made_from(p: Project, args: CreateProjectArgs) -> bool {
    &&& p.name == args.name
    &&& p.folder_path == args.folder_path
    &&& p.description == args.description
    &&& p.env_filename@ == chosen_env_filename(args.env_filename@)
    &&& !p.starred
    &&& p.environments@.len() == 0
    &&& p.created_at == p.updated_at
}

/// Creates a project from `args`; its name must not be blank nor taken.
/// Gives the new project's identifier.
pub fn create_project(vault: &mut Vault, args: CreateProjectArgs) -> (r: Result<u128, String>)
    ensures
        final(vault).cipher_kind == old(vault).cipher_kind,
        final(vault).cipher_version == old(vault).cipher_version,
        is_blank(args.name@) ==> fails_with(r, validation_text("Project name cannot be empty"@)),
        !is_blank(args.name@) && has_label(old(vault).projects@, args.name@) ==> fails_with(
            r,
            validation_text(msg_project_exists(args.name@)),
        ),
        r is Ok <==> !is_blank(args.name@) && !has_label(old(vault).projects@, args.name@),
        r matches Ok(id) ==> {
            &&& final(vault).projects@.len() == old(vault).projects@.len() + 1
            &&& final(vault).projects@.drop_last() == old(vault).projects@
            &&& final(vault).projects@.last().id == id
            &&& made_from(final(vault).projects@.last(), args)
        },
        r is Err ==> *final(vault) == *old(vault),
        final(vault).secrets == old(vault).secrets,
        old(vault).consistent() ==> final(vault).consistent(),
{
    let mut project = Project::new(args.name, args.folder_path);
    project.description = args.description;
    if !args.env_filename.as_str().is_empty() {
        project.env_filename = args.env_filename;
    }
    let id = project.id;
    let ghost p = project;
    let r = vault.add_project(project);
    proof {
        reveal_strlit(".env");
        if r is Ok {
            assert(final(vault).projects@.drop_last() =~= old(vault).projects@);
        }
    }
    match r {
        Ok(()) => Ok(id),
        Err(e) => Err(crate::error::map_err(e)),
    }
}

/// Which fields of a project to change.
pub struct UpdateProjectArgs {
    pub id: u128,
    pub name: Option<String>,
    pub description: Option<String>,
    pub folder_path: Option<String>,
    pub env_filename: Option<String>,
}

/// `n` is project `o` with the fields that `args` gives replaced, and its
/// update time set anew.
pub open spec fn project_changed(o: Project, n: Project, args: UpdateProjectArgs) -> bool {
    &&& n.id == o.id
    &&& n.name == (match args.name {
        Some(x) => x,
        None => o.name,
    })
    &&& n.description == (match args.description {
        Some(x) => x,
        None => o.description,
    })
    &&& n.folder_path == (match args.folder_path {
        Some(x) => x,
        None => o.folder_path,
    })
    &&& n.env_filename == (match args.env_filename {
        Some(x) => x,
        None => o.env_filename,
    })
    &&& n.starred == o.starred
    &&& n.environments == o.environments
    &&& n.created_at == o.created_at
}

/// "Project with id '`<uuid>`' not found", as a command reports it.
pub open spec fn project_missing_text(id: u128) -> Seq<char> {
    "Project with id '"@ + uuid_text(id) + "' not found"@
}

/// The text "Project with id '`<uuid>`' not found".
fn project_missing(id: u128) -> (s: String)
    ensures
        s@ == project_missing_text(id),
{
    let mut s = String::from_str("Project with id '");
    let u = uuid_string(id);
    push_str(&mut s, u.as_str());
    push_str(&mut s, "' not found");
    s
}

/// Changes the fields of project `args.id` that `args` gives. A new name
/// must not be used by another project.
pub fn update_project(vault: &mut Vault, args: UpdateProjectArgs) -> (r: Result<(), String>)
    ensures
        final(vault).cipher_kind == old(vault).cipher_kind,
        final(vault).cipher_version == old(vault).cipher_version,
        (args.name matches Some(n) && has_label_except(old(vault).projects@, n@, args.id)) ==> fails_with(
            r,
            validation_text(msg_project_exists(args.name->Some_0@)),
        ),
        !(args.name matches Some(n) && has_label_except(old(vault).projects@, n@, args.id)) ==> match first_with_ident(
            old(vault).projects@,
            args.id,
        ) {
            Some(i) => r is Ok && final(vault).projects@.len() == old(vault).projects@.len()
                && only_at(old(vault).projects@, final(vault).projects@, i) && project_changed(
                old(vault).projects@[i],
                final(vault).projects@[i],
                args,
            ),
            None => fails_with(r, project_missing_text(args.id)),
        },
        r is Err ==> *final(vault) == *old(vault),
        final(vault).secrets == old(vault).secrets,
        old(vault).consistent() && idents_unique(old(vault).projects@) ==> final(vault).consistent(),
{
    if let Some(name) = &args.name {
        if let Err(e) = vault.ensure_project_name_unique(name.as_str(), args.id) {
            return Err(crate::error::map_err(e));
        }
    }
    let ghost old_vault = *vault;
    let now = utc_now();
    let ghost s = vault.projects@;
    let project = match vault.find_project_mut(args.id) {
        Some(p) => p,
        None => {
            return Err(project_missing(args.id));
        },
    };
    if let Some(name) = args.name {
        project.name = name;
    }
    if let Some(desc) = args.description {
        project.description = desc;
    }
    if let Some(path) = args.folder_path {
        project.folder_path = path;
    }
    if let Some(filename) = args.env_filename {
        project.env_filename = filename;
    }
    project.updated_at = now;
    proof {
        let i = first_with_ident(s, args.id)->Some_0;
        lemma_first_with_ident(s, args.id);
        let t = vault.projects@;
        assert(t =~= s.update(i, t[i]));
        if old_vault.consistent() && idents_unique(s) {
            assert forall|a: int, b: int| 0 <= a < b < t.len() implies (labels_differ::<Project>())(
                #[trigger] t[a],
                #[trigger] t[b],
            ) by {
                if a == i {
                    assert(t[b] == s[b]);
                    assert(s[b].id != args.id);
                } else if b == i {
                    assert(t[a] == s[a]);
                    assert(s[a].id != args.id);
                } else {
                    assert(t[a] == s[a] && t[b] == s[b]);
                    assert((labels_differ::<Project>())(s[a], s[b]));
                }
            }
            assert forall|p: int| 0 <= p < t.len() implies project_consistent(
                #[trigger] t[p],
                vault.secrets@,
            ) by {
                assert(project_consistent(s[p], old_vault.secrets@));
                if p != i {
                    assert(t[p] == s[p]);
                } else {
                    assert(t[p].environments == s[p].environments);
                }
            }
        }
    }
    Ok(())
}

/// The folder and environment file name of project `id` when it has an
/// active environment, whose link must be removed before it is deleted.
pub fn active_link_of_project(vault: &Vault, id: u128) -> (r: Option<(String, String)>)
    ensures
        match first_with_ident(vault.projects@, id) {
            Some(i) => if first_active(vault.projects@[i].environments@) is Some {
                r matches Some(l) && l.0 == vault.projects@[i].folder_path && l.1
                    == vault.projects@[i].env_filename
            } else {
                r is None
            },
            None => r is None,
        },
{
    match vault.find_project(id) {
        Some(p) => {
            if find_active(&p.environments).is_some() {
                Some((p.folder_path.clone(), p.env_filename.clone()))
            } else {
                None
            }
        },
        None => None,
    }
}

/// Deletes project `id`.
pub fn delete_project(vault: &mut Vault, id: u128) -> (r: Result<(), String>)
    ensures
        final(vault).cipher_kind == old(vault).cipher_kind,
        final(vault).cipher_version == old(vault).cipher_version,
        has_ident(old(vault).projects@, id) ==> r is Ok && final(vault).projects@ == without_ident(
            old(vault).projects@,
            id,
        ),
        !has_ident(old(vault).projects@, id) ==> fails_with(
            r,
            validation_text(msg_not_found("Project"@, id)),
        ) && *final(vault) == *old(vault),
        final(vault).secrets == old(vault).secrets,
        old(vault).consistent() ==> final(vault).consistent(),
{
    report(vault.remove_project(id))
}

/// Flips whether project `id` is starred; gives the new value.
pub fn toggle_project_starred(vault: &mut Vault, id: u128) -> (r: Result<bool, String>)
    ensures
        final(vault).cipher_kind == old(vault).cipher_kind,
        final(vault).cipher_version == old(vault).cipher_version,
        match first_with_ident(old(vault).projects@, id) {
            Some(i) => r == Ok::<bool, String>(!old(vault).projects@[i].starred) && final(vault).projects@ == old(vault).projects@.update(
                i,
                Project { starred: !old(vault).projects@[i].starred, ..old(vault).projects@[i] },
            ),
            None => fails_with(r, project_missing_text(id)) && *final(vault) == *old(vault),
        },
        final(vault).secrets == old(vault).secrets,
        old(vault).consistent() ==> final(vault).consistent(),
{
    let ghost old_vault = *vault;
    let ghost s = vault.projects@;
    let project = match vault.find_project_mut(id) {
        Some(p) => p,
        None => {
            return Err(project_missing(id));
        },
    };
    project.starred = !project.starred;
    let starred = project.starred;
    proof {
        lemma_first_with_ident(s, id);
        let i = first_with_ident(s, id)->Some_0;
        let t = vault.projects@;
        assert(t =~= s.update(i, Project { starred: !s[i].starred, ..s[i] }));
        if old_vault.consistent() {
            assert forall|a: int, b: int| 0 <= a < b < t.len() implies (labels_differ::<Project>())(
                #[trigger] t[a],
                #[trigger] t[b],
            ) by {
                assert(t[a].name == s[a].name && t[b].name == s[b].name);
                assert((labels_differ::<Project>())(s[a], s[b]));
            }
            assert forall|p: int| 0 <= p < t.len() implies project_consistent(
                #[trigger] t[p],
                vault.secrets@,
            ) by {
                assert(project_consistent(s[p], old_vault.secrets@));
                assert(t[p].environments == s[p].environments);
            }
        }
    }
    Ok(starred)
}

/// Which project to clone, and the clone's name and folder.
pub struct CloneProjectArgs {
    pub source_project_id: u128,
    pub new_name: String,
    pub new_folder_path: String,
}

/// `n` is a fresh copy of mapping `o`: same local key, secret and notes.
pub open spec fn mapping_copied(n: EnvMapping, o: EnvMapping) -> bool {
    &&& n.local_key == o.local_key
    &&& n.secret_id == o.secret_id
    &&& n.notes == o.notes
}

/// The mappings `n` are fresh copies of the mappings `o`, in order.
pub open spec fn mappings_copied(n: Seq<EnvMapping>, o: Seq<EnvMapping>) -> bool {
    n.len() == o.len() && forall|i: int| 0 <= i < n.len() ==> mapping_copied(#[trigger] n[i], o[i])
}

/// `n` is an inactive copy of environment `o` under the name `name`: same
/// description, copied mappings, created and updated at one time.
pub open spec fn env_copied(n: Environment, o: Environment, name: String) -> bool {
    &&& n.name == name
    &&& n.description == o.description
    &&& !n.is_active
    &&& mappings_copied(n.mappings@, o.mappings@)
    &&& n.created_at == n.updated_at
}

/// Fresh copies of `ms`, in order.
pub fn copy_mappings(ms: &Vec<EnvMapping>) -> (r: Vec<EnvMapping>)
    ensures
        mappings_copied(r@, ms@),
{
    let mut r: Vec<EnvMapping> = Vec::new();
    let mut i: usize = 0;
    while i < ms.len()
        invariant
            i <= ms@.len(),
            r@.len() == i,
            forall|j: int| 0 <= j < i ==> mapping_copied(#[trigger] r@[j], ms@[j]),
        decreases ms.len() - i,
    {
        let mut m = EnvMapping::new(ms[i].local_key.clone(), ms[i].secret_id);
        m.notes = ms[i].notes.clone();
        r.push(m);
        i = i + 1;
    }
    r
}

/// A copy's mappings follow the rules when the mappings it was made from do.
pub proof fn lemma_copied_env_consistent(n: Environment, o: Environment, secrets: Seq<crate::models::Secret>)
    requires
        mappings_copied(n.mappings@, o.mappings@),
        env_consistent(o, secrets),
    ensures
        env_consistent(n, secrets),
{
    let nm = n.mappings@;
    let om = o.mappings@;
    assert forall|a: int, b: int| 0 <= a < b < nm.len() implies (labels_differ::<EnvMapping>())(
        #[trigger] nm[a],
        #[trigger] nm[b],
    ) by {
        assert(mapping_copied(nm[a], om[a]) && mapping_copied(nm[b], om[b]));
        assert((labels_differ::<EnvMapping>())(om[a], om[b]));
    }
    assert forall|m: int| 0 <= m < nm.len() implies has_ident(secrets, (#[trigger] nm[m]).secret_id) by {
        assert(mapping_copied(nm[m], om[m]));
        assert(has_ident(secrets, om[m].secret_id));
    }
}

/// `n` is a copy of project `o` named `name` in folder `folder`: same
/// description and environment file name, not starred, and inactive copies
/// of its environments under their names.
pub open spec fn project_copied(n: Project, o: Project, name: String, folder: String) -> bool {
    &&& n.name == name
    &&& n.folder_path == folder
    &&& n.description == o.description
    &&& n.env_filename == o.env_filename
    &&& !n.starred
    &&& n.environments@.len() == o.environments@.len()
    &&& forall|i: int|
        0 <= i < n.environments@.len() ==> env_copied(
            #[trigger] n.environments@[i],
            o.environments@[i],
            o.environments@[i].name,
        )
}

/// Clones project `args.source_project_id` under a new name and folder, with
/// copies of its environments and mappings; gives the clone's identifier.
pub fn clone_project(vault: &mut Vault, args: CloneProjectArgs) -> (r: Result<u128, String>)
    ensures
        final(vault).cipher_kind == old(vault).cipher_kind,
        final(vault).cipher_version == old(vault).cipher_version,
        first_with_ident(old(vault).projects@, args.source_project_id) is None ==> fails_with(
            r,
            "Source project not found"@,
        ),
        first_with_ident(old(vault).projects@, args.source_project_id) is Some ==> {
            &&& is_blank(args.new_name@) ==> fails_with(
                r,
                validation_text("Project name cannot be empty"@),
            )
            &&& !is_blank(args.new_name@) && has_label(old(vault).projects@, args.new_name@)
                ==> fails_with(r, validation_text(msg_project_exists(args.new_name@)))
            &&& r is Ok <==> !is_blank(args.new_name@) && !has_label(
                old(vault).projects@,
                args.new_name@,
            )
        },
        r matches Ok(id) ==> {
            &&& final(vault).projects@.len() == old(vault).projects@.len() + 1
            &&& final(vault).projects@.drop_last() == old(vault).projects@
            &&& final(vault).projects@.last().id == id
            &&& project_copied(
                final(vault).projects@.last(),
                old(vault).projects@[first_with_ident(
                    old(vault).projects@,
                    args.source_project_id,
                )->Some_0],
                args.new_name,
                args.new_folder_path,
            )
        },
        r is Err ==> *final(vault) == *old(vault),
        final(vault).secrets == old(vault).secrets,
        old(vault).consistent() ==> final(vault).consistent(),
{
    proof {
        reveal_strlit("Source project not found");
    }
    let si = match position_of(&vault.projects, args.source_project_id) {
        Some(i) => i,
        None => {
            return Err(String::from_str("Source project not found"));
        },
    };
    let ghost src = vault.projects@[si as int];
    let mut envs: Vec<Environment> = Vec::new();
    let mut k: usize = 0;
    while k < vault.projects[si].environments.len()
        invariant
            si < vault.projects@.len(),
            src == vault.projects@[si as int],
            k <= src.environments@.len(),
            envs@.len() == k,
            forall|j: int|
                0 <= j < k ==> env_copied(
                    #[trigger] envs@[j],
                    src.environments@[j],
                    src.environments@[j].name,
                ),
        decreases src.environments@.len() - k,
    {
        let e = &vault.projects[si].environments[k];
        let mut ne = Environment::new(e.name.clone());
        ne.description = e.description.clone();
        ne.mappings = copy_mappings(&e.mappings);
        envs.push(ne);
        k = k + 1;
    }
    let mut project = Project::new(args.new_name, args.new_folder_path);
    project.description = vault.projects[si].description.clone();
    project.env_filename = vault.projects[si].env_filename.clone();
    project.environments = envs;
    let id = project.id;
    let ghost p = project;
    proof {
        if old(vault).consistent() {
            let secrets = old(vault).secrets@;
            assert(project_consistent(src, secrets));
            let pe = p.environments@;
            let se = src.environments@;
            assert forall|a: int, b: int| 0 <= a < b < pe.len() implies (labels_differ::<
                Environment,
            >())(#[trigger] pe[a], #[trigger] pe[b]) by {
                assert(env_copied(pe[a], se[a], se[a].name) && env_copied(pe[b], se[b], se[b].name));
                assert((labels_differ::<Environment>())(se[a], se[b]));
            }
            assert forall|a: int, b: int| 0 <= a < b < pe.len() implies (not_both_active())(
                #[trigger] pe[a],
                #[trigger] pe[b],
            ) by {
                assert(env_copied(pe[a], se[a], se[a].name));
            }
            assert forall|e: int| 0 <= e < pe.len() implies env_consistent(#[trigger] pe[e], secrets) by {
                assert(env_copied(pe[e], se[e], se[e].name));
                assert(env_consistent(se[e], secrets));
                lemma_copied_env_consistent(pe[e], se[e], secrets);
            }
            assert(project_consistent(p, secrets));
        }
    }
    let r = vault.add_project(project);
    proof {
        if r is Ok {
            assert(final(vault).projects@.drop_last() =~= old(vault).projects@);
        }
    }
    match r {
        Ok(()) => Ok(id),
        Err(e) => Err(crate::error::map_err(e)),
    }
}

} // verus!
