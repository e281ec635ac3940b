//! The vault: secrets, and projects whose environments map local variable
//! names to secrets. The rules that keep it consistent live here.

use vstd::prelude::*;
use crate::error::{EnvlyError, is_validation_err};
use crate::ids::{Timestamp, uuid_text, uuid_string, new_uuid, utc_now};
use crate::seqs::{
    Identified, Labelled, has_ident, has_label, has_label_except, first_with_ident,
    without_ident, labels_unique, pairwise, position_of, any_labelled, any_labelled_except,
    remove_with_ident, lemma_first_with_ident, lemma_without_ident_contains,
    lemma_without_ident_pairwise, lemma_push_labels_unique, labels_differ,
};
use crate::text::{push_str, concat3, is_blank, is_blank_str};

verus! {

/// A holder for a sensitive value (a secret's value). It only holds the
/// value: nothing here wipes the memory when it is dropped.
pub struct Zeroizing<T> {
    inner: T,
}

impl<T> Zeroizing<T> {
    /// The wrapped value.
    pub closed spec fn inner(self) -> T {
        self.inner
    }

    /// Wraps `val`.
    pub fn new(val: T) -> (z: Self)
        ensures
            z.inner() == val,
    {
        Zeroizing { inner: val }
    }

    /// Borrows the wrapped value.
    pub fn as_inner(&self) -> (r: &T)
        ensures
            *r == self.inner(),
    {
        &self.inner
    }

    /// Gives up the wrapper and hands back the value, so that its owner can
    /// wipe it.
    pub fn into_inner(self) -> (v: T)
        ensures
            v == self.inner(),
    {
        self.inner
    }
}

impl<T> core::ops::Deref for Zeroizing<T> {
    type Target = T;

    /// Borrows the wrapped value.
    fn deref(&self) -> (r: &T)
        ensures
            *r == self.inner(),
    {
        &self.inner
    }
}

/// A named secret value.
pub struct Secret {
    pub id: u128,
    pub key: String,
    pub value: Zeroizing<String>,
    pub description: String,
    /// Expiry date as a day count from the common era (`NaiveDate::num_days_from_ce`).
    pub expires_at: Option<i32>,
    pub tags: Vec<String>,
    pub created_at: Timestamp,
    pub updated_at: Timestamp,
}

/// A project folder and its environments.
pub struct Project {
    pub id: u128,
    pub name: String,
    pub description: String,
    pub folder_path: String,
    pub env_filename: String,
    pub starred: bool,
    pub environments: Vec<Environment>,
    pub created_at: Timestamp,
    pub updated_at: Timestamp,
}

/// A named set of mappings within a project; at most one per project is active.
pub struct Environment {
    pub id: u128,
    pub name: String,
    pub description: String,
    pub is_active: bool,
    pub mappings: Vec<EnvMapping>,
    pub created_at: Timestamp,
    pub updated_at: Timestamp,
}

/// Binds a local variable name to a secret.
pub struct EnvMapping {
    pub id: u128,
    pub local_key: String,
    pub secret_id: u128,
    pub notes: String,
}

/// The decrypted contents of a vault file.
pub struct Vault {
    pub cipher_version: u32,
    pub cipher_kind: String,
    pub secrets: Vec<Secret>,
    pub projects: Vec<Project>,
}

impl Identified for Secret {
    open spec fn ident(&self) -> u128 {
        self.id
    }

    fn get_ident(&self) -> (r: u128) {
        self.id
    }
}

impl Identified for Project {
    open spec fn ident(&self) -> u128 {
        self.id
    }

    fn get_ident(&self) -> (r: u128) {
        self.id
    }
}

impl Identified for Environment {
    open spec fn ident(&self) -> u128 {
        self.id
    }

    fn get_ident(&self) -> (r: u128) {
        self.id
    }
}

impl Identified for EnvMapping {
    open spec fn ident(&self) -> u128 {
        self.id
    }

    fn get_ident(&self) -> (r: u128) {
        self.id
    }
}

impl Labelled for Secret {
    open spec fn label(&self) -> Seq<char> {
        self.key@
    }

    fn get_label(&self) -> (r: &String) {
        &self.key
    }
}

impl Labelled for Project {
    open spec fn label(&self) -> Seq<char> {
        self.name@
    }

    fn get_label(&self) -> (r: &String) {
        &self.name
    }
}

impl Labelled for Environment {
    open spec fn label(&self) -> Seq<char> {
        self.name@
    }

    fn get_label(&self) -> (r: &String) {
        &self.name
    }
}

impl Labelled for EnvMapping {
    open spec fn label(&self) -> Seq<char> {
        self.local_key@
    }

    fn get_label(&self) -> (r: &String) {
        &self.local_key
    }
}

// ---- messages ----

pub open spec fn msg_not_found(what: Seq<char>, id: u128) -> Seq<char> {
    what + " with id '"@ + uuid_text(id) + "' not found"@
}

pub open spec fn msg_key_exists(key: Seq<char>) -> Seq<char> {
    "Secret with key '"@ + key + "' already exists"@
}

pub open spec fn msg_project_exists(name: Seq<char>) -> Seq<char> {
    "Project with name '"@ + name + "' already exists"@
}

pub open spec fn msg_env_exists(name: Seq<char>, project: Seq<char>) -> Seq<char> {
    "Environment '"@ + name + "' already exists in project '"@ + project + "'"@
}

pub open spec fn msg_mapping_exists(local_key: Seq<char>) -> Seq<char> {
    "Mapping with local_key '"@ + local_key + "' already exists in this environment"@
}

pub open spec fn msg_referenced(local_key: Seq<char>, env: Seq<char>, project: Seq<char>) -> Seq<char> {
    "Cannot delete secret: referenced by mapping '"@ + local_key + "' in environment '"@ + env
        + "' of project '"@ + project + "'"@
}

/// "`<what>` with id '`<uuid>`' not found".
pub fn not_found_msg(what: &str, id: u128) -> (s: String)
    ensures
        s@ == msg_not_found(what@, id),
{
    let mut s = String::new();
    push_str(&mut s, what);
    push_str(&mut s, " with id '");
    let u = uuid_string(id);
    push_str(&mut s, u.as_str());
    push_str(&mut s, "' not found");
    proof {
        assert(s@ =~= msg_not_found(what@, id));
    }
    s
}

/// Wraps `s` between `a` and `b`.
pub fn between(a: &str, s: &str, b: &str) -> (r: String)
    ensures
        r@ == a@ + s@ + b@,
{
    concat3(a, s, b)
}

/// The default name of the environment file in a project folder.
pub fn default_env_filename() -> (s: String)
    ensures
        s@ == ".env"@,
{
    ".env".to_owned()
}

// ---- constructors ----

impl Secret {
    /// A new secret with a fresh identifier, created now, with no description,
    /// expiry or tags.
    pub fn new(key: String, value: String) -> (s: Self)
        ensures
            s.key == key,
            s.value.inner() == value,
            s.description@ == Seq::<char>::empty(),
            s.expires_at is None,
            s.tags@ == Seq::<String>::empty(),
            s.created_at == s.updated_at,
    {
        let now = utc_now();
        Secret {
            id: new_uuid(),
            key,
            value: Zeroizing::new(value),
            description: String::new(),
            expires_at: None,
            tags: Vec::new(),
            created_at: now,
            updated_at: now,
        }
    }
}

impl Project {
    /// A new project with a fresh identifier, created now, with the default
    /// environment file name, not starred and without environments.
    pub fn new(name: String, folder_path: String) -> (p: Self)
        ensures
            p.name == name,
            p.folder_path == folder_path,
            p.description@ == Seq::<char>::empty(),
            p.env_filename@ == ".env"@,
            !p.starred,
            p.environments@ == Seq::<Environment>::empty(),
            p.created_at == p.updated_at,
    {
        let now = utc_now();
        Project {
            id: new_uuid(),
            name,
            description: String::new(),
            folder_path,
            env_filename: default_env_filename(),
            starred: false,
            environments: Vec::new(),
            created_at: now,
            updated_at: now,
        }
    }
}

impl Environment {
    /// A new inactive environment with a fresh identifier, created now, without mappings.
    pub fn new(name: String) -> (e: Self)
        ensures
            e.name == name,
            e.description@ == Seq::<char>::empty(),
            !e.is_active,
            e.mappings@ == Seq::<EnvMapping>::empty(),
            e.created_at == e.updated_at,
    {
        let now = utc_now();
        Environment {
            id: new_uuid(),
            name,
            description: String::new(),
            is_active: false,
            mappings: Vec::new(),
            created_at: now,
            updated_at: now,
        }
    }
}

impl EnvMapping {
    /// A new mapping with a fresh identifier and no notes.
    pub fn new(local_key: String, secret_id: u128) -> (m: Self)
        ensures
            m.local_key == local_key,
            m.secret_id == secret_id,
            m.notes@ == Seq::<char>::empty(),
    {
        EnvMapping { id: new_uuid(), local_key, secret_id, notes: String::new() }
    }
}

// ---- shapes of updates ----

/// `new` equals `old` except possibly at index `i`.
pub open spec fn only_at<T>(old: Seq<T>, new: Seq<T>, i: int) -> bool {
    &&& new.len() == old.len()
    &&& 0 <= i < old.len()
    &&& forall|j: int| 0 <= j < old.len() && j != i ==> #[trigger] new[j] == old[j]
}

/// Two projects agree on everything but their environments.
pub open spec fn same_project_header(a: Project, b: Project) -> bool {
    &&& a.id == b.id
    &&& a.name == b.name
    &&& a.description == b.description
    &&& a.folder_path == b.folder_path
    &&& a.env_filename == b.env_filename
    &&& a.starred == b.starred
    &&& a.created_at == b.created_at
    &&& a.updated_at == b.updated_at
}

/// Two environments agree on everything but whether they are active and their mappings.
pub open spec fn same_env_header(a: Environment, b: Environment) -> bool {
    &&& a.id == b.id
    &&& a.name == b.name
    &&& a.description == b.description
    &&& a.created_at == b.created_at
    &&& a.updated_at == b.updated_at
}

/// The project list `new` is `old` with the environments of project `i` replaced by `envs`.
pub open spec fn project_envs_become(old: Seq<Project>, new: Seq<Project>, i: int, envs: Seq<Environment>) -> bool {
    &&& only_at(old, new, i)
    &&& same_project_header(old[i], new[i])
    &&& new[i].environments@ == envs
}

/// The environment list `new` is `old` with the mappings of environment `k` replaced by `ms`.
pub open spec fn env_mappings_become(old: Seq<Environment>, new: Seq<Environment>, k: int, ms: Seq<EnvMapping>) -> bool {
    &&& only_at(old, new, k)
    &&& same_env_header(old[k], new[k])
    &&& new[k].is_active == old[k].is_active
    &&& new[k].mappings@ == ms
}

/// The environment `b` is `a` with its active flag set to `active`.
pub open spec fn env_with_active(a: Environment, b: Environment, active: bool) -> bool {
    &&& same_env_header(a, b)
    &&& b.mappings == a.mappings
    &&& b.is_active == active
}

// ---- references from mappings to secrets ----

/// Mapping `m` of environment `e` of project `p` refers to secret `id`.
pub open spec fn mapping_refers(ps: Seq<Project>, id: u128, p: int, e: int, m: int) -> bool {
    &&& 0 <= p < ps.len()
    &&& 0 <= e < ps[p].environments@.len()
    &&& 0 <= m < ps[p].environments@[e].mappings@.len()
    &&& ps[p].environments@[e].mappings@[m].secret_id == id
}

/// Some mapping refers to secret `id`.
pub open spec fn is_referenced(ps: Seq<Project>, id: u128) -> bool {
    exists|p: int, e: int, m: int| mapping_refers(ps, id, p, e, m)
}

/// `(p, e, m)` comes before `(p2, e2, m2)` in the order in which the vault is scanned.
pub open spec fn scan_before(p: int, e: int, m: int, p2: int, e2: int, m2: int) -> bool {
    p < p2 || (p == p2 && e < e2) || (p == p2 && e == e2 && m < m2)
}

/// `(p, e, m)` is the first mapping, in scan order, that refers to secret `id`.
pub open spec fn first_reference(ps: Seq<Project>, id: u128, p: int, e: int, m: int) -> bool {
    &&& mapping_refers(ps, id, p, e, m)
    &&& forall|p2: int, e2: int, m2: int|
        scan_before(p2, e2, m2, p, e, m) ==> !#[trigger] mapping_refers(ps, id, p2, e2, m2)
}

/// The message for a secret that a mapping still refers to.
pub open spec fn msg_reference(ps: Seq<Project>, p: int, e: int, m: int) -> Seq<char> {
    msg_referenced(
        ps[p].environments@[e].mappings@[m].local_key@,
        ps[p].environments@[e].name@,
        ps[p].name@,
    )
}

/// Finds the first mapping, in scan order, that refers to secret `id`.
pub fn find_reference(ps: &Vec<Project>, id: u128) -> (r: Option<(usize, usize, usize)>)
    ensures
        r matches Some(t) ==> first_reference(ps@, id, t.0 as int, t.1 as int, t.2 as int),
        r is None ==> !is_referenced(ps@, id),
{
    let mut pi: usize = 0;
    while pi < ps.len()
        invariant
            pi <= ps@.len(),
            forall|p2: int, e2: int, m2: int| p2 < pi ==> !#[trigger] mapping_refers(ps@, id, p2, e2, m2),
        decreases ps.len() - pi,
    {
        let project = &ps[pi];
        let mut ei: usize = 0;
        while ei < project.environments.len()
            invariant
                pi < ps@.len(),
                *project == ps@[pi as int],
                ei <= project.environments@.len(),
                forall|p2: int, e2: int, m2: int| (p2 < pi || (p2 == pi && e2 < ei)) ==> !#[trigger] mapping_refers(ps@, id, p2, e2, m2),
            decreases project.environments.len() - ei,
        {
            let env = &project.environments[ei];
            let mut mi: usize = 0;
            while mi < env.mappings.len()
                invariant
                    pi < ps@.len(),
                    *project == ps@[pi as int],
                    ei < project.environments@.len(),
                    *env == project.environments@[ei as int],
                    mi <= env.mappings@.len(),
                    forall|p2: int, e2: int, m2: int|
                        (p2 < pi || (p2 == pi && e2 < ei) || (p2 == pi && e2 == ei && m2 < mi)) ==> !#[trigger] mapping_refers(ps@, id, p2, e2, m2),
                decreases env.mappings.len() - mi,
            {
                if env.mappings[mi].secret_id == id {
                    assert(mapping_refers(ps@, id, pi as int, ei as int, mi as int));
                    return Some((pi, ei, mi));
                }
                mi = mi + 1;
            }
            proof {
                assert forall|p2: int, e2: int, m2: int| (p2 < pi || (p2 == pi && e2 < ei + 1)) implies !#[trigger] mapping_refers(ps@, id, p2, e2, m2) by {
                    if p2 == pi && e2 == ei && mapping_refers(ps@, id, p2, e2, m2) {
                        assert(m2 < mi);
                    }
                }
            }
            ei = ei + 1;
        }
        proof {
            assert forall|p2: int, e2: int, m2: int| p2 < pi + 1 implies !#[trigger] mapping_refers(ps@, id, p2, e2, m2) by {
                if p2 == pi && mapping_refers(ps@, id, p2, e2, m2) {
                    assert(e2 < ei);
                }
            }
        }
        pi = pi + 1;
    }
    proof {
        assert forall|p2: int, e2: int, m2: int| !mapping_refers(ps@, id, p2, e2, m2) by {
            if mapping_refers(ps@, id, p2, e2, m2) {
                assert(p2 < pi);
            }
        }
    }
    None
}

// ---- the consistency rules ----

/// Two environments are not both active.
pub open spec fn not_both_active() -> spec_fn(Environment, Environment) -> bool {
    |a: Environment, b: Environment| !(a.is_active && b.is_active)
}

/// At most one of `envs` is active.
pub open spec fn at_most_one_active(envs: Seq<Environment>) -> bool {
    pairwise(envs, not_both_active())
}

/// No two elements of `s` share an identifier.
pub open spec fn idents_unique<T: Identified>(s: Seq<T>) -> bool {
    forall|i: int, j: int| 0 <= i < j < s.len() ==> (#[trigger] s[i]).ident() != (#[trigger] s[j]).ident()
}

/// An environment's mappings have distinct local keys and name existing secrets.
pub open spec fn env_consistent(e: Environment, secrets: Seq<Secret>) -> bool {
    &&& labels_unique(e.mappings@)
    &&& forall|m: int| 0 <= m < e.mappings@.len() ==> has_ident(secrets, (#[trigger] e.mappings@[m]).secret_id)
}

/// A project's environments have distinct names, at most one is active, and each is consistent.
pub open spec fn project_consistent(p: Project, secrets: Seq<Secret>) -> bool {
    &&& labels_unique(p.environments@)
    &&& at_most_one_active(p.environments@)
    &&& forall|e: int| 0 <= e < p.environments@.len() ==> env_consistent(#[trigger] p.environments@[e], secrets)
}

/// Every secret named by `secrets1` is also named by `secrets2`.
pub open spec fn idents_kept(secrets1: Seq<Secret>, secrets2: Seq<Secret>) -> bool {
    forall|id: u128| has_ident(secrets1, id) ==> #[trigger] has_ident(secrets2, id)
}

/// A sub-sequence keeps the properties that hold of every element.
pub proof fn lemma_without_ident_elements<T: Identified>(s: Seq<T>, id: u128, k: int)
    requires
        0 <= k < without_ident(s, id).len(),
    ensures
        s.contains(without_ident(s, id)[k]),
{
    lemma_without_ident_contains(s, id, without_ident(s, id)[k]);
    assert(without_ident(s, id).contains(without_ident(s, id)[k]));
}

/// An environment stays consistent when the secrets it may name only grow.
pub proof fn lemma_env_consistent_kept(e: Environment, s1: Seq<Secret>, s2: Seq<Secret>)
    requires
        env_consistent(e, s1),
        idents_kept(s1, s2),
    ensures
        env_consistent(e, s2),
{
    assert forall|m: int| 0 <= m < e.mappings@.len() implies has_ident(s2, (#[trigger] e.mappings@[m]).secret_id) by {
        assert(has_ident(s1, e.mappings@[m].secret_id));
    }
}

/// A project stays consistent when the secrets it may name only grow.
pub proof fn lemma_project_consistent_kept(p: Project, s1: Seq<Secret>, s2: Seq<Secret>)
    requires
        project_consistent(p, s1),
        idents_kept(s1, s2),
    ensures
        project_consistent(p, s2),
{
    assert forall|e: int| 0 <= e < p.environments@.len() implies env_consistent(#[trigger] p.environments@[e], s2) by {
        lemma_env_consistent_kept(p.environments@[e], s1, s2);
    }
}

/// Adding a secret keeps every secret named.
pub proof fn lemma_push_keeps_idents(s: Seq<Secret>, x: Secret)
    ensures
        idents_kept(s, s.push(x)),
{
    assert forall|id: u128| has_ident(s, id) implies #[trigger] has_ident(s.push(x), id) by {
        let k = choose|k: int| 0 <= k < s.len() && (#[trigger] s[k]).ident() == id;
        assert(s.push(x)[k] == s[k]);
    }
}

/// Removing a secret keeps the others named.
pub proof fn lemma_without_keeps_other(s: Seq<Secret>, id: u128, x: u128)
    requires
        has_ident(s, x),
        x != id,
    ensures
        has_ident(without_ident(s, id), x),
{
    let k = choose|k: int| 0 <= k < s.len() && (#[trigger] s[k]).ident() == x;
    lemma_without_ident_contains(s, id, s[k]);
    assert(s.contains(s[k]));
    let w = without_ident(s, id);
    let j = choose|j: int| 0 <= j < w.len() && w[j] == s[k];
    assert(w[j].ident() == x);
}

/// Removing a secret that no mapping names keeps every project consistent.
pub proof fn lemma_remove_unreferenced(ps: Seq<Project>, s: Seq<Secret>, id: u128)
    requires
        forall|p: int| 0 <= p < ps.len() ==> project_consistent(#[trigger] ps[p], s),
        !is_referenced(ps, id),
    ensures
        forall|p: int| 0 <= p < ps.len() ==> project_consistent(#[trigger] ps[p], without_ident(s, id)),
{
    let w = without_ident(s, id);
    assert forall|p: int| 0 <= p < ps.len() implies project_consistent(#[trigger] ps[p], w) by {
        let envs = ps[p].environments@;
        assert forall|e: int| 0 <= e < envs.len() implies env_consistent(#[trigger] envs[e], w) by {
            let ms = envs[e].mappings@;
            assert(env_consistent(envs[e], s));
            assert forall|m: int| 0 <= m < ms.len() implies has_ident(w, (#[trigger] ms[m]).secret_id) by {
                assert(!mapping_refers(ps, id, p, e, m));
                lemma_without_keeps_other(s, id, ms[m].secret_id);
            }
        }
    }
}

/// At most one element of `s` has identifier `id`.
pub open spec fn ident_at_most_once<T: Identified>(s: Seq<T>, id: u128) -> bool {
    forall|i: int, j: int| 0 <= i < j < s.len() ==> !((#[trigger] s[i]).ident() == id && (#[trigger] s[j]).ident() == id)
}

/// A new environment may join project `project_id` without breaking the rules:
/// its mappings are consistent, and it is inactive unless no environment there is active.
pub open spec fn env_fits(v: Vault, project_id: u128, env: Environment) -> bool {
    &&& env_consistent(env, v.secrets@)
    &&& forall|i: int| first_with_ident(v.projects@, project_id) == Some(i) && env.is_active
        ==> forall|k: int| 0 <= k < v.projects@[i].environments@.len() ==> !(#[trigger] v.projects@[i].environments@[k]).is_active
}

/// Changing one project keeps the vault's rules when that project keeps its name
/// and follows the rules.
pub proof fn lemma_update_project(old_ps: Seq<Project>, new_ps: Seq<Project>, i: int, secrets: Seq<Secret>)
    requires
        labels_unique(old_ps),
        forall|p: int| 0 <= p < old_ps.len() ==> project_consistent(#[trigger] old_ps[p], secrets),
        only_at(old_ps, new_ps, i),
        new_ps[i].name == old_ps[i].name,
        project_consistent(new_ps[i], secrets),
    ensures
        labels_unique(new_ps),
        forall|p: int| 0 <= p < new_ps.len() ==> project_consistent(#[trigger] new_ps[p], secrets),
{
    assert forall|a: int, b: int| 0 <= a < b < new_ps.len() implies (labels_differ::<Project>())(#[trigger] new_ps[a], #[trigger] new_ps[b]) by {
        assert(new_ps[a].label() == old_ps[a].label());
        assert(new_ps[b].label() == old_ps[b].label());
        assert((labels_differ::<Project>())(old_ps[a], old_ps[b]));
    }
    assert forall|p: int| 0 <= p < new_ps.len() implies project_consistent(#[trigger] new_ps[p], secrets) by {
        if p != i {
            assert(new_ps[p] == old_ps[p]);
        }
    }
}

/// Changing one environment keeps a project's rules when that environment keeps
/// its name, does not become active, and follows the rules.
pub proof fn lemma_update_env(old_es: Seq<Environment>, new_es: Seq<Environment>, k: int, secrets: Seq<Secret>)
    requires
        labels_unique(old_es),
        at_most_one_active(old_es),
        forall|e: int| 0 <= e < old_es.len() ==> env_consistent(#[trigger] old_es[e], secrets),
        only_at(old_es, new_es, k),
        new_es[k].name == old_es[k].name,
        new_es[k].is_active ==> old_es[k].is_active,
        env_consistent(new_es[k], secrets),
    ensures
        labels_unique(new_es),
        at_most_one_active(new_es),
        forall|e: int| 0 <= e < new_es.len() ==> env_consistent(#[trigger] new_es[e], secrets),
{
    assert forall|a: int, b: int| 0 <= a < b < new_es.len() implies (labels_differ::<Environment>())(#[trigger] new_es[a], #[trigger] new_es[b]) by {
        assert(new_es[a].label() == old_es[a].label());
        assert(new_es[b].label() == old_es[b].label());
        assert((labels_differ::<Environment>())(old_es[a], old_es[b]));
    }
    assert forall|a: int, b: int| 0 <= a < b < new_es.len() implies (not_both_active())(#[trigger] new_es[a], #[trigger] new_es[b]) by {
        assert((not_both_active())(old_es[a], old_es[b]));
        assert(new_es[a].is_active ==> old_es[a].is_active);
        assert(new_es[b].is_active ==> old_es[b].is_active);
    }
    assert forall|e: int| 0 <= e < new_es.len() implies env_consistent(#[trigger] new_es[e], secrets) by {
        if e != k {
            assert(new_es[e] == old_es[e]);
        }
    }
}

impl Vault {
    /// The rules the vault keeps: secret keys and project names are unique,
    /// environment names are unique within a project and local keys within an
    /// environment, every mapping names an existing secret, and at most one
    /// environment per project is active.
    pub open spec fn consistent(&self) -> bool {
        &&& labels_unique(self.secrets@)
        &&& labels_unique(self.projects@)
        &&& forall|p: int| 0 <= p < self.projects@.len() ==> project_consistent(#[trigger] self.projects@[p], self.secrets@)
    }

    /// An empty vault.
    pub fn new(cipher_kind: &str, cipher_version: u32) -> (v: Self)
        ensures
            v.cipher_kind@ == cipher_kind@,
            v.cipher_version == cipher_version,
            v.secrets@ == Seq::<Secret>::empty(),
            v.projects@ == Seq::<Project>::empty(),
            v.consistent(),
    {
        Vault {
            cipher_version,
            cipher_kind: cipher_kind.to_owned(),
            secrets: Vec::new(),
            projects: Vec::new(),
        }
    }

    // -- secrets --

    /// The first secret with identifier `id`.
    pub fn find_secret(&self, id: u128) -> (r: Option<&Secret>)
        ensures
            match first_with_ident(self.secrets@, id) {
                Some(i) => r == Some(&self.secrets@[i]),
                None => r is None,
            },
    {
        match position_of(&self.secrets, id) {
            Some(i) => Some(&self.secrets[i]),
            None => None,
        }
    }

    /// The first secret with identifier `id`, to be changed in place.
    pub fn find_secret_mut(&mut self, id: u128) -> (r: Option<&mut Secret>)
        ensures
            match first_with_ident(old(self).secrets@, id) {
                Some(i) => r matches Some(s) && *s == old(self).secrets@[i] && final(self).secrets@
                    == old(self).secrets@.update(i, *final(s)) && final(self).projects
                    == old(self).projects && final(self).cipher_kind == old(self).cipher_kind
                    && final(self).cipher_version == old(self).cipher_version,
                None => r is None && *final(self) == *old(self),
            },
    {
        match position_of(&self.secrets, id) {
            Some(i) => Some(&mut self.secrets[i]),
            None => None,
        }
    }

    /// Rejects a secret key that is empty or only white space.
    pub fn validate_secret_key(key: &str) -> (r: Result<(), EnvlyError>)
        ensures
            is_blank(key@) ==> is_validation_err(r, "Secret key cannot be empty"@),
            !is_blank(key@) ==> r is Ok,
    {
        if is_blank_str(key) {
            return Err(EnvlyError::Validation("Secret key cannot be empty".to_owned()));
        }
        Ok(())
    }

    /// Adds a secret whose key is not blank and not yet used.
    pub fn add_secret(&mut self, secret: Secret) -> (r: Result<(), EnvlyError>)
        ensures
            is_blank(secret.key@) ==> is_validation_err(r, "Secret key cannot be empty"@),
            !is_blank(secret.key@) && has_label(old(self).secrets@, secret.key@)
                ==> is_validation_err(r, msg_key_exists(secret.key@)),
            r is Err ==> *final(self) == *old(self),
            r is Ok <==> !is_blank(secret.key@) && !has_label(old(self).secrets@, secret.key@),
            r is Ok ==> final(self).secrets@ == old(self).secrets@.push(secret),
            old(self).consistent() ==> final(self).consistent(),
            final(self).projects == old(self).projects,
            final(self).cipher_kind == old(self).cipher_kind,
            final(self).cipher_version == old(self).cipher_version,
    {
        Self::validate_secret_key(secret.key.as_str())?;
        if any_labelled(&self.secrets, &secret.key) {
            return Err(EnvlyError::Validation(between("Secret with key '", secret.key.as_str(), "' already exists")));
        }
        let ghost s0 = self.secrets@;
        self.secrets.push(secret);
        proof {
            if old(self).consistent() {
                lemma_push_labels_unique(s0, secret);
                lemma_push_keeps_idents(s0, secret);
                assert forall|p: int| 0 <= p < self.projects@.len() implies project_consistent(#[trigger] self.projects@[p], self.secrets@) by {
                    lemma_project_consistent_kept(self.projects@[p], s0, self.secrets@);
                }
            }
        }
        Ok(())
    }

    /// Rejects `key` if a secret other than `exclude_id` already uses it.
    pub fn ensure_secret_key_unique(&self, key: &str, exclude_id: u128) -> (r: Result<(), EnvlyError>)
        ensures
            has_label_except(self.secrets@, key@, exclude_id) ==> is_validation_err(r, msg_key_exists(key@)),
            !has_label_except(self.secrets@, key@, exclude_id) ==> r is Ok,
    {
        let k = key.to_owned();
        if any_labelled_except(&self.secrets, &k, exclude_id) {
            return Err(EnvlyError::Validation(between("Secret with key '", key, "' already exists")));
        }
        Ok(())
    }


    /// Removes every secret with identifier `id`, unless a mapping still refers to it.
    pub fn remove_secret(&mut self, id: u128) -> (r: Result<(), EnvlyError>)
        ensures
            is_referenced(old(self).projects@, id) ==> exists|p: int, e: int, m: int|
                first_reference(old(self).projects@, id, p, e, m)
                    && is_validation_err(r, msg_reference(old(self).projects@, p, e, m)),
            !is_referenced(old(self).projects@, id) && has_ident(old(self).secrets@, id)
                ==> r is Ok && final(self).secrets@ == without_ident(old(self).secrets@, id),
            !is_referenced(old(self).projects@, id) && !has_ident(old(self).secrets@, id)
                ==> is_validation_err(r, msg_not_found("Secret"@, id)),
            old(self).consistent() ==> final(self).consistent(),
            r is Err ==> *final(self) == *old(self),
            final(self).projects == old(self).projects,
            final(self).cipher_kind == old(self).cipher_kind,
            final(self).cipher_version == old(self).cipher_version,
    {
        if let Some((pi, ei, mi)) = find_reference(&self.projects, id) {
            let project = &self.projects[pi];
            let env = &project.environments[ei];
            let mapping = &env.mappings[mi];
            let mut m = String::new();
            push_str(&mut m, "Cannot delete secret: referenced by mapping '");
            push_str(&mut m, mapping.local_key.as_str());
            push_str(&mut m, "' in environment '");
            push_str(&mut m, env.name.as_str());
            push_str(&mut m, "' of project '");
            push_str(&mut m, project.name.as_str());
            push_str(&mut m, "'");
            proof {
                assert(m@ =~= msg_reference(self.projects@, pi as int, ei as int, mi as int));
            }
            return Err(EnvlyError::Validation(m));
        }
        let ghost s0 = self.secrets@;
        let found = remove_with_ident(&mut self.secrets, id);
        if !found {
            return Err(EnvlyError::Validation(not_found_msg("Secret", id)));
        }
        proof {
            if old(self).consistent() {
                lemma_without_ident_pairwise(s0, id, labels_differ::<Secret>());
                lemma_remove_unreferenced(self.projects@, s0, id);
            }
        }
        Ok(())
    }

    // -- projects --

    /// The first project with identifier `id`.
    pub fn find_project(&self, id: u128) -> (r: Option<&Project>)
        ensures
            match first_with_ident(self.projects@, id) {
                Some(i) => r == Some(&self.projects@[i]),
                None => r is None,
            },
    {
        match position_of(&self.projects, id) {
            Some(i) => Some(&self.projects[i]),
            None => None,
        }
    }

    /// The first project with identifier `id`, to be changed in place.
    pub fn find_project_mut(&mut self, id: u128) -> (r: Option<&mut Project>)
        ensures
            match first_with_ident(old(self).projects@, id) {
                Some(i) => r matches Some(p) && *p == old(self).projects@[i] && final(self).projects@
                    == old(self).projects@.update(i, *final(p)) && final(self).secrets
                    == old(self).secrets && final(self).cipher_kind == old(self).cipher_kind
                    && final(self).cipher_version == old(self).cipher_version,
                None => r is None && *final(self) == *old(self),
            },
    {
        match position_of(&self.projects, id) {
            Some(i) => Some(&mut self.projects[i]),
            None => None,
        }
    }

    /// Adds a project whose name is not blank and not yet used.
    pub fn add_project(&mut self, project: Project) -> (r: Result<(), EnvlyError>)
        ensures
            is_blank(project.name@) ==> is_validation_err(r, "Project name cannot be empty"@),
            !is_blank(project.name@) && has_label(old(self).projects@, project.name@)
                ==> is_validation_err(r, msg_project_exists(project.name@)),
            r is Err ==> *final(self) == *old(self),
            r is Ok <==> !is_blank(project.name@) && !has_label(old(self).projects@, project.name@),
            r is Ok ==> final(self).projects@ == old(self).projects@.push(project),
            old(self).consistent() && project_consistent(project, old(self).secrets@) ==> final(self).consistent(),
            final(self).secrets == old(self).secrets,
            final(self).cipher_kind == old(self).cipher_kind,
            final(self).cipher_version == old(self).cipher_version,
    {
        if let Err(e) = Self::validate_name(project.name.as_str(), "Project") {
            proof {
                reveal_strlit("Project");
                reveal_strlit(" name cannot be empty");
                reveal_strlit("Project name cannot be empty");
                assert("Project"@ + " name cannot be empty"@ =~= "Project name cannot be empty"@);
            }
            return Err(e);
        }
        if any_labelled(&self.projects, &project.name) {
            return Err(EnvlyError::Validation(between("Project with name '", project.name.as_str(), "' already exists")));
        }
        let ghost p0 = self.projects@;
        self.projects.push(project);
        proof {
            if old(self).consistent() && project_consistent(project, old(self).secrets@) {
                lemma_push_labels_unique(p0, project);
                assert forall|p: int| 0 <= p < self.projects@.len() implies project_consistent(#[trigger] self.projects@[p], self.secrets@) by {
                    if p < p0.len() {
                        assert(self.projects@[p] == p0[p]);
                    }
                }
            }
        }
        Ok(())
    }

    /// Rejects `name` if a project other than `exclude_id` already uses it.
    pub fn ensure_project_name_unique(&self, name: &str, exclude_id: u128) -> (r: Result<(), EnvlyError>)
        ensures
            has_label_except(self.projects@, name@, exclude_id) ==> is_validation_err(r, msg_project_exists(name@)),
            !has_label_except(self.projects@, name@, exclude_id) ==> r is Ok,
    {
        let n = name.to_owned();
        if any_labelled_except(&self.projects, &n, exclude_id) {
            return Err(EnvlyError::Validation(between("Project with name '", name, "' already exists")));
        }
        Ok(())
    }

    /// Removes every project with identifier `id`; fails if there is none.
    pub fn remove_project(&mut self, id: u128) -> (r: Result<(), EnvlyError>)
        ensures
            has_ident(old(self).projects@, id) ==> r is Ok && final(self).projects@ == without_ident(old(self).projects@, id),
            !has_ident(old(self).projects@, id) ==> is_validation_err(r, msg_not_found("Project"@, id)) && *final(self) == *old(self),
            old(self).consistent() ==> final(self).consistent(),
            final(self).secrets == old(self).secrets,
            final(self).cipher_kind == old(self).cipher_kind,
            final(self).cipher_version == old(self).cipher_version,
    {
        let ghost p0 = self.projects@;
        let found = remove_with_ident(&mut self.projects, id);
        if !found {
            return Err(EnvlyError::Validation(not_found_msg("Project", id)));
        }
        proof {
            if old(self).consistent() {
                lemma_without_ident_pairwise(p0, id, labels_differ::<Project>());
                assert forall|p: int| 0 <= p < self.projects@.len() implies project_consistent(#[trigger] self.projects@[p], self.secrets@) by {
                    lemma_without_ident_elements(p0, id, p);
                    let k = choose|k: int| 0 <= k < p0.len() && p0[k] == self.projects@[p];
                }
            }
        }
        Ok(())
    }

    // -- environments --

    /// Adds an environment to the first project with identifier `project_id`,
    /// if its name is not blank and not yet used in that project.
    pub fn add_environment(&mut self, project_id: u128, env: Environment) -> (r: Result<(), EnvlyError>)
        ensures
            is_blank(env.name@) ==> is_validation_err(r, "Environment name cannot be empty"@),
            !is_blank(env.name@) && first_with_ident(old(self).projects@, project_id) is None
                ==> is_validation_err(r, msg_not_found("Project"@, project_id)),
            !is_blank(env.name@) ==> match first_with_ident(old(self).projects@, project_id) {
                Some(i) => if has_label(old(self).projects@[i].environments@, env.name@) {
                    is_validation_err(r, msg_env_exists(env.name@, old(self).projects@[i].name@))
                } else {
                    r is Ok && project_envs_become(old(self).projects@, final(self).projects@, i,
                        old(self).projects@[i].environments@.push(env))
                },
                None => true,
            },
            r is Err ==> *final(self) == *old(self),
            old(self).consistent() && env_fits(*old(self), project_id, env) ==> final(self).consistent(),
            final(self).secrets == old(self).secrets,
            final(self).cipher_kind == old(self).cipher_kind,
            final(self).cipher_version == old(self).cipher_version,
    {
        if let Err(e) = Self::validate_name(env.name.as_str(), "Environment") {
            proof {
                reveal_strlit("Environment");
                reveal_strlit(" name cannot be empty");
                reveal_strlit("Environment name cannot be empty");
                assert("Environment"@ + " name cannot be empty"@ =~= "Environment name cannot be empty"@);
            }
            return Err(e);
        }
        let pi = match position_of(&self.projects, project_id) {
            Some(i) => i,
            None => {
                return Err(EnvlyError::Validation(not_found_msg("Project", project_id)));
            },
        };
        if any_labelled(&self.projects[pi].environments, &env.name) {
            let mut m = String::new();
            push_str(&mut m, "Environment '");
            push_str(&mut m, env.name.as_str());
            push_str(&mut m, "' already exists in project '");
            push_str(&mut m, self.projects[pi].name.as_str());
            push_str(&mut m, "'");
            proof {
                assert(m@ =~= msg_env_exists(env.name@, self.projects@[pi as int].name@));
            }
            return Err(EnvlyError::Validation(m));
        }
        let ghost e0 = self.projects@[pi as int].environments@;
        self.projects[pi].environments.push(env);
        proof {
            if old(self).consistent() && env_fits(*old(self), project_id, env) {
                let np = self.projects@[pi as int];
                lemma_push_labels_unique(e0, env);
                assert(project_consistent(old(self).projects@[pi as int], self.secrets@));
                assert forall|a: int, b: int| 0 <= a < b < np.environments@.len() implies (not_both_active())(#[trigger] np.environments@[a], #[trigger] np.environments@[b]) by {
                    if b < e0.len() {
                        assert(np.environments@[a] == e0[a] && np.environments@[b] == e0[b]);
                    } else {
                        assert(np.environments@[a] == e0[a]);
                        if env.is_active {
                            assert(!e0[a].is_active);
                        }
                    }
                }
                assert forall|e: int| 0 <= e < np.environments@.len() implies env_consistent(#[trigger] np.environments@[e], self.secrets@) by {
                    if e < e0.len() {
                        assert(np.environments@[e] == e0[e]);
                    }
                }
                lemma_update_project(old(self).projects@, self.projects@, pi as int, self.secrets@);
            }
        }
        Ok(())
    }

    /// Rejects `name` for an environment of the first project with identifier
    /// `project_id` if another environment there already uses it.
    pub fn ensure_env_name_unique(&self, project_id: u128, name: &str, exclude_env_id: u128) -> (r: Result<(), EnvlyError>)
        ensures
            match first_with_ident(self.projects@, project_id) {
                None => is_validation_err(r, msg_not_found("Project"@, project_id)),
                Some(i) => if has_label_except(self.projects@[i].environments@, name@, exclude_env_id) {
                    is_validation_err(r, msg_env_exists(name@, self.projects@[i].name@))
                } else {
                    r is Ok
                },
            },
    {
        let pi = match position_of(&self.projects, project_id) {
            Some(i) => i,
            None => {
                return Err(EnvlyError::Validation(not_found_msg("Project", project_id)));
            },
        };
        let n = name.to_owned();
        if any_labelled_except(&self.projects[pi].environments, &n, exclude_env_id) {
            let mut m = String::new();
            push_str(&mut m, "Environment '");
            push_str(&mut m, name);
            push_str(&mut m, "' already exists in project '");
            push_str(&mut m, self.projects[pi].name.as_str());
            push_str(&mut m, "'");
            proof {
                assert(m@ =~= msg_env_exists(name@, self.projects@[pi as int].name@));
            }
            return Err(EnvlyError::Validation(m));
        }
        Ok(())
    }

    /// Removes every environment with identifier `env_id` from the first project
    /// with identifier `project_id`.
    pub fn remove_environment(&mut self, project_id: u128, env_id: u128) -> (r: Result<(), EnvlyError>)
        ensures
            match first_with_ident(old(self).projects@, project_id) {
                None => is_validation_err(r, msg_not_found("Project"@, project_id)),
                Some(i) => if has_ident(old(self).projects@[i].environments@, env_id) {
                    r is Ok && project_envs_become(old(self).projects@, final(self).projects@, i,
                        without_ident(old(self).projects@[i].environments@, env_id))
                } else {
                    is_validation_err(r, msg_not_found("Environment"@, env_id))
                },
            },
            r is Err ==> *final(self) == *old(self),
            old(self).consistent() ==> final(self).consistent(),
            final(self).secrets == old(self).secrets,
            final(self).cipher_kind == old(self).cipher_kind,
            final(self).cipher_version == old(self).cipher_version,
    {
        let pi = match position_of(&self.projects, project_id) {
            Some(i) => i,
            None => {
                return Err(EnvlyError::Validation(not_found_msg("Project", project_id)));
            },
        };
        if position_of(&self.projects[pi].environments, env_id).is_none() {
            return Err(EnvlyError::Validation(not_found_msg("Environment", env_id)));
        }
        let ghost e0 = self.projects@[pi as int].environments@;
        remove_with_ident(&mut self.projects[pi].environments, env_id);
        proof {
            if old(self).consistent() {
                let np = self.projects@[pi as int];
                assert(project_consistent(old(self).projects@[pi as int], self.secrets@));
                lemma_without_ident_pairwise(e0, env_id, labels_differ::<Environment>());
                lemma_without_ident_pairwise(e0, env_id, not_both_active());
                assert forall|e: int| 0 <= e < np.environments@.len() implies env_consistent(#[trigger] np.environments@[e], self.secrets@) by {
                    lemma_without_ident_elements(e0, env_id, e);
                    let k = choose|k: int| 0 <= k < e0.len() && e0[k] == np.environments@[e];
                }
                lemma_update_project(old(self).projects@, self.projects@, pi as int, self.secrets@);
            }
        }
        Ok(())
    }

    /// Makes environment `env_id` the only active one of the first project with
    /// identifier `project_id`.
    pub fn activate_environment(&mut self, project_id: u128, env_id: u128) -> (r: Result<(), EnvlyError>)
        ensures
            match first_with_ident(old(self).projects@, project_id) {
                None => is_validation_err(r, msg_not_found("Project"@, project_id)),
                Some(i) => if has_ident(old(self).projects@[i].environments@, env_id) {
                    &&& r is Ok
                    &&& only_at(old(self).projects@, final(self).projects@, i)
                    &&& same_project_header(old(self).projects@[i], final(self).projects@[i])
                    &&& final(self).projects@[i].environments@.len() == old(self).projects@[i].environments@.len()
                    &&& forall|k: int| 0 <= k < old(self).projects@[i].environments@.len() ==>
                        env_with_active(old(self).projects@[i].environments@[k],
                            #[trigger] final(self).projects@[i].environments@[k],
                            old(self).projects@[i].environments@[k].id == env_id)
                } else {
                    is_validation_err(r, msg_not_found("Environment"@, env_id))
                },
            },
            r is Err ==> *final(self) == *old(self),
            old(self).consistent() && (forall|i: int| first_with_ident(old(self).projects@, project_id) == Some(i)
                ==> ident_at_most_once(old(self).projects@[i].environments@, env_id))
                ==> final(self).consistent(),
            final(self).secrets == old(self).secrets,
            final(self).cipher_kind == old(self).cipher_kind,
            final(self).cipher_version == old(self).cipher_version,
    {
        let pi = match position_of(&self.projects, project_id) {
            Some(i) => i,
            None => {
                return Err(EnvlyError::Validation(not_found_msg("Project", project_id)));
            },
        };
        if position_of(&self.projects[pi].environments, env_id).is_none() {
            return Err(EnvlyError::Validation(not_found_msg("Environment", env_id)));
        }
        let ghost old_ps = self.projects@;
        let n = self.projects[pi].environments.len();
        let mut k: usize = 0;
        while k < n
            invariant
                self.secrets == old(self).secrets,
                self.cipher_kind == old(self).cipher_kind,
                self.cipher_version == old(self).cipher_version,
                old_ps == old(self).projects@,
                pi < old_ps.len(),
                first_with_ident(old_ps, project_id) == Some(pi as int),
                n == old_ps[pi as int].environments@.len(),
                k <= n,
                only_at(old_ps, self.projects@, pi as int),
                same_project_header(old_ps[pi as int], self.projects@[pi as int]),
                self.projects@[pi as int].environments@.len() == n,
                forall|j: int| 0 <= j < k ==> env_with_active(old_ps[pi as int].environments@[j],
                    #[trigger] self.projects@[pi as int].environments@[j], old_ps[pi as int].environments@[j].id == env_id),
                forall|j: int| k <= j < n ==> #[trigger] self.projects@[pi as int].environments@[j] == old_ps[pi as int].environments@[j],
            decreases n - k,
        {
            let is_target = self.projects[pi].environments[k].id == env_id;
            self.projects[pi].environments[k].is_active = is_target;
            k = k + 1;
        }
        proof {
            if old(self).consistent() && ident_at_most_once(old_ps[pi as int].environments@, env_id) {
                let oe = old_ps[pi as int].environments@;
                let ne = self.projects@[pi as int].environments@;
                assert(project_consistent(old_ps[pi as int], self.secrets@));
                assert forall|a: int, b: int| 0 <= a < b < ne.len() implies (labels_differ::<Environment>())(#[trigger] ne[a], #[trigger] ne[b]) by {
                    assert(env_with_active(oe[a], ne[a], oe[a].id == env_id));
                    assert(env_with_active(oe[b], ne[b], oe[b].id == env_id));
                    assert((labels_differ::<Environment>())(oe[a], oe[b]));
                }
                assert forall|a: int, b: int| 0 <= a < b < ne.len() implies (not_both_active())(#[trigger] ne[a], #[trigger] ne[b]) by {
                    assert(env_with_active(oe[a], ne[a], oe[a].id == env_id));
                    assert(env_with_active(oe[b], ne[b], oe[b].id == env_id));
                }
                assert forall|e: int| 0 <= e < ne.len() implies env_consistent(#[trigger] ne[e], self.secrets@) by {
                    assert(env_with_active(oe[e], ne[e], oe[e].id == env_id));
                    assert(env_consistent(oe[e], self.secrets@));
                }
                lemma_update_project(old_ps, self.projects@, pi as int, self.secrets@);
            }
        }
        Ok(())
    }

    /// Marks environment `env_id` of the first project with identifier `project_id` inactive.
    pub fn deactivate_environment(&mut self, project_id: u128, env_id: u128) -> (r: Result<(), EnvlyError>)
        ensures
            match first_with_ident(old(self).projects@, project_id) {
                None => is_validation_err(r, msg_not_found("Project"@, project_id)),
                Some(i) => match first_with_ident(old(self).projects@[i].environments@, env_id) {
                    Some(k) => {
                        &&& r is Ok
                        &&& only_at(old(self).projects@, final(self).projects@, i)
                        &&& same_project_header(old(self).projects@[i], final(self).projects@[i])
                        &&& only_at(old(self).projects@[i].environments@, final(self).projects@[i].environments@, k)
                        &&& env_with_active(old(self).projects@[i].environments@[k], final(self).projects@[i].environments@[k], false)
                    },
                    None => is_validation_err(r, msg_not_found("Environment"@, env_id)),
                },
            },
            r is Err ==> *final(self) == *old(self),
            old(self).consistent() ==> final(self).consistent(),
            final(self).secrets == old(self).secrets,
            final(self).cipher_kind == old(self).cipher_kind,
            final(self).cipher_version == old(self).cipher_version,
    {
        let pi = match position_of(&self.projects, project_id) {
            Some(i) => i,
            None => {
                return Err(EnvlyError::Validation(not_found_msg("Project", project_id)));
            },
        };
        let ei = match position_of(&self.projects[pi].environments, env_id) {
            Some(k) => k,
            None => {
                return Err(EnvlyError::Validation(not_found_msg("Environment", env_id)));
            },
        };
        self.projects[pi].environments[ei].is_active = false;
        proof {
            if old(self).consistent() {
                let oe = old(self).projects@[pi as int].environments@;
                assert(project_consistent(old(self).projects@[pi as int], self.secrets@));
                assert(env_consistent(oe[ei as int], self.secrets@));
                lemma_update_env(oe, self.projects@[pi as int].environments@, ei as int, self.secrets@);
                lemma_update_project(old(self).projects@, self.projects@, pi as int, self.secrets@);
            }
        }
        Ok(())
    }

    // -- mappings --

    /// Adds a mapping to environment `env_id` of the first project with identifier
    /// `project_id`: its local key must not be blank nor used in that environment,
    /// and the secret it names must exist.
    pub fn add_mapping(&mut self, project_id: u128, env_id: u128, mapping: EnvMapping) -> (r: Result<(), EnvlyError>)
        ensures
            is_blank(mapping.local_key@) ==> is_validation_err(r, "Mapping local_key cannot be empty"@),
            !is_blank(mapping.local_key@) && !has_ident(old(self).secrets@, mapping.secret_id)
                ==> is_validation_err(r, msg_not_found("Secret"@, mapping.secret_id)),
            !is_blank(mapping.local_key@) && has_ident(old(self).secrets@, mapping.secret_id) ==>
                match first_with_ident(old(self).projects@, project_id) {
                    None => is_validation_err(r, msg_not_found("Project"@, project_id)),
                    Some(i) => match first_with_ident(old(self).projects@[i].environments@, env_id) {
                        None => is_validation_err(r, msg_not_found("Environment"@, env_id)),
                        Some(k) => if has_label(old(self).projects@[i].environments@[k].mappings@, mapping.local_key@) {
                            is_validation_err(r, msg_mapping_exists(mapping.local_key@))
                        } else {
                            &&& r is Ok
                            &&& only_at(old(self).projects@, final(self).projects@, i)
                            &&& same_project_header(old(self).projects@[i], final(self).projects@[i])
                            &&& env_mappings_become(old(self).projects@[i].environments@,
                                final(self).projects@[i].environments@, k,
                                old(self).projects@[i].environments@[k].mappings@.push(mapping))
                        },
                    },
                },
            r is Err ==> *final(self) == *old(self),
            old(self).consistent() ==> final(self).consistent(),
            final(self).secrets == old(self).secrets,
            final(self).cipher_kind == old(self).cipher_kind,
            final(self).cipher_version == old(self).cipher_version,
    {
        Self::validate_local_key(mapping.local_key.as_str())?;
        if position_of(&self.secrets, mapping.secret_id).is_none() {
            return Err(EnvlyError::Validation(not_found_msg("Secret", mapping.secret_id)));
        }
        let pi = match position_of(&self.projects, project_id) {
            Some(i) => i,
            None => {
                return Err(EnvlyError::Validation(not_found_msg("Project", project_id)));
            },
        };
        let ei = match position_of(&self.projects[pi].environments, env_id) {
            Some(k) => k,
            None => {
                return Err(EnvlyError::Validation(not_found_msg("Environment", env_id)));
            },
        };
        if any_labelled(&self.projects[pi].environments[ei].mappings, &mapping.local_key) {
            return Err(EnvlyError::Validation(between("Mapping with local_key '", mapping.local_key.as_str(), "' already exists in this environment")));
        }
        let ghost m0 = self.projects@[pi as int].environments@[ei as int].mappings@;
        self.projects[pi].environments[ei].mappings.push(mapping);
        proof {
            if old(self).consistent() {
                let oe = old(self).projects@[pi as int].environments@;
                let ne = self.projects@[pi as int].environments@;
                assert(project_consistent(old(self).projects@[pi as int], self.secrets@));
                assert(env_consistent(oe[ei as int], self.secrets@));
                lemma_push_labels_unique(m0, mapping);
                assert forall|m: int| 0 <= m < ne[ei as int].mappings@.len() implies has_ident(self.secrets@, (#[trigger] ne[ei as int].mappings@[m]).secret_id) by {
                    if m < m0.len() {
                        assert(ne[ei as int].mappings@[m] == m0[m]);
                    }
                }
                lemma_update_env(oe, ne, ei as int, self.secrets@);
                lemma_update_project(old(self).projects@, self.projects@, pi as int, self.secrets@);
            }
        }
        Ok(())
    }

    /// Removes every mapping with identifier `mapping_id` from environment `env_id`
    /// of the first project with identifier `project_id`.
    pub fn remove_mapping(&mut self, project_id: u128, env_id: u128, mapping_id: u128) -> (r: Result<(), EnvlyError>)
        ensures
            match first_with_ident(old(self).projects@, project_id) {
                None => is_validation_err(r, msg_not_found("Project"@, project_id)),
                Some(i) => match first_with_ident(old(self).projects@[i].environments@, env_id) {
                    None => is_validation_err(r, msg_not_found("Environment"@, env_id)),
                    Some(k) => if has_ident(old(self).projects@[i].environments@[k].mappings@, mapping_id) {
                        &&& r is Ok
                        &&& only_at(old(self).projects@, final(self).projects@, i)
                        &&& same_project_header(old(self).projects@[i], final(self).projects@[i])
                        &&& env_mappings_become(old(self).projects@[i].environments@,
                            final(self).projects@[i].environments@, k,
                            without_ident(old(self).projects@[i].environments@[k].mappings@, mapping_id))
                    } else {
                        is_validation_err(r, msg_not_found("Mapping"@, mapping_id))
                    },
                },
            },
            r is Err ==> *final(self) == *old(self),
            old(self).consistent() ==> final(self).consistent(),
            final(self).secrets == old(self).secrets,
            final(self).cipher_kind == old(self).cipher_kind,
            final(self).cipher_version == old(self).cipher_version,
    {
        let pi = match position_of(&self.projects, project_id) {
            Some(i) => i,
            None => {
                return Err(EnvlyError::Validation(not_found_msg("Project", project_id)));
            },
        };
        let ei = match position_of(&self.projects[pi].environments, env_id) {
            Some(k) => k,
            None => {
                return Err(EnvlyError::Validation(not_found_msg("Environment", env_id)));
            },
        };
        if position_of(&self.projects[pi].environments[ei].mappings, mapping_id).is_none() {
            return Err(EnvlyError::Validation(not_found_msg("Mapping", mapping_id)));
        }
        let ghost m0 = self.projects@[pi as int].environments@[ei as int].mappings@;
        remove_with_ident(&mut self.projects[pi].environments[ei].mappings, mapping_id);
        proof {
            if old(self).consistent() {
                let oe = old(self).projects@[pi as int].environments@;
                let ne = self.projects@[pi as int].environments@;
                assert(project_consistent(old(self).projects@[pi as int], self.secrets@));
                assert(env_consistent(oe[ei as int], self.secrets@));
                lemma_without_ident_pairwise(m0, mapping_id, labels_differ::<EnvMapping>());
                assert forall|m: int| 0 <= m < ne[ei as int].mappings@.len() implies has_ident(self.secrets@, (#[trigger] ne[ei as int].mappings@[m]).secret_id) by {
                    lemma_without_ident_elements(m0, mapping_id, m);
                    let k = choose|k: int| 0 <= k < m0.len() && m0[k] == ne[ei as int].mappings@[m];
                }
                lemma_update_env(oe, ne, ei as int, self.secrets@);
                lemma_update_project(old(self).projects@, self.projects@, pi as int, self.secrets@);
            }
        }
        Ok(())
    }

    // -- validation --

    /// Rejects a name that is empty or only white space; `entity` names what is named.
    pub fn validate_name(name: &str, entity: &str) -> (r: Result<(), EnvlyError>)
        ensures
            is_blank(name@) ==> is_validation_err(r, entity@ + " name cannot be empty"@),
            !is_blank(name@) ==> r is Ok,
    {
        if is_blank_str(name) {
            let mut m = String::new();
            push_str(&mut m, entity);
            push_str(&mut m, " name cannot be empty");
            proof {
                assert(m@ =~= entity@ + " name cannot be empty"@);
            }
            return Err(EnvlyError::Validation(m));
        }
        Ok(())
    }

    /// Rejects a mapping's local key that is empty or only white space.
    pub fn validate_local_key(key: &str) -> (r: Result<(), EnvlyError>)
        ensures
            is_blank(key@) ==> is_validation_err(r, "Mapping local_key cannot be empty"@),
            !is_blank(key@) ==> r is Ok,
    {
        if is_blank_str(key) {
            return Err(EnvlyError::Validation("Mapping local_key cannot be empty".to_owned()));
        }
        Ok(())
    }
}

} // verus!
