//! Secret commands: listing, revealing, creating, changing, deleting and
//! importing secrets in bulk, and finding the active `.env` links that a
//! change of secrets makes stale.

use vstd::prelude::*;
use crate::error::{EnvlyError, error_text, map_err};
use crate::ids::{Timestamp, utc_now};
use crate::seqs::{
    Identified, Labelled, has_ident, has_label, has_label_except, first_with_ident, without_ident,
    labels_unique, labels_differ, pairwise, position_of, lemma_first_with_ident, any_labelled,
    lemma_push_labels_unique,
};
use crate::models::{
    Vault, Project, Environment, EnvMapping, Secret, Zeroizing, msg_not_found, msg_key_exists,
    is_referenced, first_reference, msg_reference, project_consistent, env_consistent,
    idents_unique, idents_kept, lemma_project_consistent_kept, lemma_push_keeps_idents,
};
use crate::resolver::{resolve_environment, format_env_file, dangling, lemma_resolved_text};
use crate::text::is_blank;
use crate::commands::{validation_text, fails_with, report};
use crate::commands::environments::{missing, missing_text, link_content};

verus! {

/// What a secret list shows of a secret: everything but its value.
pub struct SecretSummary {
    pub id: u128,
    pub key: String,
    pub description: String,
    pub expires_at: Option<i32>,
    pub tags: Vec<String>,
    pub created_at: Timestamp,
    pub updated_at: Timestamp,
}

/// `s` shows secret `x`.
pub open spec fn secret_summarizes(s: SecretSummary, x: Secret) -> bool {
    &&& s.id == x.id
    &&& s.key == x.key
    &&& s.description == x.description
    &&& s.expires_at == x.expires_at
    &&& s.tags@ == x.tags@
    &&& s.created_at == x.created_at
    &&& s.updated_at == x.updated_at
}

/// A copy of the strings `v`.
pub fn clone_strings(v: &Vec<String>) -> (r: Vec<String>)
    ensures
        r@ == v@,
{
    let mut r: Vec<String> = Vec::new();
    let mut i: usize = 0;
    while i < v.len()
        invariant
            i <= v@.len(),
            r@ == v@.take(i as int),
        decreases v.len() - i,
    {
        r.push(v[i].clone());
        proof {
            assert(v@.take(i + 1) =~= v@.take(i as int).push(v@[i as int]));
        }
        i = i + 1;
    }
    proof {
        assert(v@.take(v@.len() as int) =~= v@);
    }
    r
}

impl SecretSummary {
    /// The summary of `x`.
    pub fn from(x: &Secret) -> (s: Self)
        ensures
            secret_summarizes(s, *x),
    {
        SecretSummary {
            id: x.id,
            key: x.key.clone(),
            description: x.description.clone(),
            expires_at: x.expires_at,
            tags: clone_strings(&x.tags),
            created_at: x.created_at,
            updated_at: x.updated_at,
        }
    }
}

/// The summaries of all secrets, in order.
pub fn list_secrets(vault: &Vault) -> (r: Vec<SecretSummary>)
    ensures
        r@.len() == vault.secrets@.len(),
        forall|i: int| 0 <= i < r@.len() ==> secret_summarizes(#[trigger] r@[i], vault.secrets@[i]),
{
    let mut r: Vec<SecretSummary> = Vec::new();
    let mut i: usize = 0;
    while i < vault.secrets.len()
        invariant
            i <= vault.secrets@.len(),
            r@.len() == i,
            forall|j: int| 0 <= j < i ==> secret_summarizes(#[trigger] r@[j], vault.secrets@[j]),
        decreases vault.secrets.len() - i,
    {
        r.push(SecretSummary::from(&vault.secrets[i]));
        i = i + 1;
    }
    r
}

/// The value of secret `id`.
pub fn reveal_secret_value(vault: &Vault, id: u128) -> (r: Result<String, String>)
    ensures
        match first_with_ident(vault.secrets@, id) {
            Some(i) => r matches Ok(v) && v == vault.secrets@[i].value.inner(),
            None => fails_with(r, missing_text("Secret"@, id)),
        },
{
    match vault.find_secret(id) {
        Some(s) => Ok(s.value.as_inner().clone()),
        None => Err(missing("Secret", id)),
    }
}

/// What a new secret is made of.
pub struct CreateSecretArgs {
    pub key: String,
    pub value: String,
    pub description: String,
    pub expires_at: Option<i32>,
    pub tags: Vec<String>,
}

/// `s` is a fresh secret made from `args`.
pub open spec fn secret_made_from(s: Secret, args: CreateSecretArgs) -> bool {
    &&& s.key == args.key
    &&& s.value.inner() == args.value
    &&& s.description == args.description
    &&& s.expires_at == args.expires_at
    &&& s.tags == args.tags
    &&& s.created_at == s.updated_at
}

/// Creates a secret from `args`; its key must not be blank nor taken.
/// Gives the new secret's identifier.
pub fn create_secret(vault: &mut Vault, args: CreateSecretArgs) -> (r: Result<u128, String>)
    ensures
        final(vault).cipher_kind == old(vault).cipher_kind,
        final(vault).cipher_version == old(vault).cipher_version,
        is_blank(args.key@) ==> fails_with(r, validation_text("Secret key cannot be empty"@)),
        !is_blank(args.key@) && has_label(old(vault).secrets@, args.key@) ==> fails_with(
            r,
            validation_text(msg_key_exists(args.key@)),
        ),
        r is Ok <==> !is_blank(args.key@) && !has_label(old(vault).secrets@, args.key@),
        r matches Ok(id) ==> {
            &&& final(vault).secrets@.len() == old(vault).secrets@.len() + 1
            &&& final(vault).secrets@.drop_last() == old(vault).secrets@
            &&& final(vault).secrets@.last().id == id
            &&& secret_made_from(final(vault).secrets@.last(), args)
        },
        r is Err ==> *final(vault) == *old(vault),
        final(vault).projects == old(vault).projects,
        old(vault).consistent() ==> final(vault).consistent(),
{
    let mut secret = Secret::new(args.key, args.value);
    secret.description = args.description;
    secret.expires_at = args.expires_at;
    secret.tags = args.tags;
    let id = secret.id;
    let r = vault.add_secret(secret);
    proof {
        if r is Ok {
            assert(final(vault).secrets@.drop_last() =~= old(vault).secrets@);
        }
    }
    match r {
        Ok(()) => Ok(id),
        Err(e) => Err(map_err(e)),
    }
}

/// Which fields of a secret to change; `expires_at` may set or clear the expiry.
pub struct UpdateSecretArgs {
    pub id: u128,
    pub key: Option<String>,
    pub value: Option<String>,
    pub description: Option<String>,
    pub expires_at: Option<Option<i32>>,
    pub tags: Option<Vec<String>>,
}

/// `n` is secret `o` with the fields that `args` gives replaced, and its
/// update time set anew.
pub open spec fn secret_changed(o: Secret, n: Secret, args: UpdateSecretArgs) -> bool {
    &&& n.id == o.id
    &&& n.key == (match args.key {
        Some(x) => x,
        None => o.key,
    })
    &&& n.value.inner() == (match args.value {
        Some(x) => x,
        None => o.value.inner(),
    })
    &&& n.description == (match args.description {
        Some(x) => x,
        None => o.description,
    })
    &&& n.expires_at == (match args.expires_at {
        Some(x) => x,
        None => o.expires_at,
    })
    &&& n.tags == (match args.tags {
        Some(x) => x,
        None => o.tags,
    })
    &&& n.created_at == o.created_at
}

/// Changes the fields of secret `args.id` that `args` gives; a new key must
/// not be used by another secret. Gives whether the value changed, in which
/// case the links that use the secret must be written again.
pub fn update_secret(vault: &mut Vault, args: UpdateSecretArgs) -> (r: Result<bool, String>)
    ensures
        final(vault).cipher_kind == old(vault).cipher_kind,
        final(vault).cipher_version == old(vault).cipher_version,
        (args.key matches Some(k) && has_label_except(old(vault).secrets@, k@, args.id)) ==> fails_with(
            r,
            validation_text(msg_key_exists(args.key->Some_0@)),
        ),
        !(args.key matches Some(k) && has_label_except(old(vault).secrets@, k@, args.id)) ==> match first_with_ident(
            old(vault).secrets@,
            args.id,
        ) {
            Some(i) => r == Ok::<bool, String>(args.value is Some) && final(vault).secrets@.len()
                == old(vault).secrets@.len() && (forall|j: int|
                0 <= j < old(vault).secrets@.len() && j != i ==> #[trigger] final(vault).secrets@[j]
                    == old(vault).secrets@[j]) && secret_changed(
                old(vault).secrets@[i],
                final(vault).secrets@[i],
                args,
            ),
            None => fails_with(r, missing_text("Secret"@, args.id)),
        },
        r is Err ==> *final(vault) == *old(vault),
        final(vault).projects == old(vault).projects,
        old(vault).consistent() && idents_unique(old(vault).secrets@) ==> final(vault).consistent(),
{
    if let Some(key) = &args.key {
        if let Err(e) = vault.ensure_secret_key_unique(key.as_str(), args.id) {
            return Err(map_err(e));
        }
    }
    let ghost old_vault = *vault;
    let now = utc_now();
    let ghost s = vault.secrets@;
    let secret = match vault.find_secret_mut(args.id) {
        Some(x) => x,
        None => {
            return Err(missing("Secret", args.id));
        },
    };
    if let Some(key) = args.key {
        secret.key = key;
    }
    let value_changed = args.value.is_some();
    if let Some(value) = args.value {
        secret.value = Zeroizing::new(value);
    }
    if let Some(desc) = args.description {
        secret.description = desc;
    }
    if let Some(exp) = args.expires_at {
        secret.expires_at = exp;
    }
    if let Some(tags) = args.tags {
        secret.tags = tags;
    }
    secret.updated_at = now;
    proof {
        lemma_first_with_ident(s, args.id);
        let i = first_with_ident(s, args.id)->Some_0;
        let t = vault.secrets@;
        if old_vault.consistent() && idents_unique(s) {
            assert forall|a: int, b: int| 0 <= a < b < t.len() implies (labels_differ::<Secret>())(
                #[trigger] t[a],
                #[trigger] t[b],
            ) by {
                if a == i {
                    assert(t[b] == s[b]);
                    assert(s[b].id != args.id);
                } else if b == i {
                    assert(t[a] == s[a]);
                    assert(s[a].id != args.id);
                } else {
                    assert(t[a] == s[a] && t[b] == s[b]);
                    assert((labels_differ::<Secret>())(s[a], s[b]));
                }
            }
            assert(idents_kept(s, t)) by {
                assert forall|id: u128| has_ident(s, id) implies #[trigger] has_ident(t, id) by {
                    let j = choose|j: int| 0 <= j < s.len() && (#[trigger] s[j]).ident() == id;
                    assert(t[j].ident() == id);
                }
            }
            assert forall|p: int| 0 <= p < vault.projects@.len() implies project_consistent(
                #[trigger] vault.projects@[p],
                t,
            ) by {
                lemma_project_consistent_kept(vault.projects@[p], s, t);
            }
        }
    }
    Ok(value_changed)
}

/// Deletes secret `id`, unless a mapping still refers to it.
pub fn delete_secret(vault: &mut Vault, id: u128) -> (r: Result<(), String>)
    ensures
        final(vault).cipher_kind == old(vault).cipher_kind,
        final(vault).cipher_version == old(vault).cipher_version,
        is_referenced(old(vault).projects@, id) ==> exists|p: int, e: int, m: int|
            first_reference(old(vault).projects@, id, p, e, m) && fails_with(
                r,
                validation_text(msg_reference(old(vault).projects@, p, e, m)),
            ),
        !is_referenced(old(vault).projects@, id) && has_ident(old(vault).secrets@, id) ==> r is Ok
            && final(vault).secrets@ == without_ident(old(vault).secrets@, id),
        !is_referenced(old(vault).projects@, id) && !has_ident(old(vault).secrets@, id)
            ==> fails_with(r, validation_text(msg_not_found("Secret"@, id))),
        r is Err ==> *final(vault) == *old(vault),
        final(vault).projects == old(vault).projects,
        old(vault).consistent() ==> final(vault).consistent(),
{
    report(vault.remove_secret(id))
}

/// The key and value of a secret.
pub open spec fn key_value(x: Secret) -> (Seq<char>, Seq<char>) {
    (x.key@, x.value.inner()@)
}

/// The keys and values of `s`, in order.
pub open spec fn key_values(s: Seq<Secret>) -> Seq<(Seq<char>, Seq<char>)> {
    s.map_values(|x: Secret| key_value(x))
}

/// The keys and values of bulk entries, in order.
pub open spec fn entry_pairs(es: Seq<BulkSecretEntry>) -> Seq<(Seq<char>, Seq<char>)> {
    es.map_values(|e: BulkSecretEntry| (e.key@, e.value@))
}

/// The index of the first pair of `s` whose key is `k`.
pub open spec fn first_key(s: Seq<(Seq<char>, Seq<char>)>, k: Seq<char>) -> Option<int>
    decreases s.len(),
{
    if s.len() == 0 {
        None
    } else if s[0].0 == k {
        Some(0)
    } else {
        match first_key(s.drop_first(), k) {
            Some(i) => Some(i + 1),
            None => None,
        }
    }
}

/// What `first_key` finds.
pub proof fn lemma_first_key(s: Seq<(Seq<char>, Seq<char>)>, k: Seq<char>)
    ensures
        match first_key(s, k) {
            Some(i) => 0 <= i < s.len() && s[i].0 == k && forall|j: int|
                0 <= j < i ==> (#[trigger] s[j]).0 != k,
            None => forall|j: int| 0 <= j < s.len() ==> (#[trigger] s[j]).0 != k,
        },
    decreases s.len(),
{
    if s.len() > 0 {
        lemma_first_key(s.drop_first(), k);
        if s[0].0 != k {
            assert forall|j: int| 0 < j < s.len() implies #[trigger] s[j] == s.drop_first()[j - 1] by {}
        }
    }
}

/// One imported entry: the first secret with its key takes its value, or a
/// new secret is added when none has that key.
pub open spec fn bulk_step(s: Seq<(Seq<char>, Seq<char>)>, e: (Seq<char>, Seq<char>)) -> Seq<
    (Seq<char>, Seq<char>),
> {
    match first_key(s, e.0) {
        Some(j) => s.update(j, e),
        None => s.push(e),
    }
}

/// The keys and values after importing the entries `es`, one after another.
pub open spec fn bulk_applied(s: Seq<(Seq<char>, Seq<char>)>, es: Seq<(Seq<char>, Seq<char>)>) -> Seq<
    (Seq<char>, Seq<char>),
>
    decreases es.len(),
{
    if es.len() == 0 {
        s
    } else {
        bulk_step(bulk_applied(s, es.drop_last()), es.last())
    }
}

/// `b` is the secret `a` with perhaps another value and another update time.
pub open spec fn details_kept(a: Secret, b: Secret) -> bool {
    &&& b.id == a.id
    &&& b.key == a.key
    &&& b.description == a.description
    &&& b.expires_at == a.expires_at
    &&& b.tags == a.tags
    &&& b.created_at == a.created_at
}

/// A secret with no description, expiry or tags, as an import creates it.
pub open spec fn bare_secret(s: Secret) -> bool {
    &&& s.description@ == Seq::<char>::empty()
    &&& s.expires_at is None
    &&& s.tags@ == Seq::<String>::empty()
}

/// No pair of `es` has the key `k`.
pub open spec fn key_absent(es: Seq<(Seq<char>, Seq<char>)>, k: Seq<char>) -> bool {
    forall|i: int| 0 <= i < es.len() ==> (#[trigger] es[i]).0 != k
}

/// Entry `k` of `es`, imported into `kv0` after the entries before it,
/// overwrote the secret at index `j`: a secret with its key was already there.
pub open spec fn overwrote(kv0: Seq<(Seq<char>, Seq<char>)>, es: Seq<(Seq<char>, Seq<char>)>, k: int, j: int) -> bool {
    0 <= k < es.len() && first_key(bulk_applied(kv0, es.take(k)), es[k].0) == Some(j)
}

/// `id` is the identifier of a secret of `secrets` that some entry of `es`
/// overwrote when imported into `kv0`.
pub open spec fn overwritten_id(
    secrets: Seq<Secret>,
    kv0: Seq<(Seq<char>, Seq<char>)>,
    es: Seq<(Seq<char>, Seq<char>)>,
    id: u128,
) -> bool {
    exists|k: int, j: int| #[trigger] overwrote(kv0, es, k, j) && 0 <= j < secrets.len() && secrets[j].id == id
}

/// What entry `k` overwrote, among the first `t + 1` entries: an entry before
/// the last overwrote what it overwrote among the first `t`, and the last one
/// overwrote the first secret with its key, if any.
proof fn lemma_overwrote_step(kv0: Seq<(Seq<char>, Seq<char>)>, es: Seq<(Seq<char>, Seq<char>)>, t: int, k: int, j: int)
    requires
        0 <= t < es.len(),
    ensures
        overwrote(kv0, es.take(t + 1), k, j) == ((k < t && overwrote(kv0, es.take(t), k, j)) || (k
            == t && first_key(bulk_applied(kv0, es.take(t)), es[t].0) == Some(j))),
{
    if 0 <= k <= t {
        assert(es.take(t + 1).take(k) =~= es.take(k));
        assert(es.take(t + 1)[k] == es[k]);
        if k < t {
            assert(es.take(t).take(k) =~= es.take(k));
            assert(es.take(t)[k] == es[k]);
        }
    }
}

/// One `KEY=value` pair to import.
pub struct BulkSecretEntry {
    pub key: String,
    pub value: String,
}

/// How many secrets an import created and how many it overwrote.
pub struct BulkCreateResult {
    pub created: usize,
    pub updated: usize,
}

/// Whether `id` occurs in `ids`.
fn holds_id(ids: &Vec<u128>, id: u128) -> (b: bool)
    ensures
        b == ids@.contains(id),
{
    let mut i: usize = 0;
    while i < ids.len()
        invariant
            i <= ids@.len(),
            forall|k: int| 0 <= k < i ==> ids@[k] != id,
        decreases ids.len() - i,
    {
        if ids[i] == id {
            return true;
        }
        i = i + 1;
    }
    false
}

/// The index of the first secret whose key is `key`.
fn find_key(secrets: &Vec<Secret>, key: &String) -> (r: Option<usize>)
    ensures
        match first_key(key_values(secrets@), key@) {
            Some(i) => r matches Some(j) && j == i,
            None => r is None,
        },
{
    let ghost kv = key_values(secrets@);
    proof {
        lemma_first_key(kv, key@);
    }
    let mut i: usize = 0;
    while i < secrets.len()
        invariant
            kv == key_values(secrets@),
            i <= secrets@.len(),
            forall|j: int| 0 <= j < i ==> (#[trigger] kv[j]).0 != key@,
            match first_key(kv, key@) {
                Some(k) => 0 <= k < kv.len() && kv[k].0 == key@ && forall|j: int|
                    0 <= j < k ==> (#[trigger] kv[j]).0 != key@,
                None => forall|j: int| 0 <= j < kv.len() ==> (#[trigger] kv[j]).0 != key@,
            },
        decreases secrets.len() - i,
    {
        assert(kv[i as int] == key_value(secrets@[i as int]));
        if secrets[i].key.eq(key) {
            return Some(i);
        }
        i = i + 1;
    }
    None
}

/// Imports `entries` in order: an entry whose key a secret already has
/// overwrites that secret's value, any other entry becomes a new secret.
/// Gives the counts and the identifiers of the overwritten secrets, each once,
/// whose links must be written again.
pub fn bulk_create_secrets(vault: &mut Vault, entries: Vec<BulkSecretEntry>) -> (r: (
    BulkCreateResult,
    Vec<u128>,
))
    ensures
        final(vault).cipher_kind == old(vault).cipher_kind,
        final(vault).cipher_version == old(vault).cipher_version,
        key_values(final(vault).secrets@) == bulk_applied(
            key_values(old(vault).secrets@),
            entry_pairs(entries@),
        ),
        final(vault).secrets@.len() == old(vault).secrets@.len() + r.0.created,
        r.0.created + r.0.updated == entries@.len(),
        forall|j: int|
            0 <= j < old(vault).secrets@.len() ==> (#[trigger] final(vault).secrets@[j]).id == old(
                vault,
            ).secrets@[j].id,
        forall|j: int|
            0 <= j < old(vault).secrets@.len() ==> details_kept(
                old(vault).secrets@[j],
                #[trigger] final(vault).secrets@[j],
            ),
        forall|j: int|
            0 <= j < old(vault).secrets@.len() && key_absent(
                entry_pairs(entries@),
                old(vault).secrets@[j].key@,
            ) ==> #[trigger] final(vault).secrets@[j] == old(vault).secrets@[j],
        forall|j: int|
            old(vault).secrets@.len() <= j < final(vault).secrets@.len() ==> bare_secret(
                #[trigger] final(vault).secrets@[j],
            ),
        forall|k: int| 0 <= k < r.1@.len() ==> has_ident(final(vault).secrets@, #[trigger] r.1@[k]),
        forall|id: u128|
            #![trigger r.1@.contains(id)]
            r.1@.contains(id) <==> overwritten_id(
                final(vault).secrets@,
                key_values(old(vault).secrets@),
                entry_pairs(entries@),
                id,
            ),
        r.1@.no_duplicates(),
        final(vault).projects == old(vault).projects,
        old(vault).consistent() ==> final(vault).consistent(),
{
    let ghost s0 = vault.secrets@;
    let ghost kv0 = key_values(s0);
    let ghost es = entry_pairs(entries@);
    let ghost n = entries@.len();
    let mut entries = entries;
    let mut created: usize = 0;
    let mut updated: usize = 0;
    let mut ids: Vec<u128> = Vec::new();
    let ghost mut idx: Seq<int> = Seq::empty();
    let mut t: usize = 0;
    proof {
        assert(es.take(0) =~= Seq::<(Seq<char>, Seq<char>)>::empty());
        assert(n == entries.len());
    }
    while entries.len() > 0
        invariant
            n == es.len(),
            n <= usize::MAX,
            t <= n,
            entries@.len() == n - t,
            forall|k: int|
                0 <= k < entries@.len() ==> (#[trigger] entries@[k]).key@ == es[t + k].0
                    && entries@[k].value@ == es[t + k].1,
            key_values(vault.secrets@) == bulk_applied(kv0, es.take(t as int)),
            vault.secrets@.len() == s0.len() + created,
            created + updated == t,
            forall|j: int| 0 <= j < s0.len() ==> (#[trigger] vault.secrets@[j]).id == s0[j].id,
            forall|j: int| 0 <= j < s0.len() ==> details_kept(s0[j], #[trigger] vault.secrets@[j]),
            forall|j: int|
                0 <= j < s0.len() && key_absent(es.take(t as int), s0[j].key@) ==> #[trigger]
                    vault.secrets@[j] == s0[j],
            forall|j: int| s0.len() <= j < vault.secrets@.len() ==> bare_secret(#[trigger] vault.secrets@[j]),
            idx.len() == ids@.len(),
            ids@.no_duplicates(),
            forall|k: int, j: int|
                #[trigger] overwrote(kv0, es.take(t as int), k, j) ==> 0 <= j < vault.secrets@.len(),
            forall|id: u128|
                #![trigger ids@.contains(id)]
                ids@.contains(id) <==> overwritten_id(vault.secrets@, kv0, es.take(t as int), id),
            forall|k: int|
                0 <= k < ids@.len() ==> 0 <= #[trigger] idx[k] < vault.secrets@.len()
                    && vault.secrets@[idx[k]].id == ids@[k],
            vault.cipher_kind == old(vault).cipher_kind,
            vault.cipher_version == old(vault).cipher_version,
            vault.projects == old(vault).projects,
            s0 == old(vault).secrets@,
            kv0 == key_values(s0),
            old(vault).consistent() ==> labels_unique(vault.secrets@) && idents_kept(
                s0,
                vault.secrets@,
            ),
        decreases entries.len(),
    {
        let ghost kv = key_values(vault.secrets@);
        let ghost sv = vault.secrets@;
        let e = entries.remove(0);
        proof {
            assert(e.key@ == es[t as int].0 && e.value@ == es[t as int].1);
            assert(es.take(t + 1).drop_last() =~= es.take(t as int));
            assert(es.take(t + 1).last() == es[t as int]);
            lemma_first_key(kv, e.key@);
        }
        match find_key(&vault.secrets, &e.key) {
            Some(j) => {
                let now = utc_now();
                let id = vault.secrets[j].id;
                vault.secrets[j].value = Zeroizing::new(e.value);
                vault.secrets[j].updated_at = now;
                let ghost ids0 = ids@;
                let seen = holds_id(&ids, id);
                if !seen {
                    ids.push(id);
                }
                updated = updated + 1;
                proof {
                    let nv = vault.secrets@;
                    assert(key_values(nv) =~= kv.update(j as int, es[t as int]));
                    assert(kv[j as int] == key_value(sv[j as int]));
                    assert forall|i: int|
                        0 <= i < s0.len() && key_absent(es.take(t + 1), s0[i].key@) implies #[trigger]
                        nv[i] == s0[i] by {
                        assert(es.take(t + 1)[t as int] == es[t as int]);
                        if i == j {
                            assert(details_kept(s0[i], sv[i]));
                        } else {
                            assert(nv[i] == sv[i]);
                            assert forall|q: int| 0 <= q < es.take(t as int).len() implies (
                            #[trigger] es.take(t as int)[q]).0 != s0[i].key@ by {
                                assert(es.take(t as int)[q] == es.take(t + 1)[q]);
                            }
                        }
                    }
                    assert forall|i: int| 0 <= i < s0.len() implies details_kept(s0[i], #[trigger] nv[i]) by {
                        assert(details_kept(s0[i], sv[i]));
                    }
                    assert forall|i: int| s0.len() <= i < nv.len() implies bare_secret(#[trigger] nv[i]) by {
                        assert(bare_secret(sv[i]));
                    }
                    if !seen {
                        idx = idx.push(j as int);
                        assert(ids@ == ids0.push(id));
                        assert forall|a: int, b: int| 0 <= a < b < ids@.len() implies ids@[a] != ids@[b] by {
                            if b == ids@.len() - 1 {
                                assert(ids0[a] == ids@[a]);
                            } else {
                                assert(ids0[a] != ids0[b]);
                            }
                        }
                    }
                    assert forall|k: int| 0 <= k < ids@.len() implies 0 <= #[trigger] idx[k]
                        < nv.len() && nv[idx[k]].id == ids@[k] by {
                        if k < ids0.len() {
                            assert(nv[idx[k]].id == sv[idx[k]].id);
                        }
                    }
                    let ghost t1 = (t + 1) as int;
                    assert(first_key(kv, es[t as int].0) == Some(j as int));
                    assert forall|k: int, jj: int| #[trigger] overwrote(kv0, es.take(t1), k, jj) implies 0
                        <= jj < nv.len() by {
                        lemma_overwrote_step(kv0, es, t as int, k, jj);
                    }
                    assert forall|x: u128| #![trigger ids@.contains(x)]
                        ids@.contains(x) <==> overwritten_id(nv, kv0, es.take(t1), x) by {
                        if ids@.contains(x) {
                            if ids0.contains(x) {
                                assert(overwritten_id(sv, kv0, es.take(t as int), x));
                                let (k, jj) = choose|k: int, jj: int| #[trigger] overwrote(
                                    kv0,
                                    es.take(t as int),
                                    k,
                                    jj,
                                ) && 0 <= jj < sv.len() && sv[jj].id == x;
                                lemma_overwrote_step(kv0, es, t as int, k, jj);
                                assert(nv[jj].id == sv[jj].id);
                                assert(overwrote(kv0, es.take(t1), k, jj));
                            } else {
                                assert(x == id);
                                lemma_overwrote_step(kv0, es, t as int, t as int, j as int);
                                assert(overwrote(kv0, es.take(t1), t as int, j as int));
                            }
                        }
                        if overwritten_id(nv, kv0, es.take(t1), x) {
                            let (k, jj) = choose|k: int, jj: int| #[trigger] overwrote(kv0, es.take(t1), k, jj)
                                && 0 <= jj < nv.len() && nv[jj].id == x;
                            lemma_overwrote_step(kv0, es, t as int, k, jj);
                            if k < t {
                                assert(nv[jj].id == sv[jj].id);
                                assert(overwritten_id(sv, kv0, es.take(t as int), x));
                                assert(ids0.contains(x));
                                if !seen {
                                    assert(ids@[ids0.index_of(x)] == x);
                                }
                            } else {
                                assert(jj == j);
                                if !seen {
                                    assert(ids@[ids@.len() - 1] == x);
                                }
                            }
                        }
                    }
                    if old(vault).consistent() {
                        assert forall|a: int, b: int| 0 <= a < b < nv.len() implies (labels_differ::<
                            Secret,
                        >())(#[trigger] nv[a], #[trigger] nv[b]) by {
                            assert(nv[a].key == sv[a].key && nv[b].key == sv[b].key);
                            assert((labels_differ::<Secret>())(sv[a], sv[b]));
                        }
                        assert forall|id: u128| has_ident(s0, id) implies #[trigger] has_ident(nv, id) by {
                            assert(has_ident(sv, id));
                            let i = choose|i: int| 0 <= i < sv.len() && (#[trigger] sv[i]).ident() == id;
                            assert(nv[i].ident() == id);
                        }
                    }
                }
            },
            None => {
                let secret = Secret::new(e.key, e.value);
                let ghost x = secret;
                vault.secrets.push(secret);
                created = created + 1;
                proof {
                    let nv = vault.secrets@;
                    assert(key_values(nv) =~= kv.push(es[t as int]));
                    assert forall|i: int|
                        0 <= i < s0.len() && key_absent(es.take(t + 1), s0[i].key@) implies #[trigger]
                        nv[i] == s0[i] by {
                        assert(nv[i] == sv[i]);
                        assert forall|q: int| 0 <= q < es.take(t as int).len() implies (
                        #[trigger] es.take(t as int)[q]).0 != s0[i].key@ by {
                            assert(es.take(t as int)[q] == es.take(t + 1)[q]);
                        }
                    }
                    assert forall|i: int| 0 <= i < s0.len() implies details_kept(s0[i], #[trigger] nv[i]) by {
                        assert(nv[i] == sv[i]);
                    }
                    assert forall|i: int| s0.len() <= i < nv.len() implies bare_secret(#[trigger] nv[i]) by {
                        if i < sv.len() {
                            assert(nv[i] == sv[i]);
                        }
                    }
                    assert forall|k: int| 0 <= k < ids@.len() implies 0 <= #[trigger] idx[k]
                        < nv.len() && nv[idx[k]].id == ids@[k] by {
                        assert(nv[idx[k]] == sv[idx[k]]);
                    }
                    let ghost t1 = (t + 1) as int;
                    assert(first_key(kv, es[t as int].0) is None);
                    assert forall|k: int, jj: int| #[trigger] overwrote(kv0, es.take(t1), k, jj) implies 0
                        <= jj < nv.len() by {
                        lemma_overwrote_step(kv0, es, t as int, k, jj);
                    }
                    assert forall|x: u128| #![trigger ids@.contains(x)]
                        ids@.contains(x) <==> overwritten_id(nv, kv0, es.take(t1), x) by {
                        if ids@.contains(x) {
                            assert(overwritten_id(sv, kv0, es.take(t as int), x));
                            let (k, jj) = choose|k: int, jj: int| #[trigger] overwrote(
                                kv0,
                                es.take(t as int),
                                k,
                                jj,
                            ) && 0 <= jj < sv.len() && sv[jj].id == x;
                            lemma_overwrote_step(kv0, es, t as int, k, jj);
                            assert(nv[jj] == sv[jj]);
                            assert(overwrote(kv0, es.take(t1), k, jj));
                        }
                        if overwritten_id(nv, kv0, es.take(t1), x) {
                            let (k, jj) = choose|k: int, jj: int| #[trigger] overwrote(kv0, es.take(t1), k, jj)
                                && 0 <= jj < nv.len() && nv[jj].id == x;
                            lemma_overwrote_step(kv0, es, t as int, k, jj);
                            assert(k < t);
                            assert(nv[jj] == sv[jj]);
                            assert(overwritten_id(sv, kv0, es.take(t as int), x));
                        }
                    }
                    assert forall|j: int| 0 <= j < s0.len() implies (#[trigger] nv[j]).id == s0[j].id by {
                        assert(nv[j] == sv[j]);
                    }
                    if old(vault).consistent() {
                        assert(!has_label(sv, x.key@)) by {
                            if has_label(sv, x.key@) {
                                let i = choose|i: int| 0 <= i < sv.len() && (#[trigger] sv[i]).label() == x.key@;
                                assert(kv[i].0 == x.key@);
                            }
                        }
                        lemma_push_labels_unique(sv, x);
                        lemma_push_keeps_idents(sv, x);
                        assert forall|id: u128| has_ident(s0, id) implies #[trigger] has_ident(nv, id) by {
                            assert(has_ident(sv, id));
                        }
                    }
                }
            },
        }
        t = t + 1;
    }
    proof {
        assert(es.take(n as int) =~= es);
        assert forall|k: int| 0 <= k < ids@.len() implies has_ident(vault.secrets@, #[trigger] ids@[k]) by {
            let j = idx[k];
            assert(vault.secrets@[j].ident() == ids@[k]);
        }
        if old(vault).consistent() {
            assert forall|p: int| 0 <= p < vault.projects@.len() implies project_consistent(
                #[trigger] vault.projects@[p],
                vault.secrets@,
            ) by {
                assert(project_consistent(old(vault).projects@[p], s0));
                lemma_project_consistent_kept(vault.projects@[p], s0, vault.secrets@);
            }
        }
    }
    (BulkCreateResult { created, updated }, ids)
}

/// Some mapping of `ms` names one of the secrets `ids`.
pub open spec fn refers_any(ms: Seq<EnvMapping>, ids: Seq<u128>) -> bool {
    exists|k: int| 0 <= k < ms.len() && ids.contains(#[trigger] ms[k].secret_id)
}

/// Resolving environment `env_id` of project `project_id` succeeds: both are
/// found and every mapping of the environment names an existing secret.
pub open spec fn resolves(vault: Vault, project_id: u128, env_id: u128) -> bool {
    match first_with_ident(vault.projects@, project_id) {
        Some(i) => match first_with_ident(vault.projects@[i].environments@, env_id) {
            Some(e) => forall|k: int|
                !dangling(vault.secrets@, vault.projects@[i].environments@[e].mappings@, k),
            None => false,
        },
        None => false,
    }
}

/// The `.env` text that resolving environment `env_id` of project
/// `project_id` gives.
pub open spec fn resolved_text(vault: Vault, project_id: u128, env_id: u128) -> Seq<char> {
    let i = first_with_ident(vault.projects@, project_id)->Some_0;
    let e = first_with_ident(vault.projects@[i].environments@, env_id)->Some_0;
    link_content(vault, i, e)
}

/// The link to write again for environment `k` of project `p`, if it is
/// active, names one of `ids` and resolves.
pub open spec fn env_refresh(vault: Vault, p: int, k: int, ids: Seq<u128>) -> Seq<
    (Seq<char>, Seq<char>, Seq<char>),
> {
    let proj = vault.projects@[p];
    let env = proj.environments@[k];
    if env.is_active && refers_any(env.mappings@, ids) && resolves(vault, proj.id, env.id) {
        seq![(proj.folder_path@, proj.env_filename@, resolved_text(vault, proj.id, env.id))]
    } else {
        Seq::empty()
    }
}

/// The links to write again for the first `upto` environments of project `p`.
pub open spec fn project_refreshes(vault: Vault, p: int, upto: int, ids: Seq<u128>) -> Seq<
    (Seq<char>, Seq<char>, Seq<char>),
>
    decreases upto,
{
    if upto <= 0 {
        Seq::empty()
    } else {
        project_refreshes(vault, p, upto - 1, ids) + env_refresh(vault, p, upto - 1, ids)
    }
}

/// The links to write again for the environments of the first `upto` projects.
pub open spec fn all_refreshes(vault: Vault, upto: int, ids: Seq<u128>) -> Seq<
    (Seq<char>, Seq<char>, Seq<char>),
>
    decreases upto,
{
    if upto <= 0 {
        Seq::empty()
    } else {
        all_refreshes(vault, upto - 1, ids) + project_refreshes(
            vault,
            upto - 1,
            vault.projects@[upto - 1].environments@.len() as int,
            ids,
        )
    }
}

/// The texts of the links `v`.
pub open spec fn link_views(v: Seq<(String, String, String)>) -> Seq<(Seq<char>, Seq<char>, Seq<char>)> {
    v.map_values(|t: (String, String, String)| (t.0@, t.1@, t.2@))
}

/// `l` is the link of an active environment that uses one of the secrets
/// `ids`: the folder and file name of its project and the resolved content.
pub open spec fn active_link(vault: Vault, ids: Seq<u128>, l: (Seq<char>, Seq<char>, Seq<char>)) -> bool {
    exists|p: int, e: int|
        #![trigger vault.projects@[p].environments@[e]]
        {
            &&& 0 <= p < vault.projects@.len()
            &&& 0 <= e < vault.projects@[p].environments@.len()
            &&& vault.projects@[p].environments@[e].is_active
            &&& refers_any(vault.projects@[p].environments@[e].mappings@, ids)
            &&& l.0 == vault.projects@[p].folder_path@
            &&& l.1 == vault.projects@[p].env_filename@
            &&& l.2 == resolved_text(vault, vault.projects@[p].id, vault.projects@[p].environments@[e].id)
        }
}

/// Every link of a project's environments to write again belongs to an
/// active environment that uses one of the secrets.
proof fn lemma_project_refreshes_active(vault: Vault, p: int, upto: int, ids: Seq<u128>)
    requires
        0 <= p < vault.projects@.len(),
        upto <= vault.projects@[p].environments@.len(),
    ensures
        forall|i: int|
            0 <= i < project_refreshes(vault, p, upto, ids).len() ==> active_link(
                vault,
                ids,
                #[trigger] project_refreshes(vault, p, upto, ids)[i],
            ),
    decreases upto,
{
    if upto > 0 {
        lemma_project_refreshes_active(vault, p, upto - 1, ids);
        let a = project_refreshes(vault, p, upto - 1, ids);
        let b = env_refresh(vault, p, upto - 1, ids);
        assert forall|i: int| 0 <= i < (a + b).len() implies active_link(vault, ids, #[trigger] (a + b)[i]) by {
            if i < a.len() {
                assert((a + b)[i] == a[i]);
            } else {
                let env = vault.projects@[p].environments@[upto - 1];
                assert(b.len() > 0);
                assert((a + b)[i] == b[0]);
                assert(env.is_active);
                assert(active_link(vault, ids, b[0]));
            }
        }
    }
}

/// Every link to write again belongs to an active environment that uses one
/// of the secrets.
proof fn lemma_all_refreshes_active(vault: Vault, upto: int, ids: Seq<u128>)
    requires
        upto <= vault.projects@.len(),
    ensures
        forall|i: int|
            0 <= i < all_refreshes(vault, upto, ids).len() ==> active_link(
                vault,
                ids,
                #[trigger] all_refreshes(vault, upto, ids)[i],
            ),
    decreases upto,
{
    if upto > 0 {
        lemma_all_refreshes_active(vault, upto - 1, ids);
        let a = all_refreshes(vault, upto - 1, ids);
        let b = project_refreshes(vault, upto - 1, vault.projects@[upto - 1].environments@.len() as int, ids);
        lemma_project_refreshes_active(vault, upto - 1, vault.projects@[upto - 1].environments@.len() as int, ids);
        assert forall|i: int| 0 <= i < (a + b).len() implies active_link(vault, ids, #[trigger] (a + b)[i]) by {
            if i < a.len() {
                assert((a + b)[i] == a[i]);
            } else {
                assert((a + b)[i] == b[i - a.len()]);
            }
        }
    }
}

/// Only active environments get their link written again: every link that
/// a refresh after a change to the secrets `ids` writes is the link of an
/// active environment that uses one of them, with that environment's
/// resolved content; so with no active environment nothing is written.
pub proof fn lemma_refreshes_only_active(vault: Vault, ids: Seq<u128>)
    ensures
        forall|i: int|
            0 <= i < all_refreshes(vault, vault.projects@.len() as int, ids).len() ==> active_link(
                vault,
                ids,
                #[trigger] all_refreshes(vault, vault.projects@.len() as int, ids)[i],
            ),
        (forall|p: int, e: int|
            0 <= p < vault.projects@.len() && 0 <= e < vault.projects@[p].environments@.len()
                ==> !(#[trigger] vault.projects@[p].environments@[e]).is_active) ==> all_refreshes(
            vault,
            vault.projects@.len() as int,
            ids,
        ).len() == 0,
{
    let all = all_refreshes(vault, vault.projects@.len() as int, ids);
    lemma_all_refreshes_active(vault, vault.projects@.len() as int, ids);
    if all.len() > 0 {
        assert(active_link(vault, ids, all[0]));
    }
}

/// With no secrets named, no link is written again.
proof fn lemma_no_ids_no_refresh(vault: Vault, upto: int)
    ensures
        all_refreshes(vault, upto, Seq::empty()) == Seq::<(Seq<char>, Seq<char>, Seq<char>)>::empty(),
    decreases upto,
{
    if upto > 0 {
        lemma_no_ids_no_refresh(vault, upto - 1);
        lemma_no_ids_no_project_refresh(vault, upto - 1, vault.projects@[upto - 1].environments@.len() as int);
    }
}

/// With no secrets named, no link of a project is written again.
proof fn lemma_no_ids_no_project_refresh(vault: Vault, p: int, upto: int)
    ensures
        project_refreshes(vault, p, upto, Seq::empty()) == Seq::<(Seq<char>, Seq<char>, Seq<char>)>::empty(),
    decreases upto,
{
    if upto > 0 {
        lemma_no_ids_no_project_refresh(vault, p, upto - 1);
        let ms = vault.projects@[p].environments@[upto - 1].mappings@;
        assert(!refers_any(ms, Seq::empty()));
        assert(env_refresh(vault, p, upto - 1, Seq::empty()) =~= Seq::<(Seq<char>, Seq<char>, Seq<char>)>::empty());
        assert(Seq::<(Seq<char>, Seq<char>, Seq<char>)>::empty() + Seq::<(Seq<char>, Seq<char>, Seq<char>)>::empty()
            =~= Seq::<(Seq<char>, Seq<char>, Seq<char>)>::empty());
    }
}

/// Whether `ids` holds `id`.
fn contains_id(ids: &Vec<u128>, id: u128) -> (b: bool)
    ensures
        b == ids@.contains(id),
{
    let mut i: usize = 0;
    while i < ids.len()
        invariant
            i <= ids@.len(),
            forall|j: int| 0 <= j < i ==> ids@[j] != id,
        decreases ids.len() - i,
    {
        if ids[i] == id {
            assert(ids@[i as int] == id);
            return true;
        }
        i = i + 1;
    }
    false
}

/// Whether some mapping of `ms` names one of `ids`.
fn refers_to_any(ms: &Vec<EnvMapping>, ids: &Vec<u128>) -> (b: bool)
    ensures
        b == refers_any(ms@, ids@),
{
    let mut i: usize = 0;
    while i < ms.len()
        invariant
            i <= ms@.len(),
            forall|j: int| 0 <= j < i ==> !ids@.contains(#[trigger] ms@[j].secret_id),
        decreases ms.len() - i,
    {
        if contains_id(ids, ms[i].secret_id) {
            return true;
        }
        i = i + 1;
    }
    false
}

/// The links of active environments that use one of the secrets `ids`, with
/// their new content, in the order of projects and environments. An
/// environment that does not resolve is left as it is.
pub fn pending_refreshes(vault: &Vault, ids: &Vec<u128>) -> (r: Vec<(String, String, String)>)
    ensures
        link_views(r@) == all_refreshes(*vault, vault.projects@.len() as int, ids@),
        forall|i: int| 0 <= i < r@.len() ==> active_link(*vault, ids@, #[trigger] link_views(r@)[i]),
{
    proof {
        lemma_refreshes_only_active(*vault, ids@);
    }
    let mut pending: Vec<(String, String, String)> = Vec::new();
    if ids.len() == 0 {
        proof {
            assert(ids@ =~= Seq::<u128>::empty());
            lemma_no_ids_no_refresh(*vault, vault.projects@.len() as int);
            assert(link_views(pending@) =~= Seq::<(Seq<char>, Seq<char>, Seq<char>)>::empty());
        }
        return pending;
    }
    let mut p: usize = 0;
    while p < vault.projects.len()
        invariant
            p <= vault.projects@.len(),
            link_views(pending@) == all_refreshes(*vault, p as int, ids@),
        decreases vault.projects.len() - p,
    {
        let project = &vault.projects[p];
        let ghost before = link_views(pending@);
        let mut k: usize = 0;
        while k < project.environments.len()
            invariant
                *project == vault.projects@[p as int],
                p < vault.projects@.len(),
                k <= project.environments@.len(),
                link_views(pending@) == before + project_refreshes(*vault, p as int, k as int, ids@),
            decreases project.environments.len() - k,
        {
            let env = &project.environments[k];
            let ghost pre = link_views(pending@);
            if env.is_active && refers_to_any(&env.mappings, ids) {
                match resolve_environment(vault, project.id, env.id) {
                    Ok(resolved) => {
                        let content = format_env_file(resolved.as_slice());
                        proof {
                            let i = first_with_ident(vault.projects@, project.id)->Some_0;
                            let e = first_with_ident(vault.projects@[i].environments@, env.id)->Some_0;
                            lemma_resolved_text(
                                vault.secrets@,
                                vault.projects@[i].environments@[e].mappings@,
                                resolved@,
                            );
                        }
                        pending.push((project.folder_path.clone(), project.env_filename.clone(), content));
                        proof {
                            assert(link_views(pending@) =~= pre.push(
                                (project.folder_path@, project.env_filename@, resolved_text(*vault, project.id, env.id)),
                            ));
                            assert(env_refresh(*vault, p as int, k as int, ids@) =~= seq![
                                (project.folder_path@, project.env_filename@, resolved_text(*vault, project.id, env.id)),
                            ]);
                        }
                    },
                    Err(_) => {
                        proof {
                            assert(env_refresh(*vault, p as int, k as int, ids@) =~= Seq::<
                                (Seq<char>, Seq<char>, Seq<char>),
                            >::empty());
                        }
                    },
                }
            } else {
                proof {
                    assert(env_refresh(*vault, p as int, k as int, ids@) =~= Seq::<
                        (Seq<char>, Seq<char>, Seq<char>),
                    >::empty());
                }
            }
            proof {
                assert(project_refreshes(*vault, p as int, k + 1, ids@) == project_refreshes(
                    *vault,
                    p as int,
                    k as int,
                    ids@,
                ) + env_refresh(*vault, p as int, k as int, ids@));
                assert(link_views(pending@) =~= before + project_refreshes(*vault, p as int, k + 1, ids@));
            }
            k = k + 1;
        }
        proof {
            assert(all_refreshes(*vault, p + 1, ids@) == all_refreshes(*vault, p as int, ids@)
                + project_refreshes(*vault, p as int, project.environments@.len() as int, ids@));
        }
        p = p + 1;
    }
    pending
}

} // verus!
