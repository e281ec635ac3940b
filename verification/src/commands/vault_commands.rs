//! Vault commands: the registry of vaults (listing, creating, importing,
//! renaming, deleting) and the checks and changes of a cipher migration.

use vstd::prelude::*;
use crate::error::{EnvlyError, error_text, map_err};
use crate::ids::{Timestamp, new_uuid, utc_now};
use crate::crypto::{CipherKind, kind_name, VaultCipher};
use crate::crypto::passphrase::PassphraseCipher;
use crate::crypto::symmetric::SymmetricCipher;
use crate::registry::{VaultEntry, VaultRegistry, msg_name_taken, msg_path_taken, has_path};
use crate::seqs::{has_label, has_label_except, first_with_ident, position_of, lemma_first_with_ident};
use crate::models::{Vault, only_at};
use crate::state::AppState;
use crate::commands::{validation_text, vault_text, fails_with, report};
use crate::vault_file::{json_string_field, read_json_string_field};

verus! {

/// What a vault list shows of a registered vault.
pub struct VaultEntrySummary {
    pub id: u128,
    pub name: String,
    pub path: String,
    pub cipher_kind: CipherKind,
    pub created_at: Timestamp,
    pub last_accessed: Option<Timestamp>,
}

/// `s` shows entry `e`.
pub open spec fn entry_summarizes(s: VaultEntrySummary, e: VaultEntry) -> bool {
    &&& s.id == e.id
    &&& s.name == e.name
    &&& s.path == e.path
    &&& s.cipher_kind == e.cipher_kind
    &&& s.created_at == e.created_at
    &&& s.last_accessed == e.last_accessed
}

impl VaultEntrySummary {
    /// The summary of `e`.
    pub fn from(e: &VaultEntry) -> (s: Self)
        ensures
            entry_summarizes(s, *e),
    {
        VaultEntrySummary {
            id: e.id,
            name: e.name.clone(),
            path: e.path.clone(),
            cipher_kind: e.cipher_kind,
            created_at: e.created_at,
            last_accessed: e.last_accessed,
        }
    }
}

/// The summaries of all registered vaults, in order.
pub fn list_vaults(registry: &VaultRegistry) -> (r: Vec<VaultEntrySummary>)
    ensures
        r@.len() == registry.vaults@.len(),
        forall|i: int| 0 <= i < r@.len() ==> entry_summarizes(#[trigger] r@[i], registry.vaults@[i]),
{
    let mut r: Vec<VaultEntrySummary> = Vec::new();
    let mut i: usize = 0;
    while i < registry.vaults.len()
        invariant
            i <= registry.vaults@.len(),
            r@.len() == i,
            forall|j: int| 0 <= j < i ==> entry_summarizes(#[trigger] r@[j], registry.vaults@[j]),
        decreases registry.vaults.len() - i,
    {
        r.push(VaultEntrySummary::from(&registry.vaults[i]));
        i = i + 1;
    }
    r
}

/// What a new vault is made of.
pub struct CreateVaultEntryArgs {
    pub name: String,
    pub path: String,
    pub cipher_kind: CipherKind,
    pub passphrase: Option<String>,
}

/// `e` is a fresh entry for a vault named `name` at `path` of kind `kind`,
/// never opened.
pub open spec fn fresh_entry(e: VaultEntry, name: String, path: String, kind: CipherKind) -> bool {
    &&& e.name == name
    &&& e.path == path
    &&& e.cipher_kind == kind
    &&& e.last_accessed is None
}

/// The outcome of registering `entry` in `old`, as a command reports it,
/// with `new` the registry after.
pub open spec fn registered(old: VaultRegistry, new: VaultRegistry, entry: VaultEntry, r: Result<u128, String>) -> bool {
    if has_label(old.vaults@, entry.name@) {
        fails_with(r, validation_text(msg_name_taken(entry.name@))) && new == old
    } else if has_path(old.vaults@, entry.path@) {
        fails_with(r, validation_text(msg_path_taken(entry.path@))) && new == old
    } else {
        r == Ok::<u128, String>(entry.id) && new.vaults@ == old.vaults@.push(entry)
    }
}

/// The error for a new vault whose path already holds a file.
pub open spec fn file_exists_text() -> Seq<char> {
    "A file already exists at the specified path. Choose a different location or import the existing vault."@
}

/// Registers a new vault from `args`, unless a file is already at its path
/// (`file_exists`); gives its identifier. The caller then saves the
/// registry, selects the vault and creates its file.
pub fn create_vault_entry(registry: &mut VaultRegistry, args: &CreateVaultEntryArgs, file_exists: bool) -> (r:
    Result<u128, String>)
    ensures
        file_exists ==> fails_with(r, file_exists_text()) && *final(registry) == *old(registry),
        !file_exists ==> exists|e: VaultEntry|
            fresh_entry(e, args.name, args.path, args.cipher_kind) && #[trigger] registered(
                *old(registry),
                *final(registry),
                e,
                r,
            ),
        old(registry).consistent() ==> final(registry).consistent(),
{
    proof {
        reveal_strlit("A file already exists at the specified path. Choose a different location or import the existing vault.");
    }
    if file_exists {
        return Err(
            String::from_str(
                "A file already exists at the specified path. Choose a different location or import the existing vault.",
            ),
        );
    }
    let entry = VaultEntry {
        id: new_uuid(),
        name: args.name.clone(),
        path: args.path.clone(),
        cipher_kind: args.cipher_kind,
        created_at: utc_now(),
        last_accessed: None,
    };
    let id = entry.id;
    let ghost e = entry;
    let r = match registry.add_entry(entry) {
        Ok(()) => Ok(id),
        Err(x) => Err(map_err(x)),
    };
    proof {
        assert(registered(*old(registry), *registry, e, r));
    }
    r
}

/// The cipher for a new vault: from the passphrase for a passphrase vault,
/// which must be given, or from the generated `key` for a symmetric one.
pub fn cipher_for_new_vault(kind: CipherKind, passphrase: Option<String>, key: [u8; 32]) -> (r: Result<
    VaultCipher,
    String,
>)
    ensures
        kind == CipherKind::Passphrase ==> match passphrase {
            Some(p) => r matches Ok(VaultCipher::Passphrase(c)) && c.passphrase_text() == p@
                && c.cached() is None,
            None => fails_with(r, "Passphrase is required for passphrase mode"@),
        },
        kind == CipherKind::Symmetric ==> (r matches Ok(VaultCipher::Symmetric(c)) && c.key_bytes()
            == key@),
{
    proof {
        reveal_strlit("Passphrase is required for passphrase mode");
    }
    match kind {
        CipherKind::Passphrase => match passphrase {
            Some(p) => Ok(VaultCipher::Passphrase(PassphraseCipher::new(p))),
            None => Err(String::from_str("Passphrase is required for passphrase mode")),
        },
        CipherKind::Symmetric => Ok(VaultCipher::Symmetric(SymmetricCipher::new(key))),
    }
}

/// The cipher kind a vault file names: `passphrase` or `symmetric`.
pub fn parse_cipher_kind(s: &str) -> (r: Option<CipherKind>)
    ensures
        r matches Some(k) ==> kind_name(k) == s@,
        r is None ==> s@ != kind_name(CipherKind::Passphrase) && s@ != kind_name(CipherKind::Symmetric),
{
    proof {
        reveal_strlit("passphrase");
        reveal_strlit("symmetric");
    }
    let p = String::from_str("passphrase");
    let q = String::from_str("symmetric");
    let t = String::from_str(s);
    if t.eq(&p) {
        Some(CipherKind::Passphrase)
    } else if t.eq(&q) {
        Some(CipherKind::Symmetric)
    } else {
        None
    }
}

/// The texts in what a JSON read gave.
pub open spec fn field_view(k: Result<Option<String>, ()>) -> Result<Option<Seq<char>>, ()> {
    match k {
        Ok(Some(v)) => Ok(Some(v@)),
        Ok(None) => Ok(None),
        Err(()) => Err(()),
    }
}

/// Registers an existing vault file named `name` at `path`, given what reading
/// its text as JSON gave for the `cipher_kind` member: the text must be JSON
/// and the member must name a cipher kind. Gives the new vault's identifier.
pub fn register_vault_file(registry: &mut VaultRegistry, name: String, path: String, kind_field: Result<Option<String>, ()>) -> (r:
    Result<u128, String>)
    ensures
        field_view(kind_field) is Err ==> fails_with(r, "Not a valid vault file"@)
            && *final(registry) == *old(registry),
        field_view(kind_field) == Ok::<Option<Seq<char>>, ()>(None) ==> fails_with(
            r,
            "Not a valid Envly vault file"@,
        ) && *final(registry) == *old(registry),
        (field_view(kind_field) matches Ok(Some(f)) && f != kind_name(
            CipherKind::Passphrase,
        ) && f != kind_name(CipherKind::Symmetric)) ==> fails_with(r, "Unknown cipher kind"@)
            && *final(registry) == *old(registry),
        (field_view(kind_field) matches Ok(Some(f)) && (f == kind_name(
            CipherKind::Passphrase,
        ) || f == kind_name(CipherKind::Symmetric))) ==> exists|e: VaultEntry|
            e.name == name && e.path == path && kind_name(e.cipher_kind) == field_view(kind_field)->Ok_0->Some_0 && e.last_accessed is None
                && #[trigger] registered(*old(registry), *final(registry), e, r),
        old(registry).consistent() ==> final(registry).consistent(),
{
    proof {
        reveal_strlit("Not a valid vault file");
        reveal_strlit("Not a valid Envly vault file");
        reveal_strlit("Unknown cipher kind");
        reveal_strlit("passphrase");
        reveal_strlit("symmetric");
    }
    let field = match kind_field {
        Err(()) => {
            return Err(String::from_str("Not a valid vault file"));
        },
        Ok(None) => {
            return Err(String::from_str("Not a valid Envly vault file"));
        },
        Ok(Some(f)) => f,
    };
    let field = field.as_str();
    let cipher_kind = match parse_cipher_kind(field) {
        Some(k) => k,
        None => {
            return Err(String::from_str("Unknown cipher kind"));
        },
    };
    let entry = VaultEntry {
        id: new_uuid(),
        name,
        path,
        cipher_kind,
        created_at: utc_now(),
        last_accessed: None,
    };
    let id = entry.id;
    let ghost e = entry;
    let r = match registry.add_entry(entry) {
        Ok(()) => Ok(id),
        Err(x) => Err(map_err(x)),
    };
    proof {
        assert(registered(*old(registry), *registry, e, r));
    }
    r
}

/// The vault file to import and the name to register it under.
pub struct ImportVaultEntryArgs {
    pub name: String,
    pub path: String,
}

/// Registers an existing vault file named `args.name` at `args.path`, whose text is
/// `contents`: the file must be JSON whose `cipher_kind` member names a
/// cipher kind. Gives the new vault's identifier.
pub fn import_vault_entry(registry: &mut VaultRegistry, args: ImportVaultEntryArgs, contents: &str) -> (r:
    Result<u128, String>)
    ensures
        json_string_field(contents@, "cipher_kind"@) is Err ==> fails_with(r, "Not a valid vault file"@)
            && *final(registry) == *old(registry),
        json_string_field(contents@, "cipher_kind"@) == Ok::<Option<Seq<char>>, ()>(None) ==> fails_with(
            r,
            "Not a valid Envly vault file"@,
        ) && *final(registry) == *old(registry),
        (json_string_field(contents@, "cipher_kind"@) matches Ok(Some(f)) && f != kind_name(
            CipherKind::Passphrase,
        ) && f != kind_name(CipherKind::Symmetric)) ==> fails_with(r, "Unknown cipher kind"@)
            && *final(registry) == *old(registry),
        (json_string_field(contents@, "cipher_kind"@) matches Ok(Some(f)) && (f == kind_name(
            CipherKind::Passphrase,
        ) || f == kind_name(CipherKind::Symmetric))) ==> exists|e: VaultEntry|
            e.name == args.name && e.path == args.path && kind_name(e.cipher_kind) == json_string_field(
                contents@,
                "cipher_kind"@,
            )->Ok_0->Some_0 && e.last_accessed is None
                && #[trigger] registered(*old(registry), *final(registry), e, r),
        old(registry).consistent() ==> final(registry).consistent(),
{
    let kind_field = read_json_string_field(contents, "cipher_kind");
    proof {
        assert(field_view(kind_field) == json_string_field(contents@, "cipher_kind"@));
    }
    register_vault_file(registry, args.name, args.path, kind_field)
}

/// Renames vault `id`.
pub fn rename_vault(registry: &mut VaultRegistry, id: u128, new_name: String) -> (r: Result<(), String>)
    ensures
        has_label_except(old(registry).vaults@, new_name@, id) ==> fails_with(
            r,
            validation_text(msg_name_taken(new_name@)),
        ),
        !has_label_except(old(registry).vaults@, new_name@, id) ==> match first_with_ident(
            old(registry).vaults@,
            id,
        ) {
            Some(i) => r is Ok && final(registry).vaults@ == old(registry).vaults@.update(
                i,
                VaultEntry { name: new_name, ..old(registry).vaults@[i] },
            ),
            None => fails_with(r, vault_text("Vault entry not found"@)),
        },
        r is Err ==> *final(registry) == *old(registry),
        old(registry).consistent() && crate::models::idents_unique(old(registry).vaults@)
            ==> final(registry).consistent(),
{
    report(registry.rename_entry(id, new_name))
}

/// Removes vault `id` from the registry and gives its entry, whose file the
/// caller may then delete.
pub fn delete_vault_entry(registry: &mut VaultRegistry, id: u128) -> (r: Result<VaultEntry, String>)
    ensures
        match first_with_ident(old(registry).vaults@, id) {
            Some(i) => r matches Ok(e) && e == old(registry).vaults@[i] && final(registry).vaults@
                == old(registry).vaults@.remove(i),
            None => fails_with(r, vault_text("Vault entry not found"@)) && *final(registry)
                == *old(registry),
        },
        old(registry).consistent() ==> final(registry).consistent(),
{
    report(registry.remove_entry(id))
}

/// The name of the selected vault's cipher kind.
pub fn get_active_vault_cipher_kind(state: &AppState) -> (r: Result<String, String>)
    ensures
        match state.active_id() {
            None => fails_with(r, "No vault selected"@),
            Some(id) => match first_with_ident(state.reg().vaults@, id) {
                Some(i) => r matches Ok(s) && s@ == kind_name(state.reg().vaults@[i].cipher_kind),
                None => fails_with(r, "Active vault not found in registry"@),
            },
        },
{
    proof {
        reveal_strlit("No vault selected");
        reveal_strlit("Active vault not found in registry");
    }
    let id = match state.active_vault_id() {
        Some(id) => id,
        None => {
            return Err(String::from_str("No vault selected"));
        },
    };
    match state.registry().find_entry(id) {
        Some(e) => Ok(e.cipher_kind.as_text()),
        None => Err(String::from_str("Active vault not found in registry")),
    }
}

/// What a cipher migration does with the system keychain.
pub struct KeychainSteps {
    /// A fresh key is stored for the vault before it is saved under it.
    pub store_new_key: bool,
    /// The keychain key of this vault is deleted once the migration is done.
    pub delete_old_key: Option<u128>,
}

/// The keychain steps of migrating vault `vault_id` from kind `current` to
/// kind `target`: a new key is stored exactly when the target is symmetric,
/// and the old key is deleted exactly when the vault was symmetric.
pub fn migration_keychain_steps(vault_id: u128, current: CipherKind, target: CipherKind) -> (r: KeychainSteps)
    ensures
        r.store_new_key == (target == CipherKind::Symmetric),
        r.delete_old_key == (if current == CipherKind::Symmetric {
            Some(vault_id)
        } else {
            None::<u128>
        }),
{
    let store_new_key = match target {
        CipherKind::Symmetric => true,
        CipherKind::Passphrase => false,
    };
    let delete_old_key = match current {
        CipherKind::Symmetric => Some(vault_id),
        CipherKind::Passphrase => None,
    };
    KeychainSteps { store_new_key, delete_old_key }
}

/// The checks before migrating the open vault to cipher kind `target`: a
/// vault must be open and selected, registered, and of another kind. Gives
/// the vault's identifier and its current kind.
pub fn migration_source(state: &AppState, target: CipherKind) -> (r: Result<(u128, CipherKind), String>)
    ensures
        state.open_vault() is None ==> fails_with(r, vault_text("Vault is locked"@)),
        state.open_vault() is Some ==> match state.active_id() {
            None => fails_with(r, "No vault selected"@),
            Some(id) => match first_with_ident(state.reg().vaults@, id) {
                None => fails_with(r, "Active vault not found in registry"@),
                Some(i) => if state.reg().vaults@[i].cipher_kind == target {
                    fails_with(r, "Vault already uses this cipher mode"@)
                } else {
                    r == Ok::<(u128, CipherKind), String>((id, state.reg().vaults@[i].cipher_kind))
                },
            },
        },
{
    proof {
        reveal_strlit("No vault selected");
        reveal_strlit("Active vault not found in registry");
        reveal_strlit("Vault already uses this cipher mode");
    }
    if let Err(e) = state.require_unlocked() {
        return Err(map_err(e));
    }
    let vault_id = match state.active_vault_id() {
        Some(id) => id,
        None => {
            return Err(String::from_str("No vault selected"));
        },
    };
    let current = match state.registry().find_entry(vault_id) {
        Some(e) => e.cipher_kind,
        None => {
            return Err(String::from_str("Active vault not found in registry"));
        },
    };
    if current == target {
        return Err(String::from_str("Vault already uses this cipher mode"));
    }
    Ok((vault_id, current))
}

/// The passphrase to migrate to passphrase mode with, which must be given.
pub fn migration_passphrase(passphrase: Option<String>) -> (r: Result<String, String>)
    ensures
        match passphrase {
            Some(p) => r == Ok::<String, String>(p),
            None => fails_with(r, "Passphrase is required when migrating to passphrase mode"@),
        },
{
    proof {
        reveal_strlit("Passphrase is required when migrating to passphrase mode");
    }
    match passphrase {
        Some(p) => Ok(p),
        None => Err(String::from_str("Passphrase is required when migrating to passphrase mode")),
    }
}

/// Records in the vault that it now uses cipher kind `target`.
pub fn set_vault_cipher_kind(vault: &mut Vault, target: CipherKind)
    ensures
        final(vault).cipher_kind@ == kind_name(target),
        final(vault).secrets == old(vault).secrets,
        final(vault).projects == old(vault).projects,
        final(vault).cipher_version == old(vault).cipher_version,
        old(vault).consistent() ==> final(vault).consistent(),
{
    vault.cipher_kind = target.as_text();
}

/// Records in the registry that vault `id` now uses cipher kind `target`.
pub fn set_entry_cipher_kind(registry: &mut VaultRegistry, id: u128, target: CipherKind)
    ensures
        match first_with_ident(old(registry).vaults@, id) {
            Some(i) => final(registry).vaults@ == old(registry).vaults@.update(
                i,
                VaultEntry { cipher_kind: target, ..old(registry).vaults@[i] },
            ),
            None => *final(registry) == *old(registry),
        },
        old(registry).consistent() ==> final(registry).consistent(),
{
    let ghost s = registry.vaults@;
    let ghost old_reg = *registry;
    if let Some(i) = position_of(&registry.vaults, id) {
        registry.vaults[i].cipher_kind = target;
        proof {
            let t = registry.vaults@;
            assert(t =~= s.update(i as int, VaultEntry { cipher_kind: target, ..s[i as int] }));
            if old_reg.consistent() {
                assert forall|a: int, b: int| 0 <= a < b < t.len() implies (crate::seqs::labels_differ::<
                    VaultEntry,
                >())(#[trigger] t[a], #[trigger] t[b]) by {
                    assert(t[a].name == s[a].name && t[b].name == s[b].name);
                    assert((crate::seqs::labels_differ::<VaultEntry>())(s[a], s[b]));
                }
                assert forall|a: int, b: int| 0 <= a < b < t.len() implies (crate::registry::paths_differ())(
                    #[trigger] t[a],
                    #[trigger] t[b],
                ) by {
                    assert(t[a].path == s[a].path && t[b].path == s[b].path);
                    assert((crate::registry::paths_differ())(s[a], s[b]));
                }
            }
        }
    }
}

} // verus!
