//! The application's state: the registry, the selected vault, and when it is
//! unlocked the decrypted vault, its cipher and whether it has unsaved
//! changes. Reading and writing files is left to the caller, who hands in
//! what it found and performs what these methods decide.

use vstd::prelude::*;
use crate::error::{EnvlyError, is_vault_err};
use crate::crypto::{Cipher, CipherKind, EncryptedPayload, VaultCipher};
use crate::models::{
    Vault, Project, Environment, only_at, same_project_header, env_with_active, project_consistent,
    env_consistent, not_both_active,
};
use crate::registry::{VaultRegistry, accessed_at};
use crate::ids::Timestamp;
use crate::seqs::{first_with_ident, has_ident, position_of, labels_differ, lemma_first_with_ident};
use crate::vault_file::{VaultFile, seal_vault_file};

verus! {

/// Where the selected vault stands.
#[derive(Debug, Clone, Copy, PartialEq, Eq, Structural)]
pub enum VaultStatus {
    /// No vault is selected, or its file does not exist yet.
    Uninitialized,
    /// The vault's file exists and it is not open.
    Locked,
    /// The vault is open.
    Unlocked,
}

/// What the background saver does on one of its ticks.
#[derive(Debug, Clone, Copy, PartialEq, Eq, Structural)]
pub enum SaveAction {
    /// Nothing to write.
    Nothing,
    /// Write the vault out if it has unsaved changes.
    Flush,
    /// Write the vault out if it has unsaved changes, then save it regardless
    /// and restart the forced-save clock.
    FlushAndForce,
}

/// Seconds between forced saves of an open vault (five minutes).
pub const FORCED_SAVE_SECS: u64 = 300;

/// The background saver's decision, taken every two seconds: nothing while no
/// vault is open; a forced save once `FORCED_SAVE_SECS` have passed since the
/// last one; otherwise a flush when the vault has unsaved changes.
pub fn background_save_action(unlocked: bool, dirty: bool, secs_since_forced: u64) -> (a: SaveAction)
    ensures
        a == (if !unlocked {
            SaveAction::Nothing
        } else if secs_since_forced >= FORCED_SAVE_SECS {
            SaveAction::FlushAndForce
        } else if dirty {
            SaveAction::Flush
        } else {
            SaveAction::Nothing
        }),
{
    if !unlocked {
        SaveAction::Nothing
    } else if secs_since_forced >= FORCED_SAVE_SECS {
        SaveAction::FlushAndForce
    } else if dirty {
        SaveAction::Flush
    } else {
        SaveAction::Nothing
    }
}

/// The application's state.
pub struct AppState {
    registry: VaultRegistry,
    registry_path: String,
    tmp_dir: String,
    active_vault_id: Option<u128>,
    vault: Option<Vault>,
    cipher: Option<VaultCipher>,
    dirty: bool,
}

/// Every environment of `new` is inactive and otherwise as in `old`, and the
/// rest of the vault is unchanged.
pub open spec fn all_deactivated(old: Vault, new: Vault) -> bool {
    &&& new.secrets == old.secrets
    &&& new.cipher_kind == old.cipher_kind
    &&& new.cipher_version == old.cipher_version
    &&& new.projects@.len() == old.projects@.len()
    &&& forall|p: int|
        0 <= p < old.projects@.len() ==> {
            &&& same_project_header(old.projects@[p], #[trigger] new.projects@[p])
            &&& new.projects@[p].environments@.len() == old.projects@[p].environments@.len()
            &&& forall|e: int|
                0 <= e < old.projects@[p].environments@.len() ==> env_with_active(
                    old.projects@[p].environments@[e],
                    #[trigger] new.projects@[p].environments@[e],
                    false,
                )
        }
}

/// Makes every environment of every project inactive.
pub fn deactivate_all(vault: &mut Vault)
    ensures
        final(vault).cipher_kind == old(vault).cipher_kind,
        final(vault).cipher_version == old(vault).cipher_version,
        all_deactivated(*old(vault), *final(vault)),
        old(vault).consistent() ==> final(vault).consistent(),
{
    let ghost v0 = *vault;
    let mut p: usize = 0;
    while p < vault.projects.len()
        invariant
            p <= vault.projects@.len(),
            vault.secrets == v0.secrets,
            vault.cipher_kind == v0.cipher_kind,
            vault.cipher_version == v0.cipher_version,
            vault.projects@.len() == v0.projects@.len(),
            forall|q: int|
                0 <= q < v0.projects@.len() ==> {
                    &&& same_project_header(v0.projects@[q], #[trigger] vault.projects@[q])
                    &&& vault.projects@[q].environments@.len() == v0.projects@[q].environments@.len()
                    &&& forall|e: int|
                        0 <= e < v0.projects@[q].environments@.len() ==> env_with_active(
                            v0.projects@[q].environments@[e],
                            #[trigger] vault.projects@[q].environments@[e],
                            if q < p { false } else { v0.projects@[q].environments@[e].is_active },
                        )
                },
        decreases vault.projects.len() - p,
    {
        let mut e: usize = 0;
        while e < vault.projects[p].environments.len()
            invariant
                p < vault.projects@.len(),
                e <= vault.projects@[p as int].environments@.len(),
                vault.secrets == v0.secrets,
                vault.cipher_kind == v0.cipher_kind,
                vault.cipher_version == v0.cipher_version,
                vault.projects@.len() == v0.projects@.len(),
                forall|q: int|
                    0 <= q < v0.projects@.len() ==> {
                        &&& same_project_header(v0.projects@[q], #[trigger] vault.projects@[q])
                        &&& vault.projects@[q].environments@.len()
                            == v0.projects@[q].environments@.len()
                        &&& forall|f: int|
                            0 <= f < v0.projects@[q].environments@.len() ==> env_with_active(
                                v0.projects@[q].environments@[f],
                                #[trigger] vault.projects@[q].environments@[f],
                                if q < p || (q == p && f < e) {
                                    false
                                } else {
                                    v0.projects@[q].environments@[f].is_active
                                },
                            )
                    },
            decreases vault.projects@[p as int].environments@.len() - e,
        {
            vault.projects[p].environments[e].is_active = false;
            e = e + 1;
        }
        p = p + 1;
    }
    proof {
        if v0.consistent() {
            assert forall|a: int, b: int| 0 <= a < b < vault.projects@.len() implies (labels_differ::<
                Project,
            >())(#[trigger] vault.projects@[a], #[trigger] vault.projects@[b]) by {
                assert(same_project_header(v0.projects@[a], vault.projects@[a]));
                assert(same_project_header(v0.projects@[b], vault.projects@[b]));
                assert((labels_differ::<Project>())(v0.projects@[a], v0.projects@[b]));
            }
            assert forall|q: int| 0 <= q < vault.projects@.len() implies project_consistent(
                #[trigger] vault.projects@[q],
                vault.secrets@,
            ) by {
                let oe = v0.projects@[q].environments@;
                let ne = vault.projects@[q].environments@;
                assert(project_consistent(v0.projects@[q], v0.secrets@));
                assert forall|a: int, b: int| 0 <= a < b < ne.len() implies (labels_differ::<
                    Environment,
                >())(#[trigger] ne[a], #[trigger] ne[b]) by {
                    assert(env_with_active(oe[a], ne[a], false));
                    assert(env_with_active(oe[b], ne[b], false));
                    assert((labels_differ::<Environment>())(oe[a], oe[b]));
                }
                assert forall|a: int, b: int| 0 <= a < b < ne.len() implies (not_both_active())(
                    #[trigger] ne[a],
                    #[trigger] ne[b],
                ) by {
                    assert(env_with_active(oe[a], ne[a], false));
                }
                assert forall|f: int| 0 <= f < ne.len() implies env_consistent(
                    #[trigger] ne[f],
                    vault.secrets@,
                ) by {
                    assert(env_with_active(oe[f], ne[f], false));
                    assert(env_consistent(oe[f], v0.secrets@));
                }
            }
        }
    }
}

impl AppState {
    /// The registry of known vaults.
    pub closed spec fn reg(&self) -> VaultRegistry {
        self.registry
    }

    /// Where the registry is stored.
    pub closed spec fn registry_path_text(&self) -> Seq<char> {
        self.registry_path@
    }

    /// The directory of temporary `.env` files.
    pub closed spec fn tmp_dir_text(&self) -> Seq<char> {
        self.tmp_dir@
    }

    /// The selected vault's identifier.
    pub closed spec fn active_id(&self) -> Option<u128> {
        self.active_vault_id
    }

    /// The open vault, if any.
    pub closed spec fn open_vault(&self) -> Option<Vault> {
        self.vault
    }

    /// The open vault's cipher, if any.
    pub closed spec fn open_cipher(&self) -> Option<VaultCipher> {
        self.cipher
    }

    /// Whether the open vault has changes not yet saved.
    pub closed spec fn unsaved(&self) -> bool {
        self.dirty
    }

    /// A state with the given registry, no vault selected and none open.
    pub fn new(registry_path: String, registry: VaultRegistry, tmp_dir: String) -> (s: Self)
        ensures
            s.reg() == registry,
            s.registry_path_text() == registry_path@,
            s.tmp_dir_text() == tmp_dir@,
            s.active_id() is None,
            s.open_vault() is None,
            s.open_cipher() is None,
            !s.unsaved(),
    {
        AppState {
            registry,
            registry_path,
            tmp_dir,
            active_vault_id: None,
            vault: None,
            cipher: None,
            dirty: false,
        }
    }

    /// The registry of known vaults.
    pub fn registry(&self) -> (r: &VaultRegistry)
        ensures
            *r == self.reg(),
    {
        &self.registry
    }

    /// The registry of known vaults, to be changed in place.
    pub fn registry_mut(&mut self) -> (r: &mut VaultRegistry)
        ensures
            *r == old(self).reg(),
            final(self).reg() == *final(r),
            final(self).active_id() == old(self).active_id(),
            final(self).open_vault() == old(self).open_vault(),
            final(self).open_cipher() == old(self).open_cipher(),
            final(self).unsaved() == old(self).unsaved(),
    {
        &mut self.registry
    }

    /// Where the registry is stored.
    pub fn registry_path(&self) -> (r: &String)
        ensures
            r@ == self.registry_path_text(),
    {
        &self.registry_path
    }

    /// The directory of temporary `.env` files.
    pub fn tmp_dir(&self) -> (r: &String)
        ensures
            r@ == self.tmp_dir_text(),
    {
        &self.tmp_dir
    }

    /// The selected vault's identifier.
    pub fn active_vault_id(&self) -> (r: Option<u128>)
        ensures
            r == self.active_id(),
    {
        self.active_vault_id
    }

    /// The path of the selected vault's file.
    pub fn active_vault_path(&self) -> (r: Result<String, EnvlyError>)
        ensures
            match self.active_id() {
                None => is_vault_err(r, "No vault selected"@),
                Some(id) => match first_with_ident(self.reg().vaults@, id) {
                    Some(i) => r matches Ok(p) && p == self.reg().vaults@[i].path,
                    None => is_vault_err(r, "Selected vault not found in registry"@),
                },
            },
    {
        proof {
            reveal_strlit("No vault selected");
            reveal_strlit("Selected vault not found in registry");
        }
        let id = match self.active_vault_id {
            Some(id) => id,
            None => {
                return Err(EnvlyError::Vault(String::from_str("No vault selected")));
            },
        };
        match self.registry.find_entry(id) {
            Some(e) => Ok(e.path.clone()),
            None => Err(EnvlyError::Vault(String::from_str("Selected vault not found in registry"))),
        }
    }

    /// The path of the selected vault's file (for the commands).
    pub fn active_vault_path_public(&self) -> (r: Result<String, EnvlyError>)
        ensures
            match self.active_id() {
                None => is_vault_err(r, "No vault selected"@),
                Some(id) => match first_with_ident(self.reg().vaults@, id) {
                    Some(i) => r matches Ok(p) && p == self.reg().vaults@[i].path,
                    None => is_vault_err(r, "Selected vault not found in registry"@),
                },
            },
    {
        self.active_vault_path()
    }

    /// Where the selected vault stands, given whether its file exists.
    pub fn status(&self, vault_file_exists: bool) -> (s: VaultStatus)
        ensures
            s == (if self.active_id() is None {
                VaultStatus::Uninitialized
            } else if first_with_ident(self.reg().vaults@, self.active_id()->Some_0) is None {
                VaultStatus::Uninitialized
            } else if !vault_file_exists {
                VaultStatus::Uninitialized
            } else if self.open_vault() is Some {
                VaultStatus::Unlocked
            } else {
                VaultStatus::Locked
            }),
    {
        if self.active_vault_id.is_none() {
            return VaultStatus::Uninitialized;
        }
        if self.active_vault_path().is_err() {
            return VaultStatus::Uninitialized;
        }
        if !vault_file_exists {
            return VaultStatus::Uninitialized;
        }
        if self.vault.is_some() {
            VaultStatus::Unlocked
        } else {
            VaultStatus::Locked
        }
    }

    /// Whether a vault is open.
    pub fn is_unlocked(&self) -> (b: bool)
        ensures
            b == self.open_vault() is Some,
    {
        self.vault.is_some()
    }

    /// Fails with "Vault is locked" when no vault is open.
    pub fn require_unlocked(&self) -> (r: Result<(), EnvlyError>)
        ensures
            self.open_vault() is Some ==> r is Ok,
            self.open_vault() is None ==> is_vault_err(r, "Vault is locked"@),
    {
        proof {
            reveal_strlit("Vault is locked");
        }
        if self.vault.is_none() {
            return Err(EnvlyError::Vault(String::from_str("Vault is locked")));
        }
        Ok(())
    }

    /// Checks that vault `id` is registered, before it is selected.
    pub fn check_selectable(&self, id: u128) -> (r: Result<(), EnvlyError>)
        ensures
            has_ident(self.reg().vaults@, id) ==> r is Ok,
            !has_ident(self.reg().vaults@, id) ==> is_vault_err(r, "Vault not found in registry"@),
    {
        proof {
            reveal_strlit("Vault not found in registry");
            lemma_first_with_ident(self.reg().vaults@, id);
        }
        match self.registry.find_entry(id) {
            Some(_) => Ok(()),
            None => Err(EnvlyError::Vault(String::from_str("Vault not found in registry"))),
        }
    }

    /// Selects vault `id`; the open vault, if any, must have been locked.
    pub fn set_active(&mut self, id: u128)
        ensures
            final(self).active_id() == Some(id),
            final(self).reg() == old(self).reg(),
            final(self).open_vault() == old(self).open_vault(),
            final(self).open_cipher() == old(self).open_cipher(),
            final(self).unsaved() == old(self).unsaved(),
    {
        self.active_vault_id = Some(id);
    }

    /// The open vault.
    pub fn vault(&self) -> (r: Option<&Vault>)
        ensures
            match self.open_vault() {
                Some(v) => r matches Some(x) && *x == v,
                None => r is None,
            },
    {
        self.vault.as_ref()
    }

    /// The open vault, to be changed in place.
    pub fn vault_mut(&mut self) -> (r: Option<&mut Vault>)
        ensures
            match old(self).open_vault() {
                Some(v) => r matches Some(x) && *x == v && final(self).open_vault() == Some(*final(x)),
                None => r is None && final(self).open_vault() is None,
            },
            final(self).active_id() == old(self).active_id(),
            final(self).reg() == old(self).reg(),
            final(self).open_cipher() == old(self).open_cipher(),
            final(self).unsaved() == old(self).unsaved(),
    {
        self.vault.as_mut()
    }

    /// Notes that the open vault has changes to save.
    pub fn mark_dirty(&mut self)
        ensures
            final(self).unsaved(),
            final(self).active_id() == old(self).active_id(),
            final(self).reg() == old(self).reg(),
            final(self).open_vault() == old(self).open_vault(),
            final(self).open_cipher() == old(self).open_cipher(),
    {
        self.dirty = true;
    }

    /// Whether the open vault has changes to save.
    pub fn is_dirty(&self) -> (b: bool)
        ensures
            b == self.unsaved(),
    {
        self.dirty
    }

    /// Clears the unsaved mark and says whether it was set: when it was, the
    /// vault must be saved now.
    pub fn take_dirty(&mut self) -> (was: bool)
        ensures
            was == old(self).unsaved(),
            !final(self).unsaved(),
            final(self).active_id() == old(self).active_id(),
            final(self).reg() == old(self).reg(),
            final(self).open_vault() == old(self).open_vault(),
            final(self).open_cipher() == old(self).open_cipher(),
    {
        let was = self.dirty;
        self.dirty = false;
        was
    }

    /// Encrypts the serialized open vault `contents` with the open cipher into
    /// the file to write.
    pub fn seal(&mut self, contents: &[u8]) -> (r: Result<VaultFile, EnvlyError>)
        ensures
            old(self).open_vault() is None ==> is_vault_err(r, "Vault is locked"@),
            old(self).open_vault() is Some && old(self).open_cipher() is None ==> is_vault_err(
                r,
                "No cipher available"@,
            ),
            old(self).open_vault() is Some && old(self).open_cipher() is Some ==> {
                let v = old(self).open_vault()->Some_0;
                let c = old(self).open_cipher()->Some_0;
                &&& r is Ok <==> c.can_encrypt(contents@)
                &&& r matches Ok(f) ==> f.cipher_version == v.cipher_version && f.cipher_kind
                    == c.kind_of() && final(self).open_cipher()->Some_0.seals(contents@, f.payload)
                &&& forall|pt: Seq<u8>, p: EncryptedPayload| #[trigger]
                    final(self).open_cipher()->Some_0.seals(pt, p) == c.seals(pt, p)
            },
            final(self).open_cipher() is Some == old(self).open_cipher() is Some,
            final(self).active_id() == old(self).active_id(),
            final(self).reg() == old(self).reg(),
            final(self).open_vault() == old(self).open_vault(),
            final(self).unsaved() == old(self).unsaved(),
    {
        proof {
            reveal_strlit("Vault is locked");
            reveal_strlit("No cipher available");
        }
        let version = match &self.vault {
            Some(v) => v.cipher_version,
            None => {
                return Err(EnvlyError::Vault(String::from_str("Vault is locked")));
            },
        };
        match &mut self.cipher {
            Some(c) => seal_vault_file(c, version, contents),
            None => Err(EnvlyError::Vault(String::from_str("No cipher available"))),
        }
    }

    /// Opens `vault` with `cipher` after it was read and decrypted, and notes
    /// the time the selected vault was opened.
    pub fn unlock(&mut self, vault: Vault, cipher: VaultCipher)
        ensures
            final(self).open_vault() == Some(vault),
            final(self).open_cipher() == Some(cipher),
            final(self).active_id() == old(self).active_id(),
            final(self).unsaved() == old(self).unsaved(),
            match old(self).active_id() {
                Some(id) => match first_with_ident(old(self).reg().vaults@, id) {
                    Some(i) => exists|at: Timestamp|
                        final(self).reg().vaults@ == old(self).reg().vaults@.update(
                            i,
                            #[trigger] accessed_at(old(self).reg().vaults@[i], at),
                        ),
                    None => final(self).reg() == old(self).reg(),
                },
                None => final(self).reg() == old(self).reg(),
            },
            old(self).reg().consistent() ==> final(self).reg().consistent(),
    {
        self.vault = Some(vault);
        self.cipher = Some(cipher);
        if let Some(id) = self.active_vault_id {
            let ghost r0 = self.registry.vaults@;
            self.registry.update_last_accessed(id);
            proof {
                if let Some(i) = first_with_ident(r0, id) {
                    lemma_first_with_ident(r0, id);
                    let at = choose|at: Timestamp|
                        self.registry.vaults@ == r0.update(i, #[trigger] accessed_at(r0[i], at));
                    assert(self.registry.vaults@ == r0.update(i, accessed_at(r0[i], at)));
                }
            }
        }
    }

    /// Opens a newly created `vault` with `cipher`.
    pub fn init(&mut self, vault: Vault, cipher: VaultCipher)
        ensures
            final(self).open_vault() == Some(vault),
            final(self).open_cipher() == Some(cipher),
            final(self).active_id() == old(self).active_id(),
            final(self).reg() == old(self).reg(),
            final(self).unsaved() == old(self).unsaved(),
    {
        self.vault = Some(vault);
        self.cipher = Some(cipher);
    }

    /// The first step of locking: every environment of the open vault
    /// becomes inactive, and the vault is marked as having changes to save.
    pub fn deactivate_for_lock(&mut self)
        ensures
            match old(self).open_vault() {
                Some(v) => final(self).open_vault() matches Some(w) && all_deactivated(v, w),
                None => final(self).open_vault() is None,
            },
            old(self).open_vault() matches Some(v) && v.consistent() ==> final(self).open_vault()->Some_0.consistent(),
            final(self).unsaved(),
            final(self).active_id() == old(self).active_id(),
            final(self).reg() == old(self).reg(),
            final(self).open_cipher() == old(self).open_cipher(),
    {
        if let Some(v) = &mut self.vault {
            deactivate_all(v);
        }
        self.dirty = true;
    }

    /// Hands the open vault over to the caller (to wipe its secrets before
    /// they are dropped); no vault is open afterwards and the rest is unchanged.
    pub fn take_vault(&mut self) -> (v: Option<Vault>)
        ensures
            v == old(self).open_vault(),
            final(self).open_vault() is None,
            final(self).open_cipher() == old(self).open_cipher(),
            final(self).unsaved() == old(self).unsaved(),
            final(self).active_id() == old(self).active_id(),
            final(self).reg() == old(self).reg(),
            final(self).registry_path_text() == old(self).registry_path_text(),
            final(self).tmp_dir_text() == old(self).tmp_dir_text(),
    {
        let mut v: Option<Vault> = None;
        std::mem::swap(&mut v, &mut self.vault);
        v
    }

    /// The last step of locking: the vault and its cipher are dropped and
    /// nothing is left to save.
    pub fn clear(&mut self)
        ensures
            final(self).open_vault() is None,
            final(self).open_cipher() is None,
            !final(self).unsaved(),
            final(self).active_id() == old(self).active_id(),
            final(self).reg() == old(self).reg(),
    {
        self.vault = None;
        self.cipher = None;
        self.dirty = false;
    }

    /// Replaces the open vault's cipher.
    pub fn replace_cipher(&mut self, cipher: VaultCipher)
        ensures
            final(self).open_cipher() == Some(cipher),
            final(self).open_vault() == old(self).open_vault(),
            final(self).active_id() == old(self).active_id(),
            final(self).reg() == old(self).reg(),
            final(self).unsaved() == old(self).unsaved(),
    {
        self.cipher = Some(cipher);
    }
}

} // verus!
