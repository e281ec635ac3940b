use envly::crypto::symmetric::SymmetricCipher;
use envly::crypto::{CipherKind, VaultCipher};
use envly::ids::Timestamp;
use envly::models::{Environment, Project, Vault};
use envly::registry::{VaultEntry, VaultRegistry};
use envly::state::{background_save_action, deactivate_all, AppState, SaveAction, VaultStatus};
use envly::vault_file::{open_vault_file, seal_vault_file};
use envly::error::EnvlyError;

fn state_with_entry() -> (AppState, u128) {
    let mut reg = VaultRegistry::new();
    let id = uuid::Uuid::new_v4().as_u128();
    reg.add_entry(VaultEntry {
        id,
        name: "main".into(),
        path: "/tmp/main.envly".into(),
        cipher_kind: CipherKind::Symmetric,
        created_at: now(),
        last_accessed: None,
    })
    .unwrap();
    (AppState::new("/tmp/registry.json".into(), reg, "/tmp/envly".into()), id)
}

#[test]
fn status_follows_selection_file_and_lock() {
    let (mut st, id) = state_with_entry();
    assert_eq!(st.status(true), VaultStatus::Uninitialized);
    match st.active_vault_path() {
        Err(EnvlyError::Vault(m)) => assert_eq!(m, "No vault selected"),
        _ => panic!("expected a vault error"),
    }
    assert!(st.check_selectable(uuid::Uuid::new_v4().as_u128()).is_err());
    st.check_selectable(id).unwrap();
    st.set_active(id);
    assert_eq!(st.active_vault_path().unwrap(), "/tmp/main.envly");
    assert_eq!(st.status(false), VaultStatus::Uninitialized);
    assert_eq!(st.status(true), VaultStatus::Locked);
    match st.require_unlocked() {
        Err(EnvlyError::Vault(m)) => assert_eq!(m, "Vault is locked"),
        _ => panic!("expected a vault error"),
    }
    st.unlock(Vault::new("symmetric", 1), VaultCipher::Symmetric(SymmetricCipher::new([1u8; 32])));
    assert_eq!(st.status(true), VaultStatus::Unlocked);
    assert!(st.registry().find_entry(id).unwrap().last_accessed.is_some());
    st.clear();
    assert!(!st.is_unlocked());
    assert_eq!(st.status(true), VaultStatus::Locked);
}

#[test]
fn lock_deactivates_every_environment() {
    let mut vault = Vault::new("symmetric", 1);
    for name in ["a", "b"] {
        let p = Project::new(name.into(), format!("/{name}"));
        let pid = p.id;
        vault.add_project(p).unwrap();
        let e = Environment::new("dev".into());
        let eid = e.id;
        vault.add_environment(pid, e).unwrap();
        vault.add_environment(pid, Environment::new("prod".into())).unwrap();
        vault.activate_environment(pid, eid).unwrap();
    }
    deactivate_all(&mut vault);
    assert!(vault.projects.iter().all(|p| p.environments.iter().all(|e| !e.is_active)));
    assert_eq!(vault.projects.len(), 2);
    assert_eq!(vault.projects[0].environments.len(), 2);

    let (mut st, id) = state_with_entry();
    st.set_active(id);
    st.init(vault, VaultCipher::Symmetric(SymmetricCipher::new([2u8; 32])));
    st.deactivate_for_lock();
    assert!(st.is_dirty());
    assert!(st.take_dirty());
    assert!(!st.is_dirty());
}

#[test]
fn sealed_vault_file_opens_to_the_same_bytes() {
    let (mut st, id) = state_with_entry();
    st.set_active(id);
    match st.seal(b"{}") {
        Err(EnvlyError::Vault(m)) => assert_eq!(m, "Vault is locked"),
        _ => panic!("expected a vault error"),
    }
    st.init(Vault::new("symmetric", 7), VaultCipher::Symmetric(SymmetricCipher::new([4u8; 32])));
    let file = st.seal(b"{\"secrets\":[]}").unwrap();
    assert_eq!(file.cipher_version, 7);
    assert_eq!(file.cipher_kind, CipherKind::Symmetric);
    let mut reader = SymmetricCipher::new([4u8; 32]);
    assert_eq!(open_vault_file(&mut reader, &file).unwrap(), b"{\"secrets\":[]}");
    let mut wrong = SymmetricCipher::new([5u8; 32]);
    assert!(open_vault_file(&mut wrong, &file).is_err());

    let mut c = SymmetricCipher::new([6u8; 32]);
    let f = seal_vault_file(&mut c, 1, b"contents").unwrap();
    assert_eq!(open_vault_file(&mut c, &f).unwrap(), b"contents");
}

fn now() -> Timestamp {
    let t = chrono::Utc::now();
    Timestamp { secs: t.timestamp(), nanos: t.timestamp_subsec_nanos() }
}

#[test]
fn background_save_decisions() {
    assert_eq!(background_save_action(false, true, 1000), SaveAction::Nothing);
    assert_eq!(background_save_action(true, false, 10), SaveAction::Nothing);
    assert_eq!(background_save_action(true, true, 10), SaveAction::Flush);
    assert_eq!(background_save_action(true, false, 299), SaveAction::Nothing);
    assert_eq!(background_save_action(true, false, 300), SaveAction::FlushAndForce);
    assert_eq!(background_save_action(true, true, 301), SaveAction::FlushAndForce);
}

#[test]
fn take_vault_hands_over_the_open_vault() {
    let (mut st, id) = state_with_entry();
    st.set_active(id);
    let mut v = Vault::new("symmetric", 1);
    v.add_secret(envly::models::Secret::new("K".into(), "secret".into())).unwrap();
    st.unlock(v, VaultCipher::Symmetric(SymmetricCipher::new([1u8; 32])));
    let taken = st.take_vault().unwrap();
    assert!(st.vault().is_none());
    assert_eq!(st.active_vault_id(), Some(id));
    let value = taken.secrets.into_iter().next().unwrap().value.into_inner();
    assert_eq!(value, "secret");
}
