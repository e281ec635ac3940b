use envly::crypto::CipherKind;
use envly::error::EnvlyError;
use envly::ids::Timestamp;
use envly::registry::{VaultEntry, VaultRegistry};

fn sample_entry(name: &str) -> VaultEntry {
    VaultEntry {
        id: uuid::Uuid::new_v4().as_u128(),
        name: name.to_string(),
        path: format!("/tmp/{name}.envly"),
        cipher_kind: CipherKind::Passphrase,
        created_at: now(),
        last_accessed: None,
    }
}

#[test]
fn test_add_and_find() {
    let mut reg = VaultRegistry::default();
    let entry = sample_entry("work");
    let id = entry.id;
    reg.add_entry(entry).unwrap();
    assert!(reg.find_entry(id).is_some());
}

#[test]
fn test_duplicate_name_rejected() {
    let mut reg = VaultRegistry::default();
    reg.add_entry(sample_entry("work")).unwrap();
    let result = reg.add_entry(sample_entry("work"));
    assert!(result.is_err());
}

#[test]
fn test_remove() {
    let mut reg = VaultRegistry::default();
    let entry = sample_entry("temp");
    let id = entry.id;
    reg.add_entry(entry).unwrap();
    reg.remove_entry(id).unwrap();
    assert!(reg.find_entry(id).is_none());
}

#[test]
fn test_rename() {
    let mut reg = VaultRegistry::default();
    let entry = sample_entry("old");
    let id = entry.id;
    reg.add_entry(entry).unwrap();
    reg.rename_entry(id, "new".to_string()).unwrap();
    assert_eq!(reg.find_entry(id).unwrap().name, "new");
}

#[test]
fn test_update_last_accessed() {
    let mut reg = VaultRegistry::default();
    let entry = sample_entry("main");
    let id = entry.id;
    reg.add_entry(entry).unwrap();
    assert!(reg.find_entry(id).unwrap().last_accessed.is_none());
    reg.update_last_accessed(id);
    assert!(reg.find_entry(id).unwrap().last_accessed.is_some());
}

#[test]
fn test_add_entry_duplicate_path_rejected() {
    let mut reg = VaultRegistry::default();
    let mut e1 = sample_entry("alpha");
    e1.path = "/tmp/shared.envly".to_string();
    reg.add_entry(e1).unwrap();

    let mut e2 = sample_entry("beta");
    e2.path = "/tmp/shared.envly".to_string();
    let result = reg.add_entry(e2);
    assert!(result.is_err());
}

#[test]
fn test_prune_stale_removes_missing_files() {
    let mut reg = VaultRegistry::default();
    let mut e1 = sample_entry("real");
    e1.path = "/tmp/real.envly".to_string();
    reg.add_entry(e1).unwrap();
    let mut e2 = sample_entry("gone");
    e2.path = "/nonexistent/gone.envly".to_string();
    reg.add_entry(e2).unwrap();

    assert_eq!(reg.vaults.len(), 2);
    let stale = reg.prune_stale(&vec![true, false]);
    assert_eq!(stale.len(), 1);
    assert_eq!(stale[0].name, "gone");
    assert_eq!(reg.vaults.len(), 1);
    assert_eq!(reg.vaults[0].name, "real");
}

#[test]
fn test_rename_to_duplicate_name_rejected() {
    let mut reg = VaultRegistry::default();
    let e1 = sample_entry("alpha");
    let e2 = sample_entry("beta");
    let e2_id = e2.id;
    reg.add_entry(e1).unwrap();
    reg.add_entry(e2).unwrap();

    let result = reg.rename_entry(e2_id, "alpha".to_string());
    assert!(result.is_err());
}

#[test]
fn test_rename_nonexistent_entry_fails() {
    let mut reg = VaultRegistry::default();
    let result = reg.rename_entry(uuid::Uuid::new_v4().as_u128(), "new_name".to_string());
    assert!(result.is_err());
}

#[test]
fn test_remove_nonexistent_entry_fails() {
    let mut reg = VaultRegistry::default();
    let result = reg.remove_entry(uuid::Uuid::new_v4().as_u128());
    assert!(result.is_err());
}

#[test]
fn registry_messages_and_equal_paths() {
    let mut reg = VaultRegistry::default();
    let mut e1 = sample_entry("alpha");
    e1.path = "/tmp/x/vault.envly".to_string();
    reg.add_entry(e1).unwrap();
    match reg.add_entry(sample_entry("alpha")) {
        Err(EnvlyError::Validation(m)) => assert_eq!(m, "A vault named 'alpha' already exists"),
        _ => panic!("expected a validation error"),
    }
    let mut e2 = sample_entry("beta");
    e2.path = "/tmp/x//vault.envly".to_string();
    match reg.add_entry(e2) {
        Err(EnvlyError::Validation(m)) => {
            assert_eq!(m, "A vault at path '/tmp/x//vault.envly' is already registered")
        }
        _ => panic!("expected a validation error"),
    }
    match reg.remove_entry(uuid::Uuid::new_v4().as_u128()) {
        Err(EnvlyError::Vault(m)) => assert_eq!(m, "Vault entry not found"),
        _ => panic!("expected a vault error"),
    }
}

#[test]
fn rename_to_own_name_is_allowed_and_set_last_accessed_is_exact() {
    let mut reg = VaultRegistry::default();
    let e = sample_entry("solo");
    let id = e.id;
    reg.add_entry(e).unwrap();
    reg.rename_entry(id, "solo".to_string()).unwrap();
    let t = Timestamp { secs: 1_700_000_000, nanos: 5 };
    reg.set_last_accessed(id, t);
    assert_eq!(reg.find_entry(id).unwrap().last_accessed, Some(t));
    let removed = reg.remove_entry(id).unwrap();
    assert_eq!(removed.name, "solo");
    assert!(reg.vaults.is_empty());
}

fn now() -> Timestamp {
    let t = chrono::Utc::now();
    Timestamp { secs: t.timestamp(), nanos: t.timestamp_subsec_nanos() }
}
