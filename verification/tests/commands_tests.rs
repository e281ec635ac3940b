use envly::commands::environments::{
    activate_environment, active_link_of_env, add_mapping, clone_environment, create_environment,
    deactivate_environment, delete_environment, list_environments, list_mappings,
    refresh_active_symlink, remove_mapping, update_environment, AddMappingArgs,
    CloneEnvironmentArgs, CreateEnvironmentArgs, UpdateEnvironmentArgs,
};
use envly::commands::projects::{
    active_link_of_project, clone_project, create_project, delete_project, list_projects,
    toggle_project_starred, update_project, CloneProjectArgs, CreateProjectArgs,
    UpdateProjectArgs,
};
use envly::commands::secrets::{
    bulk_create_secrets, create_secret, delete_secret, list_secrets, pending_refreshes,
    reveal_secret_value, update_secret, BulkSecretEntry, CreateSecretArgs, UpdateSecretArgs,
};
use envly::commands::vault_commands::{
    cipher_for_new_vault, create_vault_entry, delete_vault_entry, get_active_vault_cipher_kind,
    import_vault_entry, list_vaults, migration_passphrase, migration_source, parse_cipher_kind,
    migration_keychain_steps, rename_vault, set_entry_cipher_kind, set_vault_cipher_kind, CreateVaultEntryArgs, ImportVaultEntryArgs,
};
use envly::crypto::symmetric::SymmetricCipher;
use envly::crypto::{CipherKind, VaultCipher};
use envly::models::Vault;
use envly::registry::VaultRegistry;
use envly::state::AppState;

fn vault_with_project() -> (Vault, u128) {
    let mut v = Vault::new("symmetric", 1);
    let pid = create_project(
        &mut v,
        CreateProjectArgs {
            name: "api".into(),
            folder_path: "/code/api".into(),
            description: "the api".into(),
            env_filename: "".into(),
        },
    )
    .unwrap();
    (v, pid)
}

#[test]
fn create_project_defaults_env_filename_and_rejects_duplicates() {
    let (mut v, pid) = vault_with_project();
    let p = v.find_project(pid).unwrap();
    assert_eq!(p.env_filename, ".env");
    assert_eq!(p.description, "the api");
    let err = create_project(
        &mut v,
        CreateProjectArgs {
            name: "api".into(),
            folder_path: "/x".into(),
            description: "".into(),
            env_filename: ".env.local".into(),
        },
    )
    .unwrap_err();
    assert_eq!(err, "Validation error: Project with name 'api' already exists");
    let id2 = create_project(
        &mut v,
        CreateProjectArgs {
            name: "web".into(),
            folder_path: "/x".into(),
            description: "".into(),
            env_filename: ".env.local".into(),
        },
    )
    .unwrap();
    assert_eq!(v.find_project(id2).unwrap().env_filename, ".env.local");
}

#[test]
fn update_toggle_and_delete_project() {
    let (mut v, pid) = vault_with_project();
    update_project(
        &mut v,
        UpdateProjectArgs {
            id: pid,
            name: Some("api2".into()),
            description: None,
            folder_path: Some("/new".into()),
            env_filename: None,
        },
    )
    .unwrap();
    let p = v.find_project(pid).unwrap();
    assert_eq!(p.name, "api2");
    assert_eq!(p.folder_path, "/new");
    assert_eq!(p.description, "the api");
    assert_eq!(toggle_project_starred(&mut v, pid).unwrap(), true);
    assert_eq!(toggle_project_starred(&mut v, pid).unwrap(), false);
    let missing = uuid::Uuid::new_v4().as_u128();
    assert_eq!(
        toggle_project_starred(&mut v, missing).unwrap_err(),
        format!("Project with id '{}' not found", uuid::Uuid::from_u128(missing))
    );
    assert!(active_link_of_project(&v, pid).is_none());
    delete_project(&mut v, pid).unwrap();
    assert!(v.projects.is_empty());
    assert!(delete_project(&mut v, pid).is_err());
}

#[test]
fn environments_activation_links_and_summaries() {
    let (mut v, pid) = vault_with_project();
    let sid = create_secret(
        &mut v,
        CreateSecretArgs {
            key: "DB_PASS".into(),
            value: "p w".into(),
            description: "".into(),
            expires_at: None,
            tags: vec!["db".into()],
        },
    )
    .unwrap();
    let eid = create_environment(
        &mut v,
        CreateEnvironmentArgs { project_id: pid, name: "dev".into(), description: "d".into() },
    )
    .unwrap();
    let mid = add_mapping(
        &mut v,
        AddMappingArgs {
            project_id: pid,
            env_id: eid,
            local_key: "DATABASE_PASSWORD".into(),
            secret_id: sid,
            notes: "n".into(),
        },
    )
    .unwrap();
    assert!(refresh_active_symlink(&v, pid, eid).unwrap().is_none());
    let (folder, file, content) = activate_environment(&mut v, pid, eid).unwrap();
    assert_eq!(folder, "/code/api");
    assert_eq!(file, ".env");
    assert_eq!(content, "DATABASE_PASSWORD=\"p w\"\n");
    let (f2, n2, c2) = refresh_active_symlink(&v, pid, eid).unwrap().unwrap();
    assert_eq!((f2.as_str(), n2.as_str(), c2.as_str()), ("/code/api", ".env", content.as_str()));
    let envs = list_environments(&v, pid).unwrap();
    assert_eq!(envs.len(), 1);
    assert!(envs[0].is_active);
    assert_eq!(envs[0].mapping_count, 1);
    let summaries = list_projects(&v, &vec![true]);
    assert_eq!(summaries[0].active_env.as_ref().unwrap().name, "dev");
    assert!(summaries[0].path_valid);
    let maps = list_mappings(&v, pid, eid).unwrap();
    assert_eq!(maps[0].secret_key, "DB_PASS");
    assert_eq!(maps[0].id, mid);
    assert_eq!(active_link_of_env(&v, pid, eid).unwrap().unwrap().1, ".env");
    assert!(active_link_of_project(&v, pid).is_some());

    let pending = pending_refreshes(&v, &vec![sid]);
    assert_eq!(pending.len(), 1);
    assert!(pending_refreshes(&v, &vec![]).is_empty());
    assert!(pending_refreshes(&v, &vec![uuid::Uuid::new_v4().as_u128()]).is_empty());

    let (df, dn) = deactivate_environment(&mut v, pid, eid).unwrap();
    assert_eq!((df.as_str(), dn.as_str()), ("/code/api", ".env"));
    assert!(active_link_of_env(&v, pid, eid).unwrap().is_none());
    remove_mapping(&mut v, pid, eid, mid).unwrap();
    assert!(list_mappings(&v, pid, eid).unwrap().is_empty());
    update_environment(
        &mut v,
        UpdateEnvironmentArgs { project_id: pid, env_id: eid, name: Some("stage".into()), description: None },
    )
    .unwrap();
    assert_eq!(list_environments(&v, pid).unwrap()[0].name, "stage");
    assert_eq!(
        update_environment(
            &mut v,
            UpdateEnvironmentArgs { project_id: pid, env_id: uuid::Uuid::new_v4().as_u128(), name: None, description: None },
        )
        .unwrap_err(),
        "Environment not found"
    );
    delete_environment(&mut v, pid, eid).unwrap();
    assert!(list_environments(&v, pid).unwrap().is_empty());
}

#[test]
fn clone_environment_and_project_copy_mappings_inactive() {
    let (mut v, pid) = vault_with_project();
    let sid = create_secret(
        &mut v,
        CreateSecretArgs {
            key: "K".into(),
            value: "v".into(),
            description: "".into(),
            expires_at: Some(738000),
            tags: vec![],
        },
    )
    .unwrap();
    let eid = create_environment(
        &mut v,
        CreateEnvironmentArgs { project_id: pid, name: "dev".into(), description: "desc".into() },
    )
    .unwrap();
    add_mapping(
        &mut v,
        AddMappingArgs { project_id: pid, env_id: eid, local_key: "A".into(), secret_id: sid, notes: "x".into() },
    )
    .unwrap();
    activate_environment(&mut v, pid, eid).unwrap();
    let cid = clone_environment(
        &mut v,
        CloneEnvironmentArgs {
            source_project_id: pid,
            source_env_id: eid,
            target_project_id: pid,
            new_name: "dev-copy".into(),
        },
    )
    .unwrap();
    let p = v.find_project(pid).unwrap();
    let c = p.environments.iter().find(|e| e.id == cid).unwrap();
    assert!(!c.is_active);
    assert_eq!(c.description, "desc");
    assert_eq!(c.mappings[0].local_key, "A");
    assert_eq!(c.mappings[0].notes, "x");
    assert_ne!(c.mappings[0].id, p.environments[0].mappings[0].id);
    assert_eq!(v.cipher_kind, "symmetric");
    assert_eq!(v.cipher_version, 1);
    assert_eq!(
        clone_environment(
            &mut v,
            CloneEnvironmentArgs {
                source_project_id: pid,
                source_env_id: uuid::Uuid::new_v4().as_u128(),
                target_project_id: pid,
                new_name: "z".into(),
            },
        )
        .unwrap_err(),
        "Source environment not found"
    );
    let npid = clone_project(
        &mut v,
        CloneProjectArgs { source_project_id: pid, new_name: "api-copy".into(), new_folder_path: "/copy".into() },
    )
    .unwrap();
    let np = v.find_project(npid).unwrap();
    assert_eq!(np.environments.len(), 2);
    assert!(np.environments.iter().all(|e| !e.is_active));
    assert_eq!(np.folder_path, "/copy");
    assert_eq!(
        clone_project(
            &mut v,
            CloneProjectArgs { source_project_id: uuid::Uuid::new_v4().as_u128(), new_name: "q".into(), new_folder_path: "/q".into() },
        )
        .unwrap_err(),
        "Source project not found"
    );
}

#[test]
fn secrets_update_reveal_delete_and_bulk() {
    let mut v = Vault::new("symmetric", 1);
    let sid = create_secret(
        &mut v,
        CreateSecretArgs { key: "A".into(), value: "1".into(), description: "".into(), expires_at: None, tags: vec![] },
    )
    .unwrap();
    assert_eq!(reveal_secret_value(&v, sid).unwrap(), "1");
    assert_eq!(
        update_secret(
            &mut v,
            UpdateSecretArgs { id: sid, key: None, value: Some("2".into()), description: None, expires_at: Some(None), tags: None },
        )
        .unwrap(),
        true
    );
    assert_eq!(reveal_secret_value(&v, sid).unwrap(), "2");
    assert_eq!(
        update_secret(
            &mut v,
            UpdateSecretArgs { id: sid, key: Some("B".into()), value: None, description: None, expires_at: None, tags: None },
        )
        .unwrap(),
        false
    );
    assert_eq!(list_secrets(&v)[0].key, "B");

    let (res, ids) = bulk_create_secrets(
        &mut v,
        vec![
            BulkSecretEntry { key: "B".into(), value: "3".into() },
            BulkSecretEntry { key: "C".into(), value: "4".into() },
            BulkSecretEntry { key: "C".into(), value: "5".into() },
        ],
    );
    assert_eq!(res.created, 1);
    assert_eq!(res.updated, 2);
    assert_eq!(ids.len(), 2);
    assert_eq!(ids[0], sid);
    assert_eq!(reveal_secret_value(&v, sid).unwrap(), "3");
    assert_eq!(v.secrets.len(), 2);
    assert_eq!(v.secrets[1].key, "C");
    assert_eq!(v.secrets[1].value.as_inner(), "5");
    assert_eq!(ids[1], v.secrets[1].id);
    assert_eq!(v.secrets[1].description, "");
    assert!(v.secrets[1].tags.is_empty());

    delete_secret(&mut v, sid).unwrap();
    assert_eq!(
        reveal_secret_value(&v, sid).unwrap_err(),
        format!("Secret with id '{}' not found", uuid::Uuid::from_u128(sid))
    );
}

#[test]
fn vault_registry_commands() {
    let mut reg = VaultRegistry::new();
    let args = CreateVaultEntryArgs {
        name: "work".into(),
        path: "/tmp/work.envly".into(),
        cipher_kind: CipherKind::Symmetric,
        passphrase: None,
    };
    assert_eq!(
        create_vault_entry(&mut reg, &args, true).unwrap_err(),
        "A file already exists at the specified path. Choose a different location or import the existing vault."
    );
    let id = create_vault_entry(&mut reg, &args, false).unwrap();
    assert_eq!(list_vaults(&reg)[0].name, "work");
    assert_eq!(parse_cipher_kind("passphrase"), Some(CipherKind::Passphrase));
    assert_eq!(parse_cipher_kind("Symmetric"), None);
    assert_eq!(
        import_vault_entry(&mut reg, ImportVaultEntryArgs { name: "x".into(), path: "/tmp/x.envly".into() }, "not json").unwrap_err(),
        "Not a valid vault file"
    );
    assert_eq!(
        import_vault_entry(&mut reg, ImportVaultEntryArgs { name: "x".into(), path: "/tmp/x.envly".into() }, "{\"version\": 1}").unwrap_err(),
        "Not a valid Envly vault file"
    );
    assert_eq!(
        import_vault_entry(&mut reg, ImportVaultEntryArgs { name: "x".into(), path: "/tmp/x.envly".into() }, "{\"cipher_kind\": 3}").unwrap_err(),
        "Not a valid Envly vault file"
    );
    assert_eq!(
        import_vault_entry(&mut reg, ImportVaultEntryArgs { name: "x".into(), path: "/tmp/x.envly".into() }, "{\"cipher_kind\": \"aes\"}").unwrap_err(),
        "Unknown cipher kind"
    );
    let id2 = import_vault_entry(
        &mut reg,
        ImportVaultEntryArgs { name: "x".into(), path: "/tmp/x.envly".into() },
        "{\"cipher_version\": 1, \"cipher_kind\": \"passphrase\", \"payload\": {}}",
    )
    .unwrap();
    assert_eq!(reg.find_entry(id2).unwrap().cipher_kind, CipherKind::Passphrase);
    rename_vault(&mut reg, id2, "y".into()).unwrap();
    assert_eq!(
        rename_vault(&mut reg, id2, "work".into()).unwrap_err(),
        "Validation error: A vault named 'work' already exists"
    );
    set_entry_cipher_kind(&mut reg, id2, CipherKind::Symmetric);
    assert_eq!(reg.find_entry(id2).unwrap().cipher_kind, CipherKind::Symmetric);
    assert_eq!(delete_vault_entry(&mut reg, id2).unwrap().name, "y");
    assert_eq!(delete_vault_entry(&mut reg, id2).unwrap_err(), "Vault error: Vault entry not found");

    assert!(cipher_for_new_vault(CipherKind::Passphrase, None, [0u8; 32]).is_err());
    assert!(matches!(
        cipher_for_new_vault(CipherKind::Symmetric, None, [0u8; 32]),
        Ok(VaultCipher::Symmetric(_))
    ));
    assert_eq!(migration_passphrase(None).unwrap_err(), "Passphrase is required when migrating to passphrase mode");

    let mut st = AppState::new("/tmp/r.json".into(), reg, "/tmp/t".into());
    assert_eq!(get_active_vault_cipher_kind(&st).unwrap_err(), "No vault selected");
    assert_eq!(migration_source(&st, CipherKind::Passphrase).unwrap_err(), "Vault error: Vault is locked");
    st.set_active(id);
    assert_eq!(get_active_vault_cipher_kind(&st).unwrap(), "symmetric");
    st.init(Vault::new("symmetric", 1), VaultCipher::Symmetric(SymmetricCipher::new([1u8; 32])));
    assert_eq!(migration_source(&st, CipherKind::Symmetric).unwrap_err(), "Vault already uses this cipher mode");
    assert_eq!(migration_source(&st, CipherKind::Passphrase).unwrap(), (id, CipherKind::Symmetric));
    let mut vault = Vault::new("symmetric", 1);
    set_vault_cipher_kind(&mut vault, CipherKind::Passphrase);
    assert_eq!(vault.cipher_kind, "passphrase");
}

#[test]
fn bulk_import_keeps_secret_details() {
    let mut v = Vault::new("symmetric", 1);
    let sid = create_secret(
        &mut v,
        CreateSecretArgs {
            key: "API".into(),
            value: "old".into(),
            description: "the api token".into(),
            expires_at: Some(740000),
            tags: vec!["prod".into()],
        },
    )
    .unwrap();
    let created_at = v.secrets[0].created_at;
    let (res, ids) = bulk_create_secrets(&mut v, vec![BulkSecretEntry { key: "API".into(), value: "new".into() }]);
    assert_eq!(res.created, 0);
    assert_eq!(res.updated, 1);
    assert_eq!(ids, vec![sid]);
    assert_eq!(v.secrets[0].value.as_inner(), "new");
    assert_eq!(v.secrets[0].description, "the api token");
    assert_eq!(v.secrets[0].expires_at, Some(740000));
    assert_eq!(v.secrets[0].tags, vec!["prod".to_string()]);
    assert_eq!(v.secrets[0].created_at, created_at);
    let (res2, ids2) = bulk_create_secrets(
        &mut v,
        vec![
            BulkSecretEntry { key: "API".into(), value: "a".into() },
            BulkSecretEntry { key: "API".into(), value: "b".into() },
        ],
    );
    assert_eq!(res2.updated, 2);
    assert_eq!(ids2, vec![sid]);
    assert_eq!(v.secrets[0].value.as_inner(), "b");
}

#[test]
fn migration_keychain_decisions() {
    let id = uuid::Uuid::new_v4().as_u128();
    let to_sym = migration_keychain_steps(id, CipherKind::Passphrase, CipherKind::Symmetric);
    assert!(to_sym.store_new_key);
    assert_eq!(to_sym.delete_old_key, None);
    let to_pass = migration_keychain_steps(id, CipherKind::Symmetric, CipherKind::Passphrase);
    assert!(!to_pass.store_new_key);
    assert_eq!(to_pass.delete_old_key, Some(id));
}
