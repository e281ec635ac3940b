use envly::models::{EnvMapping, Environment, Project, Secret, Vault};
use envly::error::EnvlyError;

fn test_vault() -> Vault {
    Vault::new("passphrase", 1)
}

#[test]
fn add_and_find_secret() {
    let mut vault = test_vault();
    let secret = Secret::new("DB_HOST".into(), "localhost".into());
    let id = secret.id;
    vault.add_secret(secret).unwrap();
    assert!(vault.find_secret(id).is_some());
    assert_eq!(vault.find_secret(id).unwrap().key, "DB_HOST");
}

#[test]
fn duplicate_secret_key_rejected() {
    let mut vault = test_vault();
    vault.add_secret(Secret::new("KEY".into(), "v1".into())).unwrap();
    let result = vault.add_secret(Secret::new("KEY".into(), "v2".into()));
    assert!(result.is_err());
}

#[test]
fn remove_secret_success() {
    let mut vault = test_vault();
    let secret = Secret::new("KEY".into(), "val".into());
    let id = secret.id;
    vault.add_secret(secret).unwrap();
    vault.remove_secret(id).unwrap();
    assert!(vault.find_secret(id).is_none());
}

#[test]
fn remove_secret_not_found() {
    let mut vault = test_vault();
    let result = vault.remove_secret(uuid::Uuid::new_v4().as_u128());
    assert!(result.is_err());
}

#[test]
fn remove_referenced_secret_rejected() {
    let mut vault = test_vault();
    let secret = Secret::new("KEY".into(), "val".into());
    let secret_id = secret.id;
    vault.add_secret(secret).unwrap();

    let mut project = Project::new("myapp".into(), "/tmp/myapp".into());
    let project_id = project.id;
    let mut env = Environment::new("dev".into());
    let env_id = env.id;
    env.mappings.push(EnvMapping::new("DATABASE_URL".into(), secret_id));
    project.environments.push(env);
    vault.add_project(project).unwrap();

    let result = vault.remove_secret(secret_id);
    assert!(result.is_err());

    let mapping_id = vault.find_project(project_id).unwrap().environments[0].mappings[0].id;
    vault.remove_mapping(project_id, env_id, mapping_id).unwrap();
    vault.remove_secret(secret_id).unwrap();
}

#[test]
fn referenced_secret_error_names_the_mapping() {
    let mut vault = test_vault();
    let secret = Secret::new("KEY".into(), "val".into());
    let secret_id = secret.id;
    vault.add_secret(secret).unwrap();
    let mut project = Project::new("myapp".into(), "/tmp/myapp".into());
    let mut env = Environment::new("dev".into());
    env.mappings.push(EnvMapping::new("DATABASE_URL".into(), secret_id));
    project.environments.push(env);
    vault.add_project(project).unwrap();
    match vault.remove_secret(secret_id) {
        Err(EnvlyError::Validation(m)) => assert_eq!(
            m,
            "Cannot delete secret: referenced by mapping 'DATABASE_URL' in environment 'dev' of project 'myapp'"
        ),
        _ => panic!("expected a validation error"),
    }
}

#[test]
fn add_and_find_project() {
    let mut vault = test_vault();
    let project = Project::new("api".into(), "/code/api".into());
    let id = project.id;
    vault.add_project(project).unwrap();
    assert!(vault.find_project(id).is_some());
}

#[test]
fn duplicate_project_name_rejected() {
    let mut vault = test_vault();
    vault.add_project(Project::new("api".into(), "/a".into())).unwrap();
    let result = vault.add_project(Project::new("api".into(), "/b".into()));
    assert!(result.is_err());
}

#[test]
fn environment_crud() {
    let mut vault = test_vault();
    let project = Project::new("api".into(), "/code/api".into());
    let project_id = project.id;
    vault.add_project(project).unwrap();

    let env = Environment::new("staging".into());
    let env_id = env.id;
    vault.add_environment(project_id, env).unwrap();

    let project = vault.find_project(project_id).unwrap();
    assert_eq!(project.environments.len(), 1);
    assert_eq!(project.environments[0].name, "staging");

    vault.remove_environment(project_id, env_id).unwrap();
    let project = vault.find_project(project_id).unwrap();
    assert!(project.environments.is_empty());
}

fn is_active(vault: &Vault, pid: u128, eid: u128) -> bool {
    vault
        .find_project(pid)
        .unwrap()
        .environments
        .iter()
        .find(|e| e.id == eid)
        .unwrap()
        .is_active
}

#[test]
fn activate_deactivate_environment() {
    let mut vault = test_vault();
    let project = Project::new("api".into(), "/code/api".into());
    let pid = project.id;
    vault.add_project(project).unwrap();

    let env1 = Environment::new("dev".into());
    let eid1 = env1.id;
    let env2 = Environment::new("staging".into());
    let eid2 = env2.id;
    vault.add_environment(pid, env1).unwrap();
    vault.add_environment(pid, env2).unwrap();

    vault.activate_environment(pid, eid1).unwrap();
    assert!(is_active(&vault, pid, eid1));
    assert!(!is_active(&vault, pid, eid2));

    vault.activate_environment(pid, eid2).unwrap();
    assert!(!is_active(&vault, pid, eid1));
    assert!(is_active(&vault, pid, eid2));

    vault.deactivate_environment(pid, eid2).unwrap();
    assert!(!is_active(&vault, pid, eid2));
}

#[test]
fn mapping_crud() {
    let mut vault = test_vault();
    let secret = Secret::new("PG_PASS".into(), "secret123".into());
    let secret_id = secret.id;
    vault.add_secret(secret).unwrap();

    let project = Project::new("api".into(), "/code/api".into());
    let pid = project.id;
    vault.add_project(project).unwrap();

    let env = Environment::new("dev".into());
    let eid = env.id;
    vault.add_environment(pid, env).unwrap();

    let mapping = EnvMapping::new("DATABASE_PASSWORD".into(), secret_id);
    let mid = mapping.id;
    vault.add_mapping(pid, eid, mapping).unwrap();

    let env = &vault.find_project(pid).unwrap().environments[0];
    assert_eq!(env.mappings.len(), 1);
    assert_eq!(env.mappings[0].local_key, "DATABASE_PASSWORD");

    vault.remove_mapping(pid, eid, mid).unwrap();
    let env = &vault.find_project(pid).unwrap().environments[0];
    assert!(env.mappings.is_empty());
}

#[test]
fn mapping_with_nonexistent_secret_rejected() {
    let mut vault = test_vault();
    let project = Project::new("api".into(), "/code/api".into());
    let pid = project.id;
    vault.add_project(project).unwrap();
    let env = Environment::new("dev".into());
    let eid = env.id;
    vault.add_environment(pid, env).unwrap();

    let mapping = EnvMapping::new("KEY".into(), uuid::Uuid::new_v4().as_u128());
    let result = vault.add_mapping(pid, eid, mapping);
    assert!(result.is_err());
}

#[test]
fn duplicate_mapping_local_key_rejected() {
    let mut vault = test_vault();
    let secret = Secret::new("S1".into(), "v1".into());
    let sid = secret.id;
    vault.add_secret(secret).unwrap();

    let project = Project::new("api".into(), "/code/api".into());
    let pid = project.id;
    vault.add_project(project).unwrap();
    let env = Environment::new("dev".into());
    let eid = env.id;
    vault.add_environment(pid, env).unwrap();

    vault.add_mapping(pid, eid, EnvMapping::new("KEY".into(), sid)).unwrap();
    let result = vault.add_mapping(pid, eid, EnvMapping::new("KEY".into(), sid));
    assert!(result.is_err());
}

#[test]
fn ensure_secret_key_unique_rejects_duplicate() {
    let mut vault = test_vault();
    let s1 = Secret::new("KEY_A".into(), "v1".into());
    let s2 = Secret::new("KEY_B".into(), "v2".into());
    let s2_id = s2.id;
    vault.add_secret(s1).unwrap();
    vault.add_secret(s2).unwrap();

    let result = vault.ensure_secret_key_unique("KEY_A", s2_id);
    assert!(result.is_err());
}

#[test]
fn ensure_secret_key_unique_allows_same_id() {
    let mut vault = test_vault();
    let s1 = Secret::new("KEY_A".into(), "v1".into());
    let s1_id = s1.id;
    vault.add_secret(s1).unwrap();

    let result = vault.ensure_secret_key_unique("KEY_A", s1_id);
    assert!(result.is_ok());
}

#[test]
fn ensure_project_name_unique_rejects_duplicate() {
    let mut vault = test_vault();
    let p1 = Project::new("api".into(), "/a".into());
    let p2 = Project::new("web".into(), "/b".into());
    let p2_id = p2.id;
    vault.add_project(p1).unwrap();
    vault.add_project(p2).unwrap();

    let result = vault.ensure_project_name_unique("api", p2_id);
    assert!(result.is_err());
}

#[test]
fn ensure_project_name_unique_allows_same_id() {
    let mut vault = test_vault();
    let p1 = Project::new("api".into(), "/a".into());
    let p1_id = p1.id;
    vault.add_project(p1).unwrap();

    let result = vault.ensure_project_name_unique("api", p1_id);
    assert!(result.is_ok());
}

#[test]
fn ensure_env_name_unique_rejects_duplicate() {
    let mut vault = test_vault();
    let project = Project::new("api".into(), "/a".into());
    let pid = project.id;
    vault.add_project(project).unwrap();

    let env1 = Environment::new("dev".into());
    let env2 = Environment::new("staging".into());
    let env2_id = env2.id;
    vault.add_environment(pid, env1).unwrap();
    vault.add_environment(pid, env2).unwrap();

    let result = vault.ensure_env_name_unique(pid, "dev", env2_id);
    assert!(result.is_err());
}

#[test]
fn ensure_env_name_unique_allows_same_id() {
    let mut vault = test_vault();
    let project = Project::new("api".into(), "/a".into());
    let pid = project.id;
    vault.add_project(project).unwrap();

    let env1 = Environment::new("dev".into());
    let env1_id = env1.id;
    vault.add_environment(pid, env1).unwrap();

    let result = vault.ensure_env_name_unique(pid, "dev", env1_id);
    assert!(result.is_ok());
}

#[test]
fn add_secret_empty_key_rejected() {
    let mut vault = test_vault();
    let result = vault.add_secret(Secret::new("".into(), "val".into()));
    assert!(result.is_err());
}

#[test]
fn add_secret_whitespace_only_key_rejected() {
    let mut vault = test_vault();
    let result = vault.add_secret(Secret::new("   ".into(), "val".into()));
    assert!(result.is_err());
}

#[test]
fn add_project_empty_name_rejected() {
    let mut vault = test_vault();
    let result = vault.add_project(Project::new("".into(), "/a".into()));
    assert!(result.is_err());
}

#[test]
fn add_environment_empty_name_rejected() {
    let mut vault = test_vault();
    let project = Project::new("api".into(), "/a".into());
    let pid = project.id;
    vault.add_project(project).unwrap();
    let result = vault.add_environment(pid, Environment::new("".into()));
    assert!(result.is_err());
}

#[test]
fn add_mapping_empty_local_key_rejected() {
    let mut vault = test_vault();
    let secret = Secret::new("S1".into(), "v1".into());
    let sid = secret.id;
    vault.add_secret(secret).unwrap();
    let project = Project::new("api".into(), "/a".into());
    let pid = project.id;
    vault.add_project(project).unwrap();
    let env = Environment::new("dev".into());
    let eid = env.id;
    vault.add_environment(pid, env).unwrap();

    let result = vault.add_mapping(pid, eid, EnvMapping::new("".into(), sid));
    assert!(result.is_err());
}

#[test]
fn add_mapping_same_secret_different_keys_succeeds() {
    let mut vault = test_vault();
    let secret = Secret::new("DB_PASS".into(), "s3cret".into());
    let sid = secret.id;
    vault.add_secret(secret).unwrap();

    let project = Project::new("api".into(), "/code/api".into());
    let pid = project.id;
    vault.add_project(project).unwrap();
    let env = Environment::new("dev".into());
    let eid = env.id;
    vault.add_environment(pid, env).unwrap();

    vault.add_mapping(pid, eid, EnvMapping::new("DB_PASSWORD".into(), sid)).unwrap();
    vault.add_mapping(pid, eid, EnvMapping::new("DATABASE_PASSWORD".into(), sid)).unwrap();

    let envs = &vault.find_project(pid).unwrap().environments[0];
    assert_eq!(envs.mappings.len(), 2);
}

#[test]
fn multiple_projects_independent_environments() {
    let mut vault = test_vault();
    let p1 = Project::new("api".into(), "/a".into());
    let p2 = Project::new("web".into(), "/b".into());
    let pid1 = p1.id;
    let pid2 = p2.id;
    vault.add_project(p1).unwrap();
    vault.add_project(p2).unwrap();

    vault.add_environment(pid1, Environment::new("dev".into())).unwrap();
    vault.add_environment(pid2, Environment::new("dev".into())).unwrap();

    assert_eq!(vault.find_project(pid1).unwrap().environments.len(), 1);
    assert_eq!(vault.find_project(pid2).unwrap().environments.len(), 1);
}

#[test]
fn activate_nonexistent_environment_fails() {
    let mut vault = test_vault();
    let project = Project::new("api".into(), "/a".into());
    let pid = project.id;
    vault.add_project(project).unwrap();

    let result = vault.activate_environment(pid, uuid::Uuid::new_v4().as_u128());
    assert!(result.is_err());
}

#[test]
fn deactivate_already_inactive_is_ok() {
    let mut vault = test_vault();
    let project = Project::new("api".into(), "/a".into());
    let pid = project.id;
    vault.add_project(project).unwrap();
    let env = Environment::new("dev".into());
    let eid = env.id;
    vault.add_environment(pid, env).unwrap();

    vault.deactivate_environment(pid, eid).unwrap();
    let p = vault.find_project(pid).unwrap();
    assert!(!p.environments[0].is_active);
}

#[test]
fn remove_environment_nonexistent_project_fails() {
    let mut vault = test_vault();
    let result = vault.remove_environment(uuid::Uuid::new_v4().as_u128(), uuid::Uuid::new_v4().as_u128());
    assert!(result.is_err());
}

#[test]
fn remove_mapping_nonexistent_mapping_fails() {
    let mut vault = test_vault();
    let project = Project::new("api".into(), "/a".into());
    let pid = project.id;
    vault.add_project(project).unwrap();
    let env = Environment::new("dev".into());
    let eid = env.id;
    vault.add_environment(pid, env).unwrap();

    let result = vault.remove_mapping(pid, eid, uuid::Uuid::new_v4().as_u128());
    assert!(result.is_err());
}

#[test]
fn validation_messages_are_exact() {
    let mut vault = test_vault();
    match vault.add_secret(Secret::new(" ".into(), "v".into())) {
        Err(EnvlyError::Validation(m)) => assert_eq!(m, "Secret key cannot be empty"),
        _ => panic!("expected a validation error"),
    }
    vault.add_secret(Secret::new("K".into(), "v".into())).unwrap();
    match vault.add_secret(Secret::new("K".into(), "w".into())) {
        Err(EnvlyError::Validation(m)) => assert_eq!(m, "Secret with key 'K' already exists"),
        _ => panic!("expected a validation error"),
    }
    match vault.add_project(Project::new("".into(), "/a".into())) {
        Err(EnvlyError::Validation(m)) => assert_eq!(m, "Project name cannot be empty"),
        _ => panic!("expected a validation error"),
    }
    match Vault::validate_local_key("  ") {
        Err(EnvlyError::Validation(m)) => assert_eq!(m, "Mapping local_key cannot be empty"),
        _ => panic!("expected a validation error"),
    }
}

#[test]
fn zeroizing_holds_its_value() {
    let s = Secret::new("K".into(), "value".into());
    assert_eq!(s.value.as_inner(), "value");
    assert_eq!(*s.value, "value");
    assert!(s.description.is_empty());
    assert!(s.expires_at.is_none());
    assert_eq!(s.created_at, s.updated_at);
}

#[test]
fn new_project_uses_default_env_filename() {
    let p = Project::new("api".into(), "/a".into());
    assert_eq!(p.env_filename, ".env");
    assert!(!p.starred);
    assert_eq!(envly::models::default_env_filename(), ".env");
}
