use envly::models::{EnvMapping, Environment, Project, Secret, Vault};
use envly::resolver::resolve_environment;
use envly::error::EnvlyError;

fn setup_vault() -> (Vault, u128, u128, u128) {
    let mut vault = Vault::new("symmetric", 1);
    let secret = Secret::new("DB_PASS".into(), "s3cret".into());
    let secret_id = secret.id;
    vault.add_secret(secret).unwrap();

    let project = Project::new("api".into(), "/tmp/api".into());
    let project_id = project.id;
    vault.add_project(project).unwrap();

    let env = Environment::new("dev".into());
    let env_id = env.id;
    vault.add_environment(project_id, env).unwrap();

    vault
        .add_mapping(project_id, env_id, EnvMapping::new("DATABASE_PASSWORD".into(), secret_id))
        .unwrap();

    (vault, project_id, env_id, secret_id)
}

#[test]
fn resolve_valid_environment() {
    let (vault, project_id, env_id, _) = setup_vault();
    let resolved = resolve_environment(&vault, project_id, env_id).unwrap();
    assert_eq!(resolved.len(), 1);
    assert_eq!(resolved[0].0, "DATABASE_PASSWORD");
    assert_eq!(resolved[0].1, "s3cret");
}

#[test]
fn resolve_empty_environment() {
    let mut vault = Vault::new("symmetric", 1);
    let project = Project::new("api".into(), "/tmp/api".into());
    let pid = project.id;
    vault.add_project(project).unwrap();
    let env = Environment::new("empty".into());
    let eid = env.id;
    vault.add_environment(pid, env).unwrap();

    let resolved = resolve_environment(&vault, pid, eid).unwrap();
    assert!(resolved.is_empty());
}

#[test]
fn resolve_missing_project_fails() {
    let vault = Vault::new("symmetric", 1);
    let result = resolve_environment(&vault, uuid::Uuid::new_v4().as_u128(), uuid::Uuid::new_v4().as_u128());
    assert!(result.is_err());
}

#[test]
fn resolve_missing_environment_fails() {
    let mut vault = Vault::new("symmetric", 1);
    let project = Project::new("api".into(), "/tmp/api".into());
    let pid = project.id;
    vault.add_project(project).unwrap();

    let result = resolve_environment(&vault, pid, uuid::Uuid::new_v4().as_u128());
    assert!(result.is_err());
}

#[test]
fn resolve_multiple_mappings_ordering() {
    let mut vault = Vault::new("symmetric", 1);

    let s1 = Secret::new("S_A".into(), "val_a".into());
    let s2 = Secret::new("S_B".into(), "val_b".into());
    let s3 = Secret::new("S_C".into(), "val_c".into());
    let sid1 = s1.id;
    let sid2 = s2.id;
    let sid3 = s3.id;
    vault.add_secret(s1).unwrap();
    vault.add_secret(s2).unwrap();
    vault.add_secret(s3).unwrap();

    let project = Project::new("api".into(), "/tmp/api".into());
    let pid = project.id;
    vault.add_project(project).unwrap();

    let env = Environment::new("dev".into());
    let eid = env.id;
    vault.add_environment(pid, env).unwrap();

    vault.add_mapping(pid, eid, EnvMapping::new("FIRST".into(), sid1)).unwrap();
    vault.add_mapping(pid, eid, EnvMapping::new("SECOND".into(), sid2)).unwrap();
    vault.add_mapping(pid, eid, EnvMapping::new("THIRD".into(), sid3)).unwrap();

    let resolved = resolve_environment(&vault, pid, eid).unwrap();
    assert_eq!(resolved.len(), 3);
    assert_eq!(resolved[0].0, "FIRST");
    assert_eq!(resolved[1].0, "SECOND");
    assert_eq!(resolved[2].0, "THIRD");
}

#[test]
fn resolve_with_deleted_secret_fails() {
    let mut vault = Vault::new("symmetric", 1);
    let secret = Secret::new("S1".into(), "v1".into());
    let sid = secret.id;
    vault.add_secret(secret).unwrap();

    let project = Project::new("api".into(), "/tmp/api".into());
    let pid = project.id;
    vault.add_project(project).unwrap();

    let env = Environment::new("dev".into());
    let eid = env.id;
    vault.add_environment(pid, env).unwrap();
    vault.add_mapping(pid, eid, EnvMapping::new("KEY".into(), sid)).unwrap();

    vault.secrets.clear();

    let result = resolve_environment(&vault, pid, eid);
    assert!(result.is_err());
}

#[test]
fn resolve_dangling_secret_message() {
    let (mut vault, pid, eid, sid) = setup_vault();
    vault.secrets.clear();
    match resolve_environment(&vault, pid, eid) {
        Err(EnvlyError::Validation(m)) => assert_eq!(
            m,
            format!(
                "Secret with id '{}' not found (referenced by mapping 'DATABASE_PASSWORD')",
                uuid::Uuid::from_u128(sid)
            )
        ),
        _ => panic!("expected a validation error"),
    }
}
