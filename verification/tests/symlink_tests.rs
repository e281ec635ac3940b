use envly::ids::Timestamp;
use envly::symlink::{
    detect_existing, elapsed_hours, existing_action, is_stale, link_path, manifest_path,
    temp_file_name, ExistingAction, ExistingFile, Manifest, ManifestEntry,
};
use envly::error::EnvlyError;

#[test]
fn detect_existing_variants() {
    let tmp = "/tmp/envly-tmp";
    // Nothing at the path.
    assert_eq!(detect_existing(false, false, None, tmp), ExistingFile::Absent);
    // A regular file.
    assert_eq!(detect_existing(true, true, None, tmp), ExistingFile::RegularFile);
    // A link into the temporary directory.
    assert_eq!(
        detect_existing(true, true, Some("/tmp/envly-tmp/env-test"), tmp),
        ExistingFile::EnvlySymlink
    );
    // A link elsewhere.
    assert_eq!(
        detect_existing(true, true, Some("/home/me/project/other_file"), tmp),
        ExistingFile::ForeignSymlink
    );
    // A broken link still counts as present.
    assert_eq!(
        detect_existing(false, true, Some("/tmp/envly-tmp/env-gone"), tmp),
        ExistingFile::EnvlySymlink
    );
    // A sibling directory with a common prefix is not inside.
    assert_eq!(
        detect_existing(true, true, Some("/tmp/envly-tmp2/env-x"), tmp),
        ExistingFile::ForeignSymlink
    );
}

#[test]
fn manifest_paths_and_names() {
    assert_eq!(manifest_path("/tmp/envly"), "/tmp/envly/active_envs.json");
    assert_eq!(link_path("/code/app", ".env"), "/code/app/.env");
    let id = 0x0123_4567_89ab_cdef_0123_4567_89ab_cdefu128;
    assert_eq!(temp_file_name(id), "env-01234567-89ab-cdef-0123-456789abcdef");
}

#[test]
fn existing_actions() {
    assert!(matches!(
        existing_action(ExistingFile::Absent, "/p", ".env", "/p/.env"),
        Ok(ExistingAction::Nothing)
    ));
    assert!(matches!(
        existing_action(ExistingFile::EnvlySymlink, "/p", ".env", "/p/.env"),
        Ok(ExistingAction::RemoveLink)
    ));
    match existing_action(ExistingFile::RegularFile, "/p", ".env", "/p/.env") {
        Ok(ExistingAction::MoveToBackup(b)) => assert_eq!(b, "/p/.env.bak"),
        _ => panic!("expected a backup"),
    }
    match existing_action(ExistingFile::ForeignSymlink, "/p", ".env", "/p/.env") {
        Err(EnvlyError::Validation(m)) => assert_eq!(
            m,
            "An unrecognized symlink already exists at '/p/.env'. Please remove it manually."
        ),
        _ => panic!("expected a validation error"),
    }
}

fn entry(id: &str, link: &str, secs: i64) -> ManifestEntry {
    ManifestEntry {
        id: id.to_string(),
        temp_path: format!("/tmp/envly/{id}"),
        symlink_path: link.to_string(),
        pid: 42,
        created_at: Timestamp { secs, nanos: 0 },
    }
}

#[test]
fn manifest_tracks_entries() {
    let mut m = Manifest::new();
    m.record(entry("env-a", "/p/.env", 0));
    assert_eq!(m.entries.len(), 1);
    assert_eq!(m.entries[0].pid, 42);
    m.forget_link("/p/.env");
    assert!(m.entries.is_empty());
}

#[test]
fn forget_link_keeps_other_links_and_compares_paths() {
    let mut m = Manifest::new();
    m.record(entry("env-a", "/p/.env", 0));
    m.record(entry("env-b", "/q/.env", 0));
    m.record(entry("env-c", "/p//.env", 0));
    m.forget_link("/p/.env");
    assert_eq!(m.entries.len(), 1);
    assert_eq!(m.entries[0].id, "env-b");
    // Forgetting a link that is not there changes nothing.
    m.forget_link("/nowhere/.env");
    assert_eq!(m.entries.len(), 1);
    let all = m.take_all();
    assert_eq!(all.len(), 1);
    assert!(m.entries.is_empty());
}

#[test]
fn staleness_by_process_and_age() {
    let created = Timestamp { secs: 1_000_000, nanos: 500 };
    let just_under = Timestamp { secs: 1_000_000 + 24 * 3600 - 1, nanos: 999_999_999 };
    let at_day = Timestamp { secs: 1_000_000 + 24 * 3600, nanos: 500 };
    assert_eq!(elapsed_hours(created, just_under), 23);
    assert_eq!(elapsed_hours(created, at_day), 24);
    assert_eq!(elapsed_hours(at_day, created), -24);
    assert!(!is_stale(true, created, just_under));
    assert!(is_stale(true, created, at_day));
    assert!(is_stale(false, created, created));

    let mut m = Manifest::new();
    m.record(entry("fresh", "/a/.env", 1_000_000));
    m.record(entry("dead", "/b/.env", 1_000_000));
    m.record(entry("old", "/c/.env", 1_000_000 - 25 * 3600));
    let now = Timestamp { secs: 1_000_100, nanos: 0 };
    let gone = m.retain_fresh(&vec![true, false, true], now);
    assert_eq!(gone.len(), 2);
    assert_eq!(gone[0].id, "dead");
    assert_eq!(gone[1].id, "old");
    assert_eq!(m.entries.len(), 1);
    assert_eq!(m.entries[0].id, "fresh");
}
