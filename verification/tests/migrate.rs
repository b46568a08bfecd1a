use secrets_manager::migrate::{collect_migrations, parse_migration_version, Migration};
use secrets_manager::store::RecordStore;
use secrets_manager::vault::migration_files;

#[test]
fn filename_parsing() {
    assert_eq!(parse_migration_version("001_initial_schema.sql"), Some(1));
    assert_eq!(parse_migration_version("042_add_things.sql"), Some(42));
    // With no underscore, the whole name is the version field; "7.sql"
    // holds non-digits there.
    assert_eq!(parse_migration_version("7.sql"), None);
    assert_eq!(parse_migration_version("10_x.txt"), None);
    assert_eq!(parse_migration_version("_x.sql"), None);
    assert_eq!(parse_migration_version("ab_x.sql"), None);
    assert_eq!(parse_migration_version("99999999999_x.sql"), None);
    assert_eq!(parse_migration_version(""), None);
}

#[test]
fn name_without_underscore_parses_whole_stem() {
    // With no underscore the whole name is the version field, and the
    // suffix's characters are not digits.
    assert_eq!(parse_migration_version("123.sql"), None);
}

#[test]
fn discovery_filters_and_sorts() {
    let files = vec![
        ("010_later.sql".to_string(), "ten".to_string()),
        ("notes.txt".to_string(), "skip".to_string()),
        ("002_second.sql".to_string(), "two".to_string()),
        ("001_first.sql".to_string(), "one".to_string()),
    ];
    let ms = collect_migrations(&files);
    let versions: Vec<u32> = ms.iter().map(|m| m.version).collect();
    assert_eq!(versions, vec![1, 2, 10]);
    assert_eq!(ms[0].script, "one");
    assert_eq!(ms[2].script, "ten");
}

#[test]
fn migrations_apply_monotonically() {
    let mut st = RecordStore::new();
    let ms = vec![
        Migration { version: 1, script: "one".to_string() },
        Migration { version: 2, script: "two".to_string() },
        Migration { version: 2, script: "two again".to_string() },
        Migration { version: 1, script: "stale".to_string() },
    ];
    let applied = st.run_migrations(&ms);
    assert_eq!(applied, 2);
    assert_eq!(st.version, 2);
}

#[test]
fn migrations_are_idempotent() {
    let mut st = RecordStore::new();
    let ms = collect_migrations(&migration_files());
    let first = st.run_migrations(&ms);
    assert_eq!(first, 3);
    assert_eq!(st.version, 3);

    // Running the same batch again applies nothing and leaves the stored
    // version unchanged.
    let second = st.run_migrations(&ms);
    assert_eq!(second, 0);
    assert_eq!(st.version, 3);
}

#[test]
fn builtin_migrations_discovered_in_order() {
    let ms = collect_migrations(&migration_files());
    let versions: Vec<u32> = ms.iter().map(|m| m.version).collect();
    assert_eq!(versions, vec![1, 2, 3]);
}
