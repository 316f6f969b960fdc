use monodex::init_db::{
    check_existing_database, err_not_monodex_db, err_parent_missing, err_partial_state,
    log_already_initialized, table_directories, validate_parent_directory, DirectoryFacts,
};
use monodex::schema::MONODEX_SCHEMA_VERSION;
use monodex::storage::database::{check_open, MetaFile, MetaRead, META_FILE};

#[test]
fn test_meta_file_new() {
    let meta = MetaFile::new();
    assert_eq!(meta.monodex_schema_version, MONODEX_SCHEMA_VERSION);
    assert!(!meta.created_at.is_empty());
    assert!(!meta.created_by_binary_version.is_empty());
    assert!(!meta.lance_format_version.is_empty());
    assert!(meta.created_at.contains('T'));
    assert_eq!(META_FILE, "monodex-meta.json");
}

#[test]
fn test_open_missing_database() {
    let err = check_open("/tmp/nonexistent", &None, &MetaRead::Missing).unwrap_err().to_string();
    assert!(err.contains("No monodex database"));
    assert!(err.contains("init-db"));
    assert!(err.contains("'/tmp/nonexistent'"));
}

#[test]
fn test_open_missing_meta_file() {
    let found = Some("/tmp/empty-db".to_string());
    let err = check_open("empty-db", &found, &MetaRead::Missing).unwrap_err().to_string();
    assert!(err.contains("No monodex database"));
    assert!(err.contains("'/tmp/empty-db'"));
}

#[test]
fn test_open_schema_mismatch() {
    let mut meta = MetaFile::new();
    meta.monodex_schema_version = 99;
    let found = Some("/tmp/old-db".to_string());
    let err = check_open("old-db", &found, &MetaRead::Read(meta)).unwrap_err().to_string();
    assert!(err.contains("Schema mismatch"));
    assert!(err.contains("version 99"));
}

#[test]
fn an_unreadable_description_is_reported_as_it_is() {
    let found = Some("/db".to_string());
    let meta = MetaRead::Unreadable("Failed to parse".to_string());
    assert_eq!(check_open("/db", &found, &meta).unwrap_err().to_string(), "Failed to parse");
    assert!(check_open("/db", &found, &MetaRead::Read(MetaFile::new())).is_ok());
}

fn facts(meta: MetaRead, has_chunks: bool, has_labels: bool, entries: &[&str]) -> DirectoryFacts {
    DirectoryFacts {
        exists: true,
        meta,
        has_chunks,
        has_labels,
        entries: Some(entries.iter().map(|s| s.to_string()).collect()),
    }
}

const HOME: &str = "/tmp/home";
const DB: &str = "/tmp/home/default-db";

#[test]
fn test_happy_path_creates_database() {
    // The home of the tool need not exist for the default database
    assert!(validate_parent_directory(DB, HOME, false).is_ok());
    let nothing = DirectoryFacts {
        exists: false,
        meta: MetaRead::Missing,
        has_chunks: false,
        has_labels: false,
        entries: None,
    };
    assert!(check_existing_database(DB, &nothing).unwrap().is_none());
    let locked = facts(MetaRead::Missing, false, false, &[".monodex.lock"]);
    assert!(check_existing_database(DB, &locked).unwrap().is_none());
}

#[test]
fn test_idempotent_second_run_succeeds() {
    let made = facts(MetaRead::Read(MetaFile::new()), true, true, &[".monodex.lock", "chunks.lance"]);
    let meta = check_existing_database(DB, &made).unwrap().unwrap();
    assert_eq!(
        log_already_initialized(DB, meta.monodex_schema_version),
        "Database at /tmp/home/default-db is already initialized (monodex_schema_version 1); skipping."
    );
}

#[test]
fn test_parent_missing_non_default_db() {
    let db_path = "/nonexistent-xyz-12345/db";
    let err = validate_parent_directory(db_path, HOME, false).unwrap_err();
    assert_eq!(err.to_string(), err_parent_missing(db_path));
    assert!(validate_parent_directory(db_path, HOME, true).is_ok());
}

#[test]
fn test_path_exists_but_not_monodex_database() {
    let stray = facts(MetaRead::Missing, false, false, &["stray-file.txt"]);
    let err = check_existing_database("/tmp/my-db", &stray).unwrap_err();
    assert_eq!(err.to_string(), err_not_monodex_db("/tmp/my-db"));
}

#[test]
fn test_corrupt_meta_file() {
    let corrupt = facts(MetaRead::Unreadable("bad json".to_string()), true, true, &[]);
    let err = check_existing_database(DB, &corrupt).unwrap_err();
    assert_eq!(err.to_string(), err_partial_state(DB));
}

#[test]
fn test_schema_version_mismatch() {
    let mut meta = MetaFile::new();
    meta.monodex_schema_version = 99;
    let err = check_existing_database(DB, &facts(MetaRead::Read(meta), true, true, &[])).unwrap_err();
    assert!(err.to_string().contains("Schema mismatch"));
    assert!(err.to_string().contains("version 99"));
}

#[test]
fn test_meta_exists_tables_missing() {
    let meta = MetaRead::Read(MetaFile::new());
    let err = check_existing_database(DB, &facts(meta, false, false, &[])).unwrap_err();
    assert_eq!(err.to_string(), err_partial_state(DB));
}

#[test]
fn test_tables_exist_meta_missing() {
    let err = check_existing_database(DB, &facts(MetaRead::Missing, true, true, &[])).unwrap_err();
    assert_eq!(err.to_string(), err_partial_state(DB));
}

#[test]
fn the_default_database_is_known_by_its_components() {
    assert!(validate_parent_directory("/tmp//home/./default-db/", HOME, false).is_ok());
    assert!(validate_parent_directory("/tmp/home/other", HOME, false).is_err());
    assert!(validate_parent_directory("/", HOME, false).is_ok());
    assert_eq!(
        table_directories(),
        ("chunks.lance".to_string(), "label_metadata.lance".to_string())
    );
}
