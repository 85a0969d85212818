use worksnap::text::str_less;
use worksnap::storage::{
    last_full_archive_stem, last_snar_starting_with, last_snar_timestamp, Storage, StorageError,
};

fn names(list: &[&str]) -> Vec<String> {
    list.iter().map(ToString::to_string).collect()
}

#[test]
fn last_base_is_the_newest_snar_of_any_kind() {
    let names = names(&[
        "2026-01-01-1800.snar",
        "2026-01-02-0900.based-on-2026-01-01-1800.snar",
        "2026-01-02-0900.based-on-2026-01-01-1800.tar.gz",
        "junk.snar",
    ]);
    assert_eq!(last_snar_timestamp(&names), Some("2026-01-02-0900"));
}

#[test]
fn last_full_ignores_incremental_archives_and_junk() {
    let names = names(&[
        "2026-01-01-1800.tar.gz",
        "2026-01-02-0900.based-on-2026-01-01-1800.tar.gz",
        "zzz-not-a-timestamp.tar.gz",
    ]);
    assert_eq!(last_full_archive_stem(&names), Some("2026-01-01-1800"));
}

#[test]
fn snar_lookup_prefers_the_bare_snar_over_based_on_copies() {
    let names = names(&[
        "2026-01-01-1800.based-on-2025-12-31-0200.snar",
        "2026-01-01-1800.snar",
    ]);
    assert_eq!(
        last_snar_starting_with(&names, "2026-01-01-1800"),
        Some("2026-01-01-1800.snar")
    );
}

#[test]
fn paths_join_the_storage_dir_and_the_stem() {
    let storage = Storage::new("/backups/work".to_string());
    assert_eq!(storage.snar_path("2026-01-01-1800"), "/backups/work/2026-01-01-1800.snar");
    assert_eq!(
        storage.archive_path("2026-01-01-1800"),
        "/backups/work/2026-01-01-1800.tar.gz"
    );
    let slashed = Storage::new("/backups/".to_string());
    assert_eq!(slashed.snar_path("x"), "/backups/x.snar");
    let relative = Storage::new(String::new());
    assert_eq!(relative.archive_path("x"), "x.tar.gz");
    assert_eq!(
        Storage::incremental_stem("2026-01-02-0900", "2026-01-01-1800"),
        "2026-01-02-0900.based-on-2026-01-01-1800"
    );
}

#[test]
fn lookups_report_what_is_missing() {
    let storage = Storage::new("/s".to_string());
    let empty: Vec<String> = Vec::new();
    assert!(matches!(storage.find_last_base(&empty), Err(StorageError::NoSnarFiles)));
    assert!(matches!(storage.find_last_full_base(&empty), Err(StorageError::NoFullArchives)));
    match storage.find_snar_by_timestamp(&empty, "2026-01-01-1800") {
        Err(StorageError::SnarNotFound { timestamp }) => assert_eq!(timestamp, "2026-01-01-1800"),
        _ => panic!("expected SnarNotFound"),
    }
}

#[test]
fn lookup_errors_read_as_messages_about_the_storage_dir() {
    assert_eq!(
        StorageError::NoSnarFiles.message("/s"),
        "no snar files found in /s \u{2014} create a full archive first"
    );
    assert_eq!(StorageError::NoFullArchives.message("/s"), "no full archives found in /s");
    let missing = StorageError::MissingFullSnar {
        archive: "/s/T.tar.gz".to_string(),
        snar: "/s/T.snar".to_string(),
    };
    assert_eq!(
        missing.message("/s"),
        "full archive /s/T.tar.gz doesn't have the appropriate snar file /s/T.snar"
    );
    let not_found = StorageError::SnarNotFound { timestamp: "2026-01-01-1800".to_string() };
    assert_eq!(
        not_found.message("/s"),
        "snar file has not been found in /s: timestamp=\"2026-01-01-1800\""
    );
    let quoted = StorageError::SnarNotFound { timestamp: "a\"b\\".to_string() };
    assert_eq!(
        quoted.message("/s"),
        "snar file has not been found in /s: timestamp=\"a\\\"b\\\\\""
    );
}

#[test]
fn lookups_find_the_newest_snapshots() {
    let storage = Storage::new("/s".to_string());
    let names = names(&[
        "2026-01-01-1800.snar",
        "2026-01-01-1800.tar.gz",
        "2026-01-03-0900.based-on-2026-01-01-1800.snar",
        "2026-01-03-0900.based-on-2026-01-01-1800.tar.gz",
        "2025-12-31-2359.tar.gz",
    ]);
    assert_eq!(storage.find_last_base(&names).ok(), Some("2026-01-03-0900".to_string()));
    let full = storage.find_last_full_base(&names).ok().unwrap();
    assert_eq!(full.stem, "2026-01-01-1800");
    assert_eq!(full.snar, "/s/2026-01-01-1800.snar");
    assert_eq!(full.archive, "/s/2026-01-01-1800.tar.gz");
    assert_eq!(full.confirm(true).ok(), Some("2026-01-01-1800".to_string()));
    let full = storage.find_last_full_base(&names).ok().unwrap();
    match full.confirm(false) {
        Err(StorageError::MissingFullSnar { archive, snar }) => {
            assert_eq!(archive, "/s/2026-01-01-1800.tar.gz");
            assert_eq!(snar, "/s/2026-01-01-1800.snar");
        }
        _ => panic!("expected MissingFullSnar"),
    }
    assert_eq!(
        storage.find_snar_by_timestamp(&names, "2026-01-03-0900").ok(),
        Some("/s/2026-01-03-0900.based-on-2026-01-01-1800.snar".to_string())
    );
}

#[test]
fn a_new_snapshot_becomes_the_next_base() {
    let storage = Storage::new("/s".to_string());
    let mut names = names(&[
        "2026-01-01-1800.snar",
        "2026-01-01-1800.tar.gz",
        "2026-01-02-0900.based-on-2026-01-01-1800.snar",
    ]);
    let stem = Storage::incremental_stem("2026-01-03-0700", "2026-01-02-0900");
    names.push(format!("{stem}.snar"));
    let last = storage.find_last_base(&names).ok().unwrap();
    assert_eq!(last, "2026-01-03-0700");
    assert_eq!(
        storage.find_snar_by_timestamp(&names, &last).ok(),
        Some(format!("/s/{stem}.snar"))
    );
}

#[test]
fn the_greatest_name_is_the_newest_in_time() {
    assert!(str_less("2025-12-31-2359", "2026-01-01-0000"));
    assert!(str_less("2026-01-09-2359", "2026-01-10-0000"));
    assert!(str_less("2026-09-30-1200", "2026-10-01-0000"));
    assert!(!str_less("2026-01-01-1800", "2026-01-01-1800"));
    assert!(str_less("2026-01-01-1800.based-on-2025-12-31-0200.snar", "2026-01-01-1800.snar"));
}
