use worksnap::snapshot::{
    create_full, create_incremental, human_size, plan_incremental, tar_command, tar_run, RunError,
    TarVerbosity,
};
use worksnap::storage::{Storage, StorageError};
use worksnap::timestamp::is_valid;

#[test]
fn human_size_picks_a_readable_unit() {
    assert_eq!(human_size(0), "0 B");
    assert_eq!(human_size(1023), "1023 B");
    assert_eq!(human_size(1536), "1.5 KiB");
    assert_eq!(human_size(3 * 1024 * 1024 * 1024 / 2), "1.5 GiB");
}

/// The report computed with floating point, the way a float formatter
/// rounds it.
fn float_report(bytes: u64) -> String {
    const UNITS: &[&str] = &["B", "KiB", "MiB", "GiB", "TiB"];
    let mut size = bytes as f64;
    let mut unit = 0;
    while size >= 1024.0 && unit + 1 < UNITS.len() {
        size /= 1024.0;
        unit += 1;
    }
    if unit == 0 {
        format!("{bytes} {}", UNITS[0])
    } else {
        format!("{size:.1} {}", UNITS[unit])
    }
}

#[test]
fn human_size_rounds_ties_to_even_and_reaches_tebibytes() {
    assert_eq!(human_size(1024), "1.0 KiB");
    assert_eq!(human_size(1280), "1.2 KiB");
    assert_eq!(human_size(1331), "1.3 KiB");
    assert_eq!(human_size(1024 * 1024 - 1), "1024.0 KiB");
    assert_eq!(human_size(5 << 40), "5.0 TiB");
    assert_eq!(human_size(u64::MAX), "16777216.0 TiB");
    let samples = [
        0u64,
        1,
        1023,
        1024,
        1280,
        1331,
        1792,
        2304,
        1024 * 1024 - 1,
        1 << 40,
        (1 << 53) + 1,
        (1 << 62) + (1 << 38) + 1023,
        (1 << 62) + (1 << 38) + 1024,
        (1 << 63) + (3 << 38) - 1024,
        u64::MAX,
    ];
    for bytes in samples {
        assert_eq!(human_size(bytes), float_report(bytes), "bytes = {bytes}");
    }
    let mut x: u64 = 0x9e37_79b9_7f4a_7c15;
    for _ in 0..20000 {
        x ^= x << 13;
        x ^= x >> 7;
        x ^= x << 17;
        let bytes = x >> (x % 64);
        assert_eq!(human_size(bytes), float_report(bytes), "bytes = {bytes}");
    }
}

#[test]
fn runs_name_their_archive_and_listing_after_the_stem() {
    let storage = Storage::new("/s".to_string());
    let run = tar_run(&storage, "2026-01-01-1800".to_string(), TarVerbosity::Quiet, false);
    assert_eq!(run.snar, "/s/2026-01-01-1800.snar");
    assert_eq!(run.archive, "/s/2026-01-01-1800.tar.gz");
    assert!(!run.fresh_listing);
    let full = create_full(&storage).ok().unwrap();
    assert!(is_valid(&full.stem));
    assert!(full.verbosity == TarVerbosity::Verbose);
    assert!(full.fresh_listing);
    assert_eq!(full.snar, format!("/s/{}.snar", full.stem));
    assert_eq!(full.archive, format!("/s/{}.tar.gz", full.stem));
}

#[test]
fn incremental_runs_copy_the_base_listing() {
    let storage = Storage::new("/s".to_string());
    let names = vec![
        "2026-01-01-1800.snar".to_string(),
        "2026-01-01-1800.based-on-2025-12-31-0200.snar".to_string(),
    ];
    let inc = plan_incremental(&storage, &names, "2026-01-01-1800", "2026-01-02-0900")
        .ok()
        .unwrap();
    assert_eq!(inc.base_snar, "/s/2026-01-01-1800.snar");
    assert_eq!(inc.run.stem, "2026-01-02-0900.based-on-2026-01-01-1800");
    assert_eq!(inc.run.snar, "/s/2026-01-02-0900.based-on-2026-01-01-1800.snar");
    assert!(inc.run.verbosity == TarVerbosity::Quiet);
    assert!(!inc.run.fresh_listing);
    assert!(matches!(
        plan_incremental(&storage, &names, "2026-01-05-0000", "2026-01-06-0000"),
        Err(StorageError::SnarNotFound { .. })
    ));
    assert!(matches!(
        create_incremental(&storage, &names, "2026-01-05-0000"),
        Err(RunError::Storage(StorageError::SnarNotFound { .. }))
    ));
    let inc = create_incremental(&storage, &names, "2026-01-01-1800").ok().unwrap();
    assert!(inc.run.stem.ends_with(".based-on-2026-01-01-1800"));
}

#[test]
fn tar_command_lists_flags_excludes_and_the_source() {
    let storage = Storage::new("/s".to_string());
    let run = tar_run(&storage, "T".to_string(), TarVerbosity::Verbose, true);
    let args = tar_command("/src", &run, vec![b"--exclude".to_vec(), b"x".to_vec()]);
    let expected: Vec<Vec<u8>> = [
        "-C",
        "/src",
        "--listed-incremental=/s/T.snar",
        "-czvpf",
        "/s/T.tar.gz",
        "--one-file-system",
        "--sparse",
        "--exclude",
        "x",
        ".",
    ]
    .iter()
    .map(|a| a.as_bytes().to_vec())
    .collect();
    assert_eq!(args, expected);
}
