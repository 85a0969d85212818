use worksnap::timestamp::{is_valid, leading, now};

#[test]
fn accepts_canonical_timestamp() {
    assert!(is_valid("2026-08-12-1530"));
}

#[test]
fn rejects_malformed_timestamps() {
    for bad in [
        "",
        "2026-08-12",
        "2026-08-12-15300",
        "2026_08_12_1530",
        "yyyy-mm-dd-hhmm",
    ] {
        assert!(!is_valid(bad), "accepted {bad:?}");
    }
}

#[test]
fn extracts_leading_timestamp_from_incremental_snar_name() {
    assert_eq!(
        leading("2026-01-01-1800.2025-12-31-0200.snar"),
        Some("2026-01-01-1800")
    );
    assert_eq!(leading("notes.txt"), None);
}

#[test]
fn now_produces_a_valid_timestamp() {
    assert!(is_valid(&now().unwrap()));
}

#[test]
fn rejects_non_ascii_digits_and_short_prefixes() {
    // Full-width digits are digits to Unicode, not to the timestamp shape.
    assert!(!is_valid("２026-08-12-1530"));
    assert!(!is_valid("2026-08-12-153"));
    assert_eq!(leading("2026-01-01-180"), None);
    assert_eq!(leading("2026-01-01-1800"), Some("2026-01-01-1800"));
    assert_eq!(leading("é026-01-01-1800.snar"), None);
}
