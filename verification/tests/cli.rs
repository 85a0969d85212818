use worksnap::cli::{parse_base, parse_dir, BaseSpec, BASE_ERROR, EMPTY_DIR_ERROR};

#[test]
fn parse_dir_rejects_blank_values() {
    assert_eq!(parse_dir("/work"), Ok("/work".to_string()));
    assert_eq!(parse_dir(" /work "), Ok(" /work ".to_string()));
    assert_eq!(parse_dir(""), Err(EMPTY_DIR_ERROR.to_string()));
    assert_eq!(parse_dir(" \t\u{a0}"), Err(EMPTY_DIR_ERROR.to_string()));
}

#[test]
fn parse_base_accepts_keywords_and_timestamps() {
    assert!(matches!(parse_base("last"), Ok(BaseSpec::Last)));
    assert!(matches!(parse_base("last-full"), Ok(BaseSpec::LastFull)));
    assert!(matches!(parse_base("full"), Ok(BaseSpec::LastFull)));
    match parse_base("2026-08-03-1400") {
        Ok(BaseSpec::Timestamp(t)) => assert_eq!(t, "2026-08-03-1400"),
        _ => panic!("expected a timestamp"),
    }
    assert!(matches!(parse_base("latest"), Err(e) if e == BASE_ERROR));
}
