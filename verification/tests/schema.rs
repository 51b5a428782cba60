use musicum::schema::{parse_u32, reset_statements, stored_version, version_statement};

#[test]
fn parse_u32_accepts_plain_and_plus_signed_digits() {
    assert_eq!(parse_u32("0"), Some(0));
    assert_eq!(parse_u32("42"), Some(42));
    assert_eq!(parse_u32("+42"), Some(42));
    assert_eq!(parse_u32("007"), Some(7));
    assert_eq!(parse_u32("4294967295"), Some(u32::MAX));
}

#[test]
fn parse_u32_refuses_what_std_refuses() {
    for bad in ["", "+", "-1", "4294967296", "12a", " 1", "1 ", "99999999999999999999"] {
        assert_eq!(parse_u32(bad), None, "{bad:?}");
        assert_eq!(parse_u32(bad), bad.parse::<u32>().ok(), "{bad:?}");
    }
}

#[test]
fn parse_u32_agrees_with_std() {
    for good in ["1", "+0", "65536", "123456789"] {
        assert_eq!(parse_u32(good), good.parse::<u32>().ok());
    }
}

#[test]
fn stored_version_defaults_to_zero() {
    assert_eq!(stored_version(None), 0);
    assert_eq!(stored_version(Some("garbage")), 0);
    assert_eq!(stored_version(Some("3")), 3);
}

#[test]
fn schema_reset_only_on_version_change() {
    assert!(reset_statements(3, 3).is_empty());
    let stmts = reset_statements(2, 3);
    assert_eq!(
        stmts,
        vec![
            "DROP TABLE IF EXISTS \"collection_clip\"",
            "DROP TABLE IF EXISTS \"clip\"",
            "DROP TABLE IF EXISTS \"collection\"",
            "DROP TABLE IF EXISTS \"preset\"",
            "DROP TABLE IF EXISTS \"file_attachment\"",
            "DROP TABLE IF EXISTS \"file_metadata\"",
            "DROP TABLE IF EXISTS \"file\"",
        ]
    );
}

#[test]
fn version_statement_reads_back() {
    let s = version_statement(17);
    assert_eq!(s, "INSERT OR REPLACE INTO _musicum_meta VALUES ('schema_version', '17')");
    let stored = s.split('\'').nth(3).unwrap();
    assert_eq!(stored_version(Some(stored)), 17);
}
