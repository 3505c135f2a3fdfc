use small_worklog::legacy::parse_legacy_tasks;

#[test]
fn full_record_parses() {
    let text = r#"[{"id":"abc","description":"write report","completed":false,"created_at":1000000000,"created_at_date":"2001-09-09","completed_at":0}]"#;
    let v = parse_legacy_tasks(text).unwrap();
    assert_eq!(v.len(), 1);
    assert_eq!(v[0].id.as_deref(), Some("abc"));
    assert_eq!(v[0].description, "write report");
    assert!(!v[0].completed);
    assert_eq!(v[0].created_at, 1000000000);
    assert_eq!(v[0].completed_at, Some(0));
}

#[test]
fn oldest_format_without_id_and_completed_at() {
    let text = r#"[{"description":"a","completed":true,"created_at":5}]"#;
    let v = parse_legacy_tasks(text).unwrap();
    assert_eq!(v.len(), 1);
    assert!(v[0].id.is_none());
    assert!(v[0].completed);
    assert!(v[0].completed_at.is_none());
}

#[test]
fn two_records_and_field_order_is_free() {
    let text = r#"[
        {"completed":false,"description":"first","created_at":1},
        {"created_at":2,"description":"second","completed":true}
    ]"#;
    let v = parse_legacy_tasks(text).unwrap();
    assert_eq!(v.len(), 2);
    assert_eq!(v[0].description, "first");
    assert_eq!(v[1].description, "second");
    assert!(v[1].completed);
}

#[test]
fn blank_text_is_zero_records() {
    assert_eq!(parse_legacy_tasks("").unwrap().len(), 0);
    assert_eq!(parse_legacy_tasks("  \n\t ").unwrap().len(), 0);
    assert_eq!(parse_legacy_tasks("[]").unwrap().len(), 0);
    assert_eq!(parse_legacy_tasks("  [ ]  ").unwrap().len(), 0);
}

#[test]
fn escapes_in_description() {
    let text = r#"[{"description":"a\nb\"c\\d\/eA\u0007","completed":false,"created_at":1}]"#;
    let v = parse_legacy_tasks(text).unwrap();
    assert_eq!(v[0].description, "a\nb\"c\\d/eA\u{0007}");
}

#[test]
fn unicode_description_passes_through() {
    let text = "[{\"description\":\"caf\u{00e9} \u{4e16}\u{754c}\",\"completed\":false,\"created_at\":1}]";
    let v = parse_legacy_tasks(text).unwrap();
    assert_eq!(v[0].description, "caf\u{00e9} \u{4e16}\u{754c}");
}

#[test]
fn stored_date_is_read_but_not_kept() {
    let text = r#"[{"description":"a","completed":false,"created_at":1000000000,"created_at_date":"1999-01-01"}]"#;
    let v = parse_legacy_tasks(text).unwrap();
    assert_eq!(v[0].created_at, 1000000000);
}

#[test]
fn truncated_text_is_corrupt() {
    assert!(parse_legacy_tasks("[").is_err());
    assert!(parse_legacy_tasks(r#"[{"description":"a""#).is_err());
    assert!(parse_legacy_tasks(r#"[{"description":"a","completed":false,"created_at":1}"#).is_err());
}

#[test]
fn non_array_text_is_corrupt() {
    assert!(parse_legacy_tasks("{}").is_err());
    assert!(parse_legacy_tasks("42").is_err());
    assert!(parse_legacy_tasks("null").is_err());
}

#[test]
fn missing_required_field_is_corrupt() {
    assert!(parse_legacy_tasks("[{}]").is_err());
    assert!(parse_legacy_tasks(r#"[{"description":"a","completed":false}]"#).is_err());
    assert!(parse_legacy_tasks(r#"[{"description":"a","created_at":1}]"#).is_err());
    assert!(parse_legacy_tasks(r#"[{"completed":false,"created_at":1}]"#).is_err());
}

#[test]
fn unknown_or_duplicate_key_is_corrupt() {
    assert!(parse_legacy_tasks(r#"[{"description":"a","completed":false,"created_at":1,"extra":1}]"#).is_err());
    assert!(
        parse_legacy_tasks(r#"[{"description":"a","description":"b","completed":false,"created_at":1}]"#).is_err()
    );
}

#[test]
fn wrong_value_shape_is_corrupt() {
    assert!(parse_legacy_tasks(r#"[{"description":"a","completed":false,"created_at":"1"}]"#).is_err());
    assert!(parse_legacy_tasks(r#"[{"description":1,"completed":false,"created_at":1}]"#).is_err());
    assert!(parse_legacy_tasks(r#"[{"description":"a","completed":0,"created_at":1}]"#).is_err());
    assert!(parse_legacy_tasks(r#"[{"description":"a","completed":false,"created_at":-1}]"#).is_err());
}

#[test]
fn number_overflow_is_corrupt() {
    let text = r#"[{"description":"a","completed":false,"created_at":99999999999999999999}]"#;
    assert!(parse_legacy_tasks(text).is_err());
}

#[test]
fn timestamp_beyond_year_9999_is_corrupt() {
    let text = r#"[{"description":"a","completed":false,"created_at":253402300800}]"#;
    assert!(parse_legacy_tasks(text).is_err());
    let ok = r#"[{"description":"a","completed":false,"created_at":253402300799}]"#;
    assert!(parse_legacy_tasks(ok).is_ok());
}

#[test]
fn bad_escape_is_corrupt() {
    assert!(parse_legacy_tasks(r#"[{"description":"a\qb","completed":false,"created_at":1}]"#).is_err());
    assert!(parse_legacy_tasks(r#"[{"description":"a\ud800b","completed":false,"created_at":1}]"#).is_err());
    assert!(parse_legacy_tasks(r#"[{"description":"a\u00","completed":false,"created_at":1}]"#).is_err());
}

#[test]
fn raw_control_character_is_corrupt() {
    let text = "[{\"description\":\"a\u{0001}b\",\"completed\":false,\"created_at\":1}]";
    assert!(parse_legacy_tasks(text).is_err());
}

#[test]
fn trailing_garbage_is_corrupt() {
    assert!(parse_legacy_tasks("[] x").is_err());
    assert!(parse_legacy_tasks(r#"[{"description":"a","completed":false,"created_at":1}] ,"#).is_err());
}

#[test]
fn leading_zeros_are_read_as_plain_digits() {
    let text = r#"[{"description":"a","completed":false,"created_at":007}]"#;
    let v = parse_legacy_tasks(text).unwrap();
    assert_eq!(v[0].created_at, 7);
}
