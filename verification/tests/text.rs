use enum_toggles::text::{parse_flag, parse_line, split_records, tokenize};

#[test]
fn test_split_records_basic() {
    assert_eq!(split_records("a\nb"), vec!["a".to_string(), "b".to_string()]);
    assert_eq!(split_records("a\nb\n"), vec!["a".to_string(), "b".to_string()]);
    assert_eq!(split_records("\n"), vec!["".to_string()]);
    assert_eq!(split_records(""), Vec::<String>::new());
}

#[test]
fn test_tokenize_basic() {
    assert_eq!(tokenize("1 Toggle1"), vec!["1".to_string(), "Toggle1".to_string()]);
    assert_eq!(tokenize("  1 \t Toggle1 \r"), vec!["1".to_string(), "Toggle1".to_string()]);
    assert_eq!(tokenize(""), Vec::<String>::new());
    assert_eq!(tokenize("   "), Vec::<String>::new());
}

#[test]
fn test_parse_flag_values() {
    assert_eq!(parse_flag("0"), Some(false));
    assert_eq!(parse_flag("1"), Some(true));
    assert_eq!(parse_flag("000"), Some(false));
    assert_eq!(parse_flag("0070"), Some(true));
    assert_eq!(parse_flag(""), None);
    assert_eq!(parse_flag("x1"), None);
    assert_eq!(parse_flag("1x"), None);
}

#[test]
fn test_parse_line_records() {
    assert_eq!(parse_line("1 Toggle1"), Some(("Toggle1".to_string(), true)));
    assert_eq!(parse_line("0 Toggle2"), Some(("Toggle2".to_string(), false)));
    assert_eq!(parse_line("TESTTEST"), None);
    assert_eq!(parse_line(""), None);
    assert_eq!(parse_line("1 a b"), None);
}
