use enum_toggles::EnumToggles;

fn two_toggles() -> EnumToggles {
    EnumToggles::new(vec!["Toggle1".to_string(), "Toggle2".to_string()])
}

#[test]
fn test_default() {
    let toggles = two_toggles();
    assert_eq!(toggles.len(), 2);
}

#[test]
fn test_set_all() {
    let mut toggles = two_toggles();
    toggles.set_all(&vec![("Toggle1".to_string(), true)]);
    assert_eq!(toggles.get(0), true);
    assert_eq!(toggles.get(1), false);
}

#[test]
fn test_set_by_name() {
    let mut toggles = two_toggles();
    assert_eq!(toggles.get(0), false);
    toggles.set_by_name("Toggle1", true);
    assert_eq!(toggles.get(0), true);

    toggles.set_by_name("Undefined_Toggle", true);
}

#[test]
fn test_display() {
    let toggles = two_toggles();
    assert_eq!(toggles.render().is_empty(), false);
}

#[test]
fn test_load_from_file() {
    let content = "Toggle1: 1\nToggle2: 0\nVAR1: 0\n\n";

    let mut toggles = two_toggles();
    toggles.load_from_str(content);

    assert_eq!(toggles.get(0), true);
    assert_eq!(toggles.get(1), false);
}

#[test]
fn test_new_all_false() {
    let toggles = EnumToggles::new(vec![
        "A".to_string(),
        "B".to_string(),
        "C".to_string(),
    ]);
    assert_eq!(toggles.len(), 3);
    assert_eq!(toggles.get(0), false);
    assert_eq!(toggles.get(1), false);
    assert_eq!(toggles.get(2), false);
}

#[test]
fn test_empty_container() {
    let toggles = EnumToggles::new(Vec::new());
    assert_eq!(toggles.len(), 0);
    assert_eq!(toggles.render(), "");
}

#[test]
fn test_set_leaves_others_alone() {
    let mut toggles = EnumToggles::new(vec![
        "A".to_string(),
        "B".to_string(),
        "C".to_string(),
    ]);
    toggles.set(1, true);
    assert_eq!(toggles.get(0), false);
    assert_eq!(toggles.get(1), true);
    assert_eq!(toggles.get(2), false);
    toggles.set(1, false);
    assert_eq!(toggles.get(1), false);
}

#[test]
fn test_set_by_name_unknown_is_noop() {
    let mut toggles = two_toggles();
    toggles.set(0, true);
    toggles.set_by_name("Toggle3", true);
    assert_eq!(toggles.get(0), true);
    assert_eq!(toggles.get(1), false);
}

#[test]
fn test_set_by_name_positional() {
    let mut toggles = two_toggles();
    toggles.set_by_name("Toggle2", true);
    assert_eq!(toggles.get(0), false);
    assert_eq!(toggles.get(1), true);
}

#[test]
fn test_set_all_clears_prior_state() {
    let mut toggles = two_toggles();
    toggles.set(0, true);
    toggles.set(1, true);
    toggles.set_all(&vec![("Toggle2".to_string(), true)]);
    assert_eq!(toggles.get(0), false);
    assert_eq!(toggles.get(1), true);
}

#[test]
fn test_set_all_idempotent() {
    let mapping = vec![("Toggle1".to_string(), true), ("Toggle2".to_string(), false)];
    let mut once = two_toggles();
    once.set_all(&mapping);
    let mut twice = two_toggles();
    twice.set_all(&mapping);
    twice.set_all(&mapping);
    assert_eq!(once.get(0), twice.get(0));
    assert_eq!(once.get(1), twice.get(1));
    assert_eq!(once.render(), twice.render());
}

#[test]
fn test_bulk_load_tolerance() {
    let batch = "1 Toggle1\n0 Toggle2\n0 VAR1\nTESTTEST\n\n";
    let mut toggles = two_toggles();
    let skipped = toggles.load_from_lines(batch);
    assert_eq!(skipped, 1);
    assert_eq!(toggles.get(0), true);
    assert_eq!(toggles.get(1), false);
}

#[test]
fn test_load_from_lines_nonzero_flag() {
    let mut toggles = two_toggles();
    toggles.load_from_lines("0070 Toggle2");
    assert_eq!(toggles.get(0), false);
    assert_eq!(toggles.get(1), true);
}

#[test]
fn test_load_from_lines_extra_whitespace() {
    let mut toggles = two_toggles();
    toggles.load_from_lines("  1 \t Toggle1 \r\n0 Toggle2\n");
    assert_eq!(toggles.get(0), true);
    assert_eq!(toggles.get(1), false);
}

#[test]
fn test_load_from_lines_bad_flag_skipped() {
    let mut toggles = two_toggles();
    let skipped = toggles.load_from_lines("x1 Toggle1\n1 2 3\n1 Toggle2\n");
    assert_eq!(skipped, 2);
    assert_eq!(toggles.get(0), false);
    assert_eq!(toggles.get(1), true);
}

#[test]
fn test_render_lines() {
    let mut toggles = two_toggles();
    toggles.set(0, true);
    assert_eq!(toggles.render(), "1 Toggle1 \n0 Toggle2 \n");
}

#[test]
fn test_render_round_trip() {
    let mut toggles = two_toggles();
    toggles.set(0, true);
    toggles.set(1, true);
    toggles.set(0, false);
    assert_eq!(toggles.render(), "0 Toggle1 \n1 Toggle2 \n");
}

#[test]
fn test_load_from_str_reports_mapping() {
    let mut toggles = two_toggles();
    assert_eq!(toggles.load_from_str("Toggle1: 1"), Some(0));
    assert_eq!(toggles.get(0), true);
}

#[test]
fn test_load_from_str_not_a_mapping() {
    let mut toggles = two_toggles();
    toggles.set(0, true);
    assert_eq!(toggles.load_from_str("just a scalar"), None);
    assert_eq!(toggles.get(0), true);
    assert_eq!(toggles.get(1), false);
}

#[test]
fn test_load_from_str_nonzero_flag_is_true() {
    let mut toggles = two_toggles();
    assert_eq!(toggles.load_from_str("Toggle1: 2\nToggle2: 0"), Some(0));
    assert_eq!(toggles.get(0), true);
    assert_eq!(toggles.get(1), false);
}

#[test]
fn test_load_from_str_non_integer_flag_skipped() {
    let mut toggles = two_toggles();
    toggles.set(0, true);
    assert_eq!(toggles.load_from_str("Toggle1: yes"), Some(1));
    assert_eq!(toggles.get(0), true);
}

#[test]
fn test_load_from_collection_nonzero() {
    let mut toggles = two_toggles();
    toggles.load_from_collection(&vec![
        ("Toggle1".to_string(), 2i64),
        ("Toggle2".to_string(), 0i64),
    ]);
    assert_eq!(toggles.get(0), true);
    assert_eq!(toggles.get(1), false);
}

#[test]
fn test_load_from_raw_records_skips_unreadable() {
    let mut toggles = two_toggles();
    let skipped = toggles.load_from_raw_records(&vec![
        (Some("Toggle1".to_string()), Some(5i64)),
        (Some("Toggle2".to_string()), None),
        (None, Some(1i64)),
    ]);
    assert_eq!(skipped, 2);
    assert_eq!(toggles.get(0), true);
    assert_eq!(toggles.get(1), false);
}

#[test]
fn test_try_set_out_of_range_mutates_nothing() {
    let mut toggles = two_toggles();
    assert_eq!(toggles.try_set(1, true), true);
    assert_eq!(toggles.try_set(5, true), false);
    assert_eq!(toggles.get(0), false);
    assert_eq!(toggles.get(1), true);
}

#[test]
fn test_try_get_out_of_range() {
    let toggles = two_toggles();
    assert_eq!(toggles.try_get(1), Some(false));
    assert_eq!(toggles.try_get(2), None);
}
