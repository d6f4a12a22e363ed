use ris2bib::parse_record;

#[test]
fn parses_tags_and_values() {
    let fm = parse_record("TY  - JOUR\nTI  - A Title\nPY  - 2020");
    assert_eq!(fm.first_value("TY"), Some("JOUR".to_string()));
    assert_eq!(fm.first_value("TI"), Some("A Title".to_string()));
    assert_eq!(fm.first_value("PY"), Some("2020".to_string()));
    assert_eq!(fm.first_value("AU"), None);
}

#[test]
fn repeated_tags_keep_value_order() {
    let fm = parse_record("AU  - Doe, Jane\nAU  - Smith, John");
    let all = fm.all_values("AU");
    assert_eq!(all, vec!["Doe, Jane".to_string(), "Smith, John".to_string()]);
    assert_eq!(fm.first_value("AU"), Some("Doe, Jane".to_string()));
}

#[test]
fn lines_without_separator_are_skipped() {
    let fm = parse_record("garbage line\nTI  - Kept\nanother stray");
    assert_eq!(fm.first_value("TI"), Some("Kept".to_string()));
    assert_eq!(fm.all_values("garbage"), Vec::<String>::new());
}

#[test]
fn tags_and_values_are_trimmed() {
    let fm = parse_record("TI  -   Spaced Out  \r");
    assert_eq!(fm.first_value("TI"), Some("Spaced Out".to_string()));
}

#[test]
fn value_may_be_empty_after_trim() {
    let fm = parse_record("TI  - ");
    assert_eq!(fm.first_value("TI"), Some(String::new()));
}

#[test]
fn absent_tag_has_no_values() {
    let fm = parse_record("");
    assert_eq!(fm.first_value("TI"), None);
    assert_eq!(fm.all_values("AU"), Vec::<String>::new());
}
