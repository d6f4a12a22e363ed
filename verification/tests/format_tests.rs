use ris2bib::format_entry;
use ris2bib::parse_record;

#[test]
fn full_journal_entry() {
    let fm = parse_record(
        "TY  - JOUR\nAU  - Doe, Jane\nAU  - Smith, John\nPY  - 2020\nTI  - A Title",
    );
    let entry = format_entry(&fm);
    let expected = "@article{Doe2020,\n    author       = {Doe, Jane and Smith, John},\n    title        = {A Title},\n    journal      = {},\n    booktitle    = {},\n    volume       = {},\n    number       = {},\n    pages        = {},\n    year         = {2020},\n    doi          = {},\n    url          = {},\n    issn         = {},\n    abstract     = {}\n    }";
    assert_eq!(entry, expected);
}

#[test]
fn missing_author_and_year_give_unknown_key() {
    let fm = parse_record("TY  - JOUR\nTI  - A Title");
    let entry = format_entry(&fm);
    assert!(entry.starts_with("@article{unknown????,"));
    assert!(entry.contains("    year         = {????},"));
}

#[test]
fn unrecognized_type_gives_misc() {
    let fm = parse_record("TY  - XYZ\nAU  - Doe, Jane\nPY  - 2001");
    let entry = format_entry(&fm);
    assert!(entry.starts_with("@misc{Doe2001,"));
}

#[test]
fn absent_type_gives_misc() {
    let fm = parse_record("AU  - Doe, Jane\nPY  - 2001");
    let entry = format_entry(&fm);
    assert!(entry.starts_with("@misc{Doe2001,"));
}

#[test]
fn percent_in_field_is_escaped() {
    let fm = parse_record("TY  - JOUR\nTI  - 50% off");
    let entry = format_entry(&fm);
    assert!(entry.contains("    title        = {50\\% off},"));
}

#[test]
fn author_without_comma_gives_empty_surname() {
    let fm = parse_record("AU  - Plato\nPY  - 0380");
    let entry = format_entry(&fm);
    assert!(entry.starts_with("@misc{0380,"));
    assert!(entry.contains("    author       = {Plato},"));
}

#[test]
fn year_field_is_not_escaped() {
    let fm = parse_record("PY  - 19%0");
    let entry = format_entry(&fm);
    assert!(entry.contains("    year         = {19%0},"));
    assert!(entry.starts_with("@misc{unknown19%0,"));
}

#[test]
fn all_mapped_fields_are_rendered() {
    let fm = parse_record(
        "TY  - CHAP\nAU  - Doe, Jane\nPY  - 1999\nTI  - T\nJO  - J\nT2  - B\nVL  - 7\nIS  - 3\nSP  - 10-20\nDO  - 10.1/x\nUR  - http://e.g\nSN  - 1234-5678\nAB  - An abstract",
    );
    let entry = format_entry(&fm);
    let expected = "@incollection{Doe1999,\n    author       = {Doe, Jane},\n    title        = {T},\n    journal      = {J},\n    booktitle    = {B},\n    volume       = {7},\n    number       = {3},\n    pages        = {10-20},\n    year         = {1999},\n    doi          = {10.1/x},\n    url          = {http://e.g},\n    issn         = {1234-5678},\n    abstract     = {An abstract}\n    }";
    assert_eq!(entry, expected);
}
