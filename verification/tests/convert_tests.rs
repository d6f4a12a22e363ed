use ris2bib::convert_document;

#[test]
fn two_records_each_followed_by_newline() {
    let doc = "TY  - JOUR\nAU  - Doe, Jane\nPY  - 2020\nTI  - A Title\nER  - \nTY  - BOOK\nAU  - Roe, Max\nPY  - 1999\nTI  - B Title\nER  - \n";
    let out = convert_document(doc);
    let first = "@article{Doe2020,\n    author       = {Doe, Jane},\n    title        = {A Title},\n    journal      = {},\n    booktitle    = {},\n    volume       = {},\n    number       = {},\n    pages        = {},\n    year         = {2020},\n    doi          = {},\n    url          = {},\n    issn         = {},\n    abstract     = {}\n    }\n";
    let second = "@book{Roe1999,\n    author       = {Roe, Max},\n    title        = {B Title},\n    journal      = {},\n    booktitle    = {},\n    volume       = {},\n    number       = {},\n    pages        = {},\n    year         = {1999},\n    doi          = {},\n    url          = {},\n    issn         = {},\n    abstract     = {}\n    }\n";
    let mut expected = String::from(first);
    expected.push_str(second);
    assert_eq!(out, expected);
}

#[test]
fn trailing_blank_segment_is_excluded() {
    let with_trailer = "TY  - JOUR\nTI  - T\nER  - \n   \n";
    let without_trailer = "TY  - JOUR\nTI  - T";
    let out_a = convert_document(with_trailer);
    let out_b = convert_document(without_trailer);
    assert_eq!(out_a, out_b);
    assert_eq!(out_a.matches('@').count(), 1);
}

#[test]
fn document_without_marker_is_one_record() {
    let doc = "TY  - JOUR\nAU  - Doe, Jane\nPY  - 2020";
    let out = convert_document(doc);
    assert!(out.starts_with("@article{Doe2020,"));
    assert!(out.ends_with("    }\n"));
    assert_eq!(out.matches('@').count(), 1);
}

#[test]
fn blank_document_gives_no_output() {
    assert_eq!(convert_document(""), "");
    assert_eq!(convert_document("  \n \t \n"), "");
}

#[test]
fn blank_blocks_between_markers_are_skipped() {
    let doc = "\nER  - \nTY  - JOUR\nTI  - T\nER  - \n";
    let out = convert_document(doc);
    assert_eq!(out.matches('@').count(), 1);
    assert!(out.starts_with("@article{unknown????,"));
}
