use ris2bib::guess_bibtex_type;

#[test]
fn table_entries_map_exactly() {
    assert_eq!(guess_bibtex_type("JOUR"), "article");
    assert_eq!(guess_bibtex_type("BOOK"), "book");
    assert_eq!(guess_bibtex_type("CHAP"), "incollection");
    assert_eq!(guess_bibtex_type("CONF"), "inproceedings");
    assert_eq!(guess_bibtex_type("CPAPER"), "inproceedings");
    assert_eq!(guess_bibtex_type("THES"), "phdthesis");
    assert_eq!(guess_bibtex_type("RPRT"), "techreport");
}

#[test]
fn matching_is_case_insensitive() {
    assert_eq!(guess_bibtex_type("jour"), "article");
    assert_eq!(guess_bibtex_type("Jour"), "article");
    assert_eq!(guess_bibtex_type("cpaper"), "inproceedings");
    assert_eq!(guess_bibtex_type("thes"), "phdthesis");
}

#[test]
fn unmapped_codes_give_misc() {
    assert_eq!(guess_bibtex_type("XX"), "misc");
    assert_eq!(guess_bibtex_type("XYZ"), "misc");
    assert_eq!(guess_bibtex_type(""), "misc");
    assert_eq!(guess_bibtex_type("MISC"), "misc");
    assert_eq!(guess_bibtex_type("JOURNAL"), "misc");
}
