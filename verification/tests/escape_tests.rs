use ris2bib::latex_escape;

#[test]
fn escape_braces() {
    assert_eq!(latex_escape("{"), "\\{");
    assert_eq!(latex_escape("}"), "\\}");
    assert_eq!(latex_escape("a{b}c"), "a\\{b\\}c");
}

#[test]
fn escape_ampersand_percent_underscore() {
    assert_eq!(latex_escape("&"), "\\&");
    assert_eq!(latex_escape("%"), "\\%");
    assert_eq!(latex_escape("_"), "\\_");
}

#[test]
fn escape_dollar_hash() {
    assert_eq!(latex_escape("$"), "\\$");
    assert_eq!(latex_escape("#"), "\\#");
}

#[test]
fn escape_caret_tilde_get_empty_group() {
    assert_eq!(latex_escape("^"), "\\^{}");
    assert_eq!(latex_escape("~"), "\\~{}");
}

#[test]
fn escape_percent_value() {
    assert_eq!(latex_escape("50%"), "50\\%");
}

#[test]
fn escape_empty_is_empty() {
    assert_eq!(latex_escape(""), "");
}

#[test]
fn escape_plain_text_unchanged() {
    assert_eq!(latex_escape("Doe, Jane and Smith, John"), "Doe, Jane and Smith, John");
}

#[test]
fn escape_all_specials_at_once() {
    assert_eq!(latex_escape("{}&%_$#^~"), "\\{\\}\\&\\%\\_\\$\\#\\^{}\\~{}");
}

#[test]
fn reescaping_escaped_text_changes_it_again() {
    let once = latex_escape("{");
    assert_eq!(once, "\\{");
    let twice = latex_escape(&once);
    assert_eq!(twice, "\\\\{");
    assert_ne!(twice, once);
}

#[test]
fn escape_leaves_backslash_alone() {
    assert_eq!(latex_escape("a\\b"), "a\\b");
}
