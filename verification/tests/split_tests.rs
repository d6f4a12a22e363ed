use ris2bib::split_records;

#[test]
fn no_marker_gives_single_block() {
    let doc = "TY  - JOUR\nTI  - A Title";
    let blocks = split_records(doc);
    assert_eq!(blocks.len(), 1);
    assert_eq!(blocks[0], doc);
}

#[test]
fn marker_separates_blocks_and_keeps_trailer() {
    let doc = "TY  - JOUR\nER  - \nTY  - BOOK\nER  - \n";
    let blocks = split_records(doc);
    assert_eq!(blocks.len(), 3);
    assert_eq!(blocks[0], "TY  - JOUR");
    assert_eq!(blocks[1], " \nTY  - BOOK");
    assert_eq!(blocks[2], " \n");
}

#[test]
fn marker_text_is_dropped_from_blocks() {
    let doc = "a\nER  -b";
    let blocks = split_records(doc);
    assert_eq!(blocks.len(), 2);
    assert_eq!(blocks[0], "a");
    assert_eq!(blocks[1], "b");
}

#[test]
fn empty_document_gives_one_empty_block() {
    let blocks = split_records("");
    assert_eq!(blocks.len(), 1);
    assert_eq!(blocks[0], "");
}
