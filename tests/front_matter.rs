use yanos::header::{decode_header, DecodeError};
use yanos::split_md_and_header;

#[test]
fn test_split_md_and_header_should_read_meta() {
    let input = r#"---
title = "mytitle"
date = "2022-02-01"
---
# heading"#
        .to_string();

    let (header, content) = split_md_and_header(&input).unwrap();

    assert!(header.is_some());

    let header = header.unwrap();

    assert_eq!(header.title.unwrap(), "mytitle".to_string());
    assert_eq!(header.date.unwrap(), "2022-02-01".to_string());

    assert_eq!(content, "# heading")
}

#[test]
fn test_split_md_and_header_should_handle_no_meta() {
    let input = r"# heading".to_string();

    let (header, content) = split_md_and_header(&input).unwrap();

    assert!(header.is_none());

    assert_eq!(content, "# heading")
}

#[test]
fn split_reads_title_and_category() {
    let input = "---\ntitle = \"mytitle\"\ncategory = \"mycategory\"\n---\n*bold*";
    let (header, content) = split_md_and_header(input).unwrap();
    let header = header.unwrap();
    assert_eq!(header.title.unwrap(), "mytitle");
    assert_eq!(header.category.unwrap(), "mycategory");
    assert_eq!(header.date, None);
    assert_eq!(content, "*bold*");
}

#[test]
fn split_leaves_text_without_delimiter_unchanged() {
    for input in ["", "plain text", "--- not a delimiter\nbody", "\n---\nx\n---\ny"] {
        let (header, content) = split_md_and_header(input).unwrap();
        assert!(header.is_none());
        assert_eq!(content, input);
    }
}

#[test]
fn split_without_closing_delimiter_is_all_body() {
    let (header, content) = split_md_and_header("---\ntitle = \"x\"\n# body").unwrap();
    assert!(header.is_none());
    assert_eq!(content, "title = \"x\"\n# body");
}

#[test]
fn split_block_equal_to_body_is_no_block() {
    let (header, content) = split_md_and_header("---\nsame---\nsame").unwrap();
    assert!(header.is_none());
    assert_eq!(content, "same");
}

#[test]
fn split_empty_block_gives_empty_header() {
    let (header, content) = split_md_and_header("---\n---\nbody").unwrap();
    let header = header.unwrap();
    assert_eq!(header.title, None);
    assert_eq!(header.date, None);
    assert_eq!(header.category, None);
    assert_eq!(content, "body");
}

#[test]
fn split_ignores_unknown_fields() {
    let (header, _) = split_md_and_header("---\nauthor = \"me\"\ntitle = \"t\"\n---\nbody").unwrap();
    assert_eq!(header.unwrap().title.unwrap(), "t");
}

#[test]
fn split_reports_malformed_block() {
    match split_md_and_header("---\ntitle = \"unterminated\n---\nbody") {
        Err(DecodeError::Syntax(message)) => assert!(!message.is_empty()),
        other => panic!("expected a syntax error, got {:?}", other),
    }
}

#[test]
fn split_reports_date_that_is_no_text() {
    match split_md_and_header("---\ndate = 2022-02-01\n---\nbody") {
        Err(DecodeError::NotText(field)) => assert_eq!(field, "date"),
        other => panic!("expected a field error, got {:?}", other),
    }
}

#[test]
fn decode_header_reads_all_fields() {
    let h = decode_header("title = \"a\"\ndate = \"2020-01-02\"\ncategory = \"c\"").unwrap();
    assert_eq!(h.title.as_deref(), Some("a"));
    assert_eq!(h.date.as_deref(), Some("2020-01-02"));
    assert_eq!(h.category.as_deref(), Some("c"));
}
