use blogpub::header::parse_header;
use blogpub::text::{chars_of, string_of, trimmed};

#[test]
fn header_fields_are_read() {
    let text = "# A Title  \n\n[news, \"rust\" , news]\n> first part\n>   second part  \n===\nBody line\n\nlast\n";
    let h = parse_header(text);
    assert_eq!(h.title, "A Title");
    assert_eq!(h.tags, vec!["news".to_owned(), "rust".to_owned(), "news".to_owned()]);
    assert_eq!(h.summary, Some("first part second part".to_owned()));
    assert_eq!(h.body, "Body line\n\nlast\n");
    assert!(h.closed);
    assert_eq!(h.date_text, None);
}

#[test]
fn empty_tag_list_gives_one_empty_tag() {
    let h = parse_header("[]\n===\n");
    assert_eq!(h.tags, vec![String::new()]);
}

#[test]
fn date_comment_gives_date_text() {
    let h = parse_header("<!-- Date: Tue, 1 Jul 2003 10:52:37 +0200 -->\n===\n");
    assert_eq!(h.date_text, Some("Tue, 1 Jul 2003 10:52:37 +0200".to_owned()));
}

#[test]
fn date_comment_takes_last_closing() {
    let h = parse_header("<!-- Date: a --> b --> tail\n");
    assert_eq!(h.date_text, Some("a --> b tail".to_owned()));
}

#[test]
fn malformed_date_comment_gives_none() {
    let h = parse_header("<!-- Date:no space -->\n");
    assert_eq!(h.date_text, None);
    let h = parse_header("<!-- Date: no end\n");
    assert_eq!(h.date_text, None);
}

#[test]
fn later_date_line_replaces_earlier() {
    let h = parse_header("<!-- Date: one -->\n<!-- Date:bad -->\n===\n");
    assert_eq!(h.date_text, None);
}

#[test]
fn missing_delimiter_leaves_body_empty() {
    let h = parse_header("# Title\nsome text\nmore\n");
    assert!(!h.closed);
    assert_eq!(h.body, "");
    assert_eq!(h.title, "Title");
}

#[test]
fn delimiter_must_be_the_whole_line() {
    let h = parse_header("==== \nx\n===\ny\n");
    assert_eq!(h.body, "y\n");
}

#[test]
fn header_markers_after_delimiter_are_body() {
    let h = parse_header("===\n# Not a title\n[a]\r\n\n");
    assert_eq!(h.title, "");
    assert!(h.tags.is_empty());
    assert_eq!(h.body, "# Not a title\n[a]\n\n");
}

#[test]
fn last_line_without_newline_is_kept() {
    let h = parse_header("===\nend");
    assert_eq!(h.body, "end\n");
}

#[test]
fn trim_removes_unicode_white_space() {
    let v = chars_of("\u{3000}\t x y \u{a0}\n");
    assert_eq!(string_of(&trimmed(&v)), "x y");
}

#[test]
fn summary_lines_are_space_joined_then_trimmed() {
    let h = parse_header("> a\n> \n> b\n===\n");
    assert_eq!(h.summary, Some("a  b".to_owned()));
    let h = parse_header("> a\n> \n");
    assert_eq!(h.summary, Some("a".to_owned()));
    let h = parse_header(">  x  \n");
    assert_eq!(h.summary, Some("x".to_owned()));
}
