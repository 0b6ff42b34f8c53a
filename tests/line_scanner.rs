use adoc_parser::delimiter::Delimiter;
use adoc_parser::line_scanner::{LineScanner, PhysicalLine};

#[test]
fn peek_and_advance() {
    let mut s = LineScanner::new("a\r\n\n  \nb\n");
    assert_eq!(s.peek(), Some("a"));
    assert!(matches!(s.peek_line(), PhysicalLine::Line("a")));
    assert!(matches!(s.peek_nth(1), PhysicalLine::Empty));
    assert!(matches!(s.peek_nth(3), PhysicalLine::Line("b")));
    assert!(matches!(s.peek_nth(4), PhysicalLine::Eof));
    assert!(!s.empty_lines());
    s.advance();
    assert!(s.peek_empty());
    assert!(s.empty_lines());
    assert_eq!(s.peek_non_empty_line(), Ok("b".to_string()));
    s.advance_by(5);
    assert!(s.peek_eof());
    assert!(s.peek_non_empty_line().unwrap_err().mismatches());
}

#[test]
fn contiguous_and_delimited() {
    let mut s = LineScanner::new("one\ntwo\n\n----\nx\n\ny\n----\nz");
    assert_eq!(s.contiguous_lines(), vec!["one".to_string(), "two".to_string()]);
    assert!(s.empty_lines());
    assert_eq!(s.peek_delimiter(), Ok(Delimiter::NonTable('-', 4)));
    assert_eq!(
        s.delimited_block(),
        vec!["x".to_string(), "".to_string(), "y".to_string()]
    );
    assert_eq!(s.peek(), Some("z"));
    assert!(s.delimited_block().is_empty());
    assert_eq!(s.peek(), Some("z"));
}

#[test]
fn prefixed_lines_and_attrs() {
    let mut s = LineScanner::new("> a\n> b\nc\n[x, k=v]");
    assert_eq!(s.prefixed_block("> "), vec!["a".to_string(), "b".to_string()]);
    assert!(s.peek_element_attrs().unwrap_err().mismatches());
    let r = s.advance_if_ok(Ok::<u8, adoc_parser::parser::ParserError>(1));
    assert_eq!(r, Ok(1));
    let attrs = s.peek_element_attrs().unwrap();
    assert_eq!(attrs.by_index.len(), 1);
    assert_eq!(attrs.by_index[0].0, "x");
    assert_eq!(attrs.by_name[0].0 .0, "k");
    assert_eq!(attrs.by_name[0].1 .0, "v");
}
