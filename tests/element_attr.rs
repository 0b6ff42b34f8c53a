use adoc_parser::element_attr::{ElementAttr, ElementAttrs};
use adoc_parser::parser::ParserError;

fn positional(v: &[&str]) -> ElementAttrs {
    ElementAttrs(v.iter().map(|a| ElementAttr::Positional(a.to_string())).collect())
}

fn is_fail(r: Result<ElementAttrs, ParserError>) -> bool {
    match r {
        Err(e) => !e.mismatches(),
        Ok(_) => false,
    }
}

#[test]
fn non_attr_returns_none() {
    assert!(ElementAttrs::parse("").unwrap_err().mismatches());
    assert!(ElementAttrs::parse("abc").unwrap_err().mismatches());
    assert!(ElementAttrs::parse("[ ]").unwrap_err().mismatches());
    assert!(ElementAttrs::parse("[ abc]").unwrap_err().mismatches());
    assert!(ElementAttrs::parse("]").unwrap_err().mismatches());
}

#[test]
fn empty_attr_returns_empty_attr_list() {
    let attrs = ElementAttrs::parse("[]").unwrap();
    assert_eq!(attrs, ElementAttrs(vec![]));
}

#[test]
fn positional_attrs_only() {
    let test = |a: &str, b: Vec<&str>| {
        println!("Input: {}", a);
        assert_eq!(ElementAttrs::parse(a), Ok(positional(&b)));
    };
    test("[pos0]", vec!["pos0"]);
    test("[pos0,pos1]", vec!["pos0", "pos1"]);
    test("[pos0, pos1]", vec!["pos0", "pos1"]);
    test("[pos0 ,pos1]", vec!["pos0", "pos1"]);
    test("[pos0 , pos1]", vec!["pos0", "pos1"]);
    test("[pos0 , pos1 ]", vec!["pos0", "pos1"]);
    test("[pos0   ,   pos1   ]", vec!["pos0", "pos1"]);
    test("[pos0,]", vec!["pos0"]);
    test("[pos0,pos1,]", vec!["pos0", "pos1"]);
    test("[pos0, pos1 ,]", vec!["pos0", "pos1"]);
    test("[pos0 ,pos1,]", vec!["pos0", "pos1"]);
    test("[pos0 , pos1 , ]", vec!["pos0", "pos1"]);
    test("[pos0 , pos1   ,      ]", vec!["pos0", "pos1"]);
    test("[pos0   ,   pos1   ,]", vec!["pos0", "pos1"]);
    test("[\"pos0\"]", vec!["pos0"]);
    test("[\"pos0,pos1\"]", vec!["pos0,pos1"]);
    test("[\"pos0,pos1]\"]", vec!["pos0,pos1]"]);
}

#[test]
fn comma_inside_quotes_is_not_a_separator() {
    assert_eq!(ElementAttrs::parse("[x,\"a,b\"]"), Ok(positional(&["x", "a,b"])));
}

#[test]
fn trailing_comma_is_ignored() {
    assert_eq!(ElementAttrs::parse("[a,b,]"), ElementAttrs::parse("[a,b]"));
    assert_eq!(ElementAttrs::parse("[a,b,]"), Ok(positional(&["a", "b"])));
}

#[test]
fn named_and_mixed_attributes() {
    let expected = ElementAttrs(vec![
        ElementAttr::Positional("source".to_string()),
        ElementAttr::Named("lang".to_string(), "rust".to_string()),
        ElementAttr::Named("title".to_string(), "A, b".to_string()),
        ElementAttr::Named("empty".to_string(), "".to_string()),
    ]);
    assert_eq!(
        ElementAttrs::parse("[source, lang = rust,title='A, b', empty=]"),
        Ok(expected)
    );
}

#[test]
fn escaped_quote_and_literal_backslash() {
    assert_eq!(
        ElementAttrs::parse("[\"say \\\"hi\\\"\",'a\\b']"),
        Ok(positional(&["say \"hi\"", "a\\b"]))
    );
}

#[test]
fn serialized_attributes_parse_back_the_same() {
    let first = ElementAttrs::parse("[a ,\"b c\", k = 'v,w' , q=\"x\\\"y\"]").unwrap();
    let text = first.render();
    assert_eq!(text, "[a,\"b c\",k=\"v,w\",q=\"x\\\"y\",]");
    assert_eq!(ElementAttrs::parse(&text), Ok(first));
    let back = ElementAttrs::parse("[a\\]").unwrap();
    assert_eq!(back.render(), "[a\\,]");
    assert_eq!(ElementAttrs::parse(&back.render()), Ok(back));
    assert_eq!(ElementAttrs(vec![]).render(), "[]");
}

#[test]
fn trailing_whitespace_after_bracket_is_accepted() {
    assert_eq!(ElementAttrs::parse("[a]  "), Ok(positional(&["a"])));
}

#[test]
fn malformed_lists_fail() {
    assert!(is_fail(ElementAttrs::parse("[\"open")));
    assert!(is_fail(ElementAttrs::parse("[a] b")));
    assert!(is_fail(ElementAttrs::parse("[a,b")));
    assert!(is_fail(ElementAttrs::parse("[,]")));
    assert!(is_fail(ElementAttrs::parse("[k=1,k=2]")));
    assert!(is_fail(ElementAttrs::parse("[k=\"1]")));
}

#[test]
fn parser_error_helpers() {
    let e = ParserError::fail("why");
    assert_eq!(e, ParserError::Fail("why".to_string()));
    assert!(!e.mismatches());
    assert!(ParserError::Mismatch.mismatches());
}
