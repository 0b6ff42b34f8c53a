use adoc_parser::doc_attr::{DocumentAttrName, DocumentAttrValue};

fn value(s: &str) -> Option<(u8, String)> {
    DocumentAttrValue::parse(s).map(|v| match v {
        DocumentAttrValue::ValueLine(t) => (0, t),
        DocumentAttrValue::ValuePartialLine(t) => (1, t),
        DocumentAttrValue::ValuePartialLineHardBreak(t) => (2, t),
    })
}

#[test]
fn attribute_names() {
    assert_eq!(DocumentAttrName::parse(":Toc-Level: 2").map(|n| n.0), Some("toc-level".to_string()));
    assert_eq!(DocumentAttrName::parse(":a:").map(|n| n.0), Some("a".to_string()));
    assert!(DocumentAttrName::parse("::").is_none());
    assert!(DocumentAttrName::parse(":a b:").is_none());
    assert!(DocumentAttrName::parse("a:").is_none());
}

#[test]
fn attribute_value_lines() {
    assert_eq!(value("plain"), Some((0, "plain".to_string())));
    assert_eq!(value("soft \\"), Some((1, "soft".to_string())));
    assert_eq!(value("hard + \\"), Some((2, "hard".to_string())));
    assert_eq!(value("x\\"), Some((0, "x\\".to_string())));
    assert_eq!(value(""), None);
}
