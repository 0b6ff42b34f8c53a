use adoc_parser::header::DocumentAttrWrap::{HardWrap, NoWrap, SoftWrap};
use adoc_parser::header::HeaderLineToken;
use adoc_parser::header::HeaderLineToken::{Author, DocumentAttr, DocumentTitle};
use adoc_parser::multiparse::{MultiParse, VecSet};

fn expect_hl(input: &str, expected: Vec<HeaderLineToken>) {
    let got = HeaderLineToken::multiparse(input);
    assert_eq!(got, VecSet::new(expected));
}

fn attr(name: &str, unset: bool, value: Option<&str>, wrap: adoc_parser::header::DocumentAttrWrap) -> HeaderLineToken {
    DocumentAttr {
        attr: name.to_owned(),
        unset,
        value: value.map(|v| v.to_owned()),
        wrap,
    }
}

#[test]
fn document_title() {
    expect_hl("= Hello", vec![DocumentTitle("Hello".to_owned())]);
    expect_hl("=", vec![]);
    expect_hl("= ", vec![]);
    expect_hl("= 中文", vec![DocumentTitle("中文".to_owned())]);
    expect_hl("= = ()&*^%G", vec![DocumentTitle("= ()&*^%G".to_owned())]);
}

#[test]
fn author() {
    expect_hl("John Smith", vec![Author("John Smith".to_owned())]);
    expect_hl(" John Smith", vec![Author("John Smith".to_owned())]);
    expect_hl("John Smith ", vec![Author("John Smith".to_owned())]);
    expect_hl(
        "John Smith <jsmith@example.com>",
        vec![Author("John Smith <jsmith@example.com>".to_owned())],
    );
}

#[test]
fn attr_set_unset() {
    expect_hl(":attr:", vec![attr("attr", false, None, NoWrap)]);
    expect_hl(":!attr:", vec![attr("attr", true, None, NoWrap)]);
    expect_hl(":attr!:", vec![attr("attr", true, None, NoWrap)]);
}

#[test]
fn classify_examples() {
    expect_hl("= Title", vec![DocumentTitle("Title".to_owned())]);
    expect_hl("# Title ", vec![DocumentTitle("Title".to_owned())]);
    expect_hl(":attr:", vec![attr("attr", false, None, NoWrap)]);
    expect_hl("Jane Doe", vec![Author("Jane Doe".to_owned())]);
    expect_hl("", vec![]);
    expect_hl(":a:", vec![attr("a", false, None, NoWrap)]);
    expect_hl(":名-1:", vec![attr("名-1", false, None, NoWrap)]);
    expect_hl(":-a:", vec![]);
    expect_hl(":attr:value", vec![]);
}

#[test]
fn attr_values_and_wraps() {
    expect_hl(":toc: left", vec![attr("toc", false, Some("left"), NoWrap)]);
    expect_hl(":desc: one two \\", vec![attr("desc", false, Some("one two"), SoftWrap)]);
    expect_hl(":desc: one + \\", vec![attr("desc", false, Some("one"), HardWrap)]);
    expect_hl(":my-attr:   x", vec![attr("my-attr", false, Some("x"), NoWrap)]);
}

#[test]
fn vecset_compares_as_sets() {
    let a = VecSet::new(vec![1, 2, 2]);
    let b = VecSet::new(vec![2, 1]);
    let c = VecSet::new(vec![1, 3]);
    assert_eq!(a, b);
    assert_ne!(a, c);
}
