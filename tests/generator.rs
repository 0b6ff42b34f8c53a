use adoc_parser::event::{BlockEvent, DiagnosticKind, Tag};
use adoc_parser::generator::{parse_all, BlockParser};
use adoc_parser::header::DocumentAttrWrap;

fn describe(events: &[BlockEvent]) -> Vec<String> {
    events.iter().map(|e| format!("{:?}", e)).collect()
}

fn text_of(e: &BlockEvent) -> Option<(String, bool)> {
    match e {
        BlockEvent::Text(s, r) => Some((s.clone(), r.quotes)),
        _ => None,
    }
}

#[test]
fn fences_open_and_close_in_order() {
    let ev = parse_all("====\ninner\n----\ncode\n----\n====\n");
    assert_eq!(ev.len(), 6);
    assert!(matches!(ev[0], BlockEvent::Start(Tag::Example { level: 0 })));
    assert_eq!(text_of(&ev[1]), Some(("inner".to_string(), true)));
    assert!(matches!(ev[2], BlockEvent::Start(Tag::Listing { source: None })));
    assert_eq!(text_of(&ev[3]), Some(("code".to_string(), false)));
    assert!(matches!(ev[4], BlockEvent::End(Tag::Listing { .. })));
    assert!(matches!(ev[5], BlockEvent::End(Tag::Example { level: 0 })));
    let ev = parse_all("====\n----\ncode\n----\n====\n");
    assert!(matches!(ev.last(), Some(BlockEvent::End(Tag::Example { level: 0 }))));
}

#[test]
fn nested_example_fences_of_other_lengths() {
    let ev = parse_all("======\n====\nx\n====\n======");
    assert!(matches!(ev[0], BlockEvent::Start(Tag::Example { level: 0 })));
    assert!(matches!(ev[1], BlockEvent::Start(Tag::Example { level: 1 })));
    assert!(matches!(ev[3], BlockEvent::End(Tag::Example { level: 1 })));
    assert!(matches!(ev[4], BlockEvent::End(Tag::Example { level: 0 })));
    assert_eq!(ev.len(), 5);
}

#[test]
fn open_frames_are_closed_at_end_innermost_first() {
    let ev = parse_all("====\n----\ntext");
    assert_eq!(ev.len(), 7);
    assert!(matches!(ev[0], BlockEvent::Start(Tag::Example { .. })));
    assert!(matches!(ev[1], BlockEvent::Start(Tag::Listing { .. })));
    assert_eq!(text_of(&ev[2]), Some(("text".to_string(), false)));
    assert!(matches!(ev[3], BlockEvent::End(Tag::Listing { .. })));
    assert!(matches!(ev[4], BlockEvent::Diagnostic(DiagnosticKind::UnterminatedBlock)));
    assert!(matches!(ev[5], BlockEvent::End(Tag::Example { .. })));
    assert!(matches!(ev[6], BlockEvent::Diagnostic(DiagnosticKind::UnterminatedBlock)));
}

#[test]
fn three_dashes_are_paragraph_text() {
    let ev = parse_all("---\nmore");
    assert_eq!(ev.len(), 1);
    assert_eq!(text_of(&ev[0]), Some(("---\nmore".to_string(), true)));
}

#[test]
fn parsing_twice_gives_the_same_events() {
    let src = "= T\n:a: 1\n\n[x]\npara\n\n****\nside\n****\n";
    assert_eq!(describe(&parse_all(src)), describe(&parse_all(src)));
}

#[test]
fn header_with_attributes() {
    let ev = parse_all("= My Doc\nJane Doe\n:toc: left \\\n  more\n:!draft:\n\nBody");
    assert!(matches!(ev[0], BlockEvent::Start(Tag::DocumentHeader)));
    assert_eq!(text_of(&ev[1]), Some(("My Doc".to_string(), true)));
    assert_eq!(text_of(&ev[2]), Some(("Jane Doe".to_string(), true)));
    match &ev[3] {
        BlockEvent::DocAttribute { name, unset, values, wraps } => {
            assert_eq!(name, "toc");
            assert!(!unset);
            assert_eq!(values, &vec!["left".to_string(), "  more".to_string()]);
            assert_eq!(wraps, &vec![DocumentAttrWrap::SoftWrap, DocumentAttrWrap::NoWrap]);
        }
        _ => panic!("expected an attribute"),
    }
    match &ev[4] {
        BlockEvent::DocAttribute { name, unset, values, wraps } => {
            assert_eq!(name, "draft");
            assert!(*unset);
            assert!(values.is_empty());
            assert!(wraps.is_empty());
        }
        _ => panic!("expected an attribute"),
    }
    assert!(matches!(ev[5], BlockEvent::End(Tag::DocumentHeader)));
    assert_eq!(text_of(&ev[6]), Some(("Body".to_string(), true)));
    assert_eq!(ev.len(), 7);
}

#[test]
fn attributes_and_malformed_lists() {
    let ev = parse_all("[source, lang=rust]\n----\nfn\n----\n\n[\"open\nnext");
    match &ev[0] {
        BlockEvent::BlockAttributes(m) => {
            assert_eq!(m.positional, vec!["source".to_string()]);
            assert_eq!(m.named, vec![("lang".to_string(), "rust".to_string())]);
        }
        _ => panic!("expected attributes"),
    }
    assert!(matches!(ev[1], BlockEvent::Start(Tag::Listing { .. })));
    assert_eq!(text_of(&ev[4]), Some(("[\"open\nnext".to_string(), true)));
    assert!(matches!(ev[5], BlockEvent::Diagnostic(DiagnosticKind::MalformedAttributeList)));
    assert_eq!(ev.len(), 6);
}

#[test]
fn verbatim_keeps_blank_lines_and_comments_are_dropped() {
    let ev = parse_all("....\na\n\n  b\n....\n////\nhidden\n////\n++++\n<b>\n++++");
    assert!(matches!(ev[0], BlockEvent::Start(Tag::Literal)));
    assert_eq!(text_of(&ev[1]), Some(("a\n\n  b".to_string(), false)));
    assert!(matches!(ev[2], BlockEvent::End(Tag::Literal)));
    assert!(matches!(ev[3], BlockEvent::Start(Tag::Comment)));
    assert!(matches!(ev[4], BlockEvent::End(Tag::Comment)));
    assert!(matches!(ev[5], BlockEvent::Start(Tag::Passthrough)));
    assert_eq!(text_of(&ev[6]), Some(("<b>".to_string(), false)));
    assert!(matches!(ev[7], BlockEvent::End(Tag::Passthrough)));
    assert_eq!(ev.len(), 8);
}

#[test]
fn pull_parser_ends_with_none() {
    let mut p = BlockParser::new("\n\npara one\npara two\n\n--\nx\n--");
    let mut n = 0;
    while let Some(_) = p.next() {
        n += 1;
    }
    assert_eq!(n, 4);
    assert!(p.next().is_none());
    assert!(parse_all("").is_empty());
}

#[test]
fn header_attribute_keeps_hard_and_soft_joins() {
    let ev = parse_all("= D\n:a: one + \\\ntwo \\\nthree\n:b: x");
    match &ev[2] {
        BlockEvent::DocAttribute { name, values, wraps, .. } => {
            assert_eq!(name, "a");
            assert_eq!(
                values,
                &vec!["one".to_string(), "two".to_string(), "three".to_string()]
            );
            assert_eq!(
                wraps,
                &vec![
                    DocumentAttrWrap::HardWrap,
                    DocumentAttrWrap::SoftWrap,
                    DocumentAttrWrap::NoWrap
                ]
            );
        }
        _ => panic!("expected an attribute"),
    }
    match &ev[3] {
        BlockEvent::DocAttribute { name, values, wraps, .. } => {
            assert_eq!(name, "b");
            assert_eq!(values, &vec!["x".to_string()]);
            assert_eq!(wraps, &vec![DocumentAttrWrap::NoWrap]);
        }
        _ => panic!("expected an attribute"),
    }
    assert_eq!(ev.len(), 5);
}
