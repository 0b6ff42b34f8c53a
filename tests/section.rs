use adoc_parser::parser::ParserError;
use adoc_parser::section::SectionTitle;

#[test]
fn not_a_section_title() {
    let test = |s: &str| assert_eq!(SectionTitle::parse(s), Err(ParserError::Mismatch));

    test("");
    test("=");
    test("= ");
    test(" =");
    test("#");
    test("# ");
    test(" #");
    test("akdslfu9q3w8(*&)IJOKLJALXLf][]");
}

#[test]
fn valid_section_title() {
    let test = |marker: &str, level: usize, title: &str| {
        let marker = marker.repeat(level + 1);
        assert_eq!(
            SectionTitle::parse(&vec![&marker[..], title].join(" ")),
            Ok(SectionTitle {
                marker: marker.chars().next().unwrap(),
                level,
                title: title.trim().to_owned(),
            })
        );
    };
    let test_all = |title: &str| {
        for marker in vec!["#", "="] {
            for level in 0..5 {
                test(marker, level, title);
            }
        }
    };
    test_all("foo");
    test_all(" foo");
    test_all(" foo ");
    test_all("foo ");
    test_all(" =foo");
    test_all(" = foo");
    test_all("= foo");
}

#[test]
fn too_many_markers_is_not_a_title() {
    assert_eq!(SectionTitle::parse("======= x"), Err(ParserError::Mismatch));
    assert_eq!(SectionTitle::parse("=#= x"), Err(ParserError::Mismatch));
    let six = SectionTitle::parse("###### deep").unwrap();
    assert_eq!(six.level, 5);
    assert_eq!(six.marker, '#');
    assert_eq!(six.title, "deep");
}
