use adoc_parser::delimiter::{BlockDelimiter, Content, Context, Delimiter};

#[test]
fn fences_are_recognized() {
    assert_eq!(Delimiter::parse("--"), Some(Delimiter::Open));
    assert_eq!(Delimiter::parse("----"), Some(Delimiter::NonTable('-', 4)));
    assert_eq!(Delimiter::parse("======"), Some(Delimiter::NonTable('=', 6)));
    assert_eq!(Delimiter::parse("|==="), Some(Delimiter::Table('|', 4)));
    assert_eq!(Delimiter::parse("!====="), Some(Delimiter::Table('!', 6)));
}

#[test]
fn short_or_mixed_runs_are_not_fences() {
    assert_eq!(Delimiter::parse("---"), None);
    assert_eq!(Delimiter::parse("-"), None);
    assert_eq!(Delimiter::parse(""), None);
    assert_eq!(Delimiter::parse("=-=-"), None);
    assert_eq!(Delimiter::parse("|=="), None);
    assert_eq!(Delimiter::parse("####"), None);
    assert_eq!(Delimiter::parse("---- "), None);
}

#[test]
fn default_contexts() {
    assert_eq!(
        Delimiter::Open.default_context_content(),
        (Some(Context::Open), Some(Content::Compound))
    );
    assert_eq!(
        Delimiter::NonTable('/', 4).default_context_content(),
        (None, None)
    );
    assert_eq!(
        Delimiter::NonTable('-', 4).default_context_content(),
        (Some(Context::Listing), Some(Content::Verbatim))
    );
    assert_eq!(
        Delimiter::NonTable('+', 4).default_context_content(),
        (Some(Context::Passthrough), Some(Content::Raw))
    );
    assert_eq!(
        Delimiter::NonTable('_', 5).default_context_content(),
        (Some(Context::Quote), Some(Content::Compound))
    );
    assert_eq!(
        Delimiter::Table(':', 4).default_context_content(),
        (Some(Context::Table), Some(Content::Table))
    );
}

#[test]
fn block_delimiter_from_line() {
    assert_eq!(
        BlockDelimiter::try_from("****"),
        Ok(BlockDelimiter { delimiter: "*".to_string(), level: 4 })
    );
    assert_eq!(BlockDelimiter::try_from("***"), Err(()));
}
