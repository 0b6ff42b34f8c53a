//! The tree that a builder makes from the event stream: documents, blocks
//! and inline spans, with their attribute maps.

use vstd::prelude::*;
use crate::event::{named_of, positional_of};

verus! {

/// The named and positional attributes of an element.
#[derive(Debug, Clone)]
pub struct ElementAttrs {
    /// Named attributes, each name once, in the order first given.
    pub by_name: Vec<(ElementName, ElementAttr)>,
    /// Positional attributes in order.
    pub by_index: Vec<ElementAttr>,
}

/// The name of an attribute.
#[derive(Debug, Clone, Hash, PartialEq, Eq)]
pub struct ElementName(pub String);

/// The value of an attribute.
#[derive(Debug, Clone)]
pub struct ElementAttr(pub String);

/// Named attributes as plain values.
pub open spec fn named_pairs(v: Seq<(ElementName, ElementAttr)>) -> Seq<(Seq<char>, Seq<char>)> {
    v.map_values(|p: (ElementName, ElementAttr)| (p.0.0@, p.1.0@))
}

/// Positional attributes as plain values.
pub open spec fn index_values(v: Seq<ElementAttr>) -> Seq<Seq<char>> {
    v.map_values(|a: ElementAttr| a.0@)
}

/// `named` with `(n, v)` set: the value replaced where `n` is there, else
/// added at the end.
pub open spec fn set_named(named: Seq<(Seq<char>, Seq<char>)>, n: Seq<char>, v: Seq<char>) -> Seq<(Seq<char>, Seq<char>)>
    decreases named.len(),
{
    if named.len() == 0 {
        seq![(n, v)]
    } else if named[0].0 == n {
        named.update(0, (n, v))
    } else {
        seq![named[0]] + set_named(named.drop_first(), n, v)
    }
}

/// The named attributes of `pairs` set one after another, later values
/// replacing earlier ones of the same name.
pub open spec fn name_map(pairs: Seq<(Seq<char>, Seq<char>)>) -> Seq<(Seq<char>, Seq<char>)>
    decreases pairs.len(),
{
    if pairs.len() == 0 {
        seq![]
    } else {
        set_named(name_map(pairs.drop_last()), pairs.last().0, pairs.last().1)
    }
}

impl ElementAttrs {
    /// The named attributes as plain values.
    pub open spec fn named_view(&self) -> Seq<(Seq<char>, Seq<char>)> {
        named_pairs(self.by_name@)
    }

    /// The positional attributes as plain values.
    pub open spec fn index_view(&self) -> Seq<Seq<char>> {
        index_values(self.by_index@)
    }

    /// The attribute map of a parsed attribute list.
    pub fn from(attrs: crate::element_attr::ElementAttrs) -> (r: Self)
        ensures
            r.index_view() == positional_of(attrs@),
            r.named_view() == name_map(named_of(attrs@)),
    {
        let mut by_name: Vec<(ElementName, ElementAttr)> = Vec::new();
        let mut by_index: Vec<ElementAttr> = Vec::new();
        let ghost all = attrs@;
        let mut i: usize = 0;
        let n = attrs.0.len();
        assert(all.subrange(0, 0) =~= seq![]);
        assert(index_values(by_index@) =~= seq![]);
        assert(named_pairs(by_name@) =~= seq![]);
        while i < n
            invariant
                i <= n == attrs.0@.len() == all.len(),
                all == attrs@,
                index_values(by_index@) == positional_of(all.subrange(0, i as int)),
                named_pairs(by_name@) == name_map(
                    named_of(all.subrange(0, i as int)),
                ),
            decreases n - i,
        {
            let ghost pre = all.subrange(0, i as int);
            let ghost next = all.subrange(0, i + 1);
            assert(next.drop_last() =~= pre);
            assert(next.last() == attrs.0@[i as int]@);
            match &attrs.0[i] {
                crate::element_attr::ElementAttr::Positional(a) => {
                    by_index.push(ElementAttr(a.clone()));
                    assert(index_values(by_index@) =~= positional_of(next));
                },
                crate::element_attr::ElementAttr::Named(k, v) => {
                    set_entry(&mut by_name, k, v);
                    assert(named_of(next) == named_of(pre).push((k@, v@)));
                    assert(named_of(next).drop_last() =~= named_of(pre));
                },
            }
            i = i + 1;
        }
        assert(all.subrange(0, n as int) =~= all);
        ElementAttrs { by_name, by_index }
    }
}

/// Sets the value of `name` in `by_name`, replacing the value it has or
/// adding it at the end.
fn set_entry(by_name: &mut Vec<(ElementName, ElementAttr)>, name: &String, value: &String)
    ensures
        named_pairs(final(by_name)@) == set_named(
            named_pairs(old(by_name)@),
            name@,
            value@,
        ),
{
    let ghost before = named_pairs(old(by_name)@);
    let mut i: usize = 0;
    assert(before.subrange(0, 0) + set_named(before.subrange(0, before.len() as int), name@, value@) =~= set_named(before, name@, value@)) by {
        assert(before.subrange(0, before.len() as int) =~= before);
    }
    while i < by_name.len()
        invariant
            i <= by_name@.len() == before.len(),
            before == named_pairs(by_name@),
            before == named_pairs(old(by_name)@),
            set_named(before, name@, value@) == before.subrange(0, i as int) + set_named(
                before.subrange(i as int, before.len() as int),
                name@,
                value@,
            ),
        decreases by_name@.len() - i,
    {
        let ghost rest = before.subrange(i as int, before.len() as int);
        assert(rest[0] == before[i as int]);
        if by_name[i].0.0 == *name {
            assert(rest[0].0 == name@);
            assert(set_named(rest, name@, value@) == rest.update(0, (name@, value@)));
            by_name.set(i, (ElementName(name.clone()), ElementAttr(value.clone())));
            assert(named_pairs(by_name@) =~= before.subrange(0, i as int) + rest.update(0, (name@, value@)));
            return;
        }
        assert(rest.drop_first() =~= before.subrange(i + 1, before.len() as int));
        assert(before.subrange(0, i as int) + (seq![rest[0]] + set_named(rest.drop_first(), name@, value@)) =~= before.subrange(0, i + 1) + set_named(rest.drop_first(), name@, value@));
        i = i + 1;
    }
    by_name.push((ElementName(name.clone()), ElementAttr(value.clone())));
    assert(before.subrange(0, i as int) =~= before);
    assert(named_pairs(by_name@) =~= before.push((name@, value@)));
    assert(before.push((name@, value@)) =~= before + seq![(name@, value@)]);
}

/// An inline span.
#[derive(Debug)]
pub struct Inline {
    pub attrs: ElementAttrs,
    pub kind: InlineKind,
}

/// What an inline span is.
#[derive(Debug)]
pub enum InlineKind {
    /// A leaf.
    Unquoted,
    /// Emphasis, strong and the other quotes.
    Quoted { ty: QuoteType, content: Vec<Inline> },
    Other { ty: String, content: Vec<Inline> },
}

/// Inline quotes, by precedence; each has a constrained and an
/// unconstrained form.
#[derive(Debug, Clone, Copy, PartialEq, Eq, Structural)]
pub enum QuoteType {
    Strong,
    Double,
    Single,
    Monospaced,
    Emphasis,
    Mark,
    Superscript,
    Subscript,
}

/// A block of the document tree.
#[derive(Debug)]
pub struct Block {
    pub attrs: Option<ElementAttrs>,
    pub anchor: Option<String>,
    pub title: Option<Vec<Inline>>,
    pub style: BlockStyle,
    pub context: BlockContext,
}

/// The style of a block.
#[derive(Debug, Clone, Copy, PartialEq, Eq, Structural)]
pub enum BlockStyle {
    Normal,
    Literal,
    Verse,
    Quote,
    Listing,
    Tip,
    Note,
    Important,
    Warning,
    Caution,
    Abstract,
    PartIntro,
    Comment,
    Example,
    Sidebar,
    Source,
}

impl Default for BlockStyle {
    fn default() -> (r: Self)
        ensures
            r == BlockStyle::Normal,
    {
        BlockStyle::Normal
    }
}

/// What a block is, with its content.
#[derive(Debug)]
pub enum BlockContext {
    Admonition(SimpleBlock),
    Audio,
    CalloutList(CompoundBlock),
    DescriptionList(CompoundBlock),
    Example(SimpleBlock),
    FloatingTitle(String),
    Image,
    ListItem(CompoundBlock),
    Listing(VerbatimBlock),
    Literal(VerbatimBlock),
    OrderedList(CompoundBlock),
    Open(BlockContent),
    PageBreak,
    Paragraph(SimpleBlock),
    Passthrough(String),
    Quote(SimpleBlock),
    Section(CompoundBlock),
    Sidebar(SimpleBlock),
    Table(CompoundBlock),
    TableCell(CompoundBlock),
    ThematicBreak,
    UnorderedList(CompoundBlock),
    Verse(SimpleBlock),
}

/// The content of an open block.
#[derive(Debug)]
pub enum BlockContent {
    Compound(CompoundBlock),
    Simple(SimpleBlock),
    Verbatim(VerbatimBlock),
    Raw(RawBlock),
    Empty,
}

/// Content made of blocks.
#[derive(Debug)]
pub struct CompoundBlock(pub Vec<Block>);

/// Content made of inline spans.
#[derive(Debug)]
pub struct SimpleBlock(pub Vec<Inline>);

/// Content copied as it is, as inline spans.
#[derive(Debug)]
pub struct VerbatimBlock(pub Vec<Inline>);

/// Content passed on raw.
#[derive(Debug, Clone)]
pub struct RawBlock(pub String);

/// The document attributes, by name.
#[derive(Debug)]
pub struct DocumentAttrs {
    pub by_name: Vec<(String, Vec<Inline>)>,
}

/// A document: its title, its attributes and its blocks.
#[derive(Debug, Default)]
pub struct Document {
    pub title: Option<String>,
    pub attrs: Option<DocumentAttrs>,
    pub blocks: Vec<Block>,
}

} // verus!
