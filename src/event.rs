//! The events that the block generator emits, and their models.

use vstd::prelude::*;
use crate::element_attr::AttrModel;
use crate::header::DocumentAttrWrap;

verus! {

/// Heading levels.
#[derive(Debug, Clone, Copy, PartialEq, Eq, Structural)]
pub enum SectionLevel {
    H1,
    H2,
    H3,
    H4,
    H5,
    H6,
}

/// Bullet styles of an unordered list.
#[derive(Debug, Clone, Copy, PartialEq, Eq, Structural)]
pub enum UnorderedListMarker {
    Square,
    Circle,
    Disc,
    NoBullet,
    Unstyled,
}

/// Numbering styles of an ordered list.
#[derive(Debug, Clone)]
pub enum OrderedListStyle {
    Arabic,
    Decimal,
    LowerAlpha,
    UpperAlpha,
    LowerRoman,
    UpperRoman,
    LowerGreek,
    Custom(String),
}

/// Layouts of a description list.
#[derive(Debug, Clone)]
pub enum DescriptionListStyle {
    Horizontal,
    QAndA,
    Marker { ordered: bool, stacked: bool, subject_stop: String },
}

/// Labels of an admonition.
#[derive(Debug, Clone, Copy, PartialEq, Eq, Structural)]
pub enum AdmonitionLabel {
    Note,
    Tip,
    Important,
    Caution,
    Warning,
}

/// The construct that a `Start` opens and an `End` closes.
#[derive(Debug, Clone)]
pub enum Tag {
    DocumentHeader,
    SectionTitle(SectionLevel),
    Paragraph,
    DiscreteHeading(SectionLevel),
    UnorderedList { level: u64, style: UnorderedListMarker },
    OrderedList { level: u64, start: i64, reversed: bool, style: OrderedListStyle },
    CheckList { level: u64 },
    DescriptionList { level: u64, style: DescriptionListStyle },
    Admonition { level: u64, label: AdmonitionLabel },
    Sidebar { level: u64 },
    Example { level: u64 },
    BlockQuote { level: u64, attribution: Option<String>, title: Option<String> },
    Verse { level: u64, attribution: Option<String>, title: Option<String> },
    Listing { source: Option<String> },
    Literal,
    Table { level: u64 },
    TableRow,
    TableCell,
    Stem { latex: bool },
    Open,
    Collapsible { open: bool },
    /// A comment block: its content is dropped.
    Comment,
    /// A passthrough block: its content is passed on raw.
    Passthrough,
}

/// The six substitution passes, each on or off.
#[derive(Debug, Clone, Copy, PartialEq, Eq, Structural)]
pub struct SubstitutionRules {
    pub special_characters: bool,
    pub quotes: bool,
    pub attributes: bool,
    pub replacements: bool,
    pub macros: bool,
    pub post_replacements: bool,
}

/// Every pass on: the rules of a paragraph.
pub open spec fn all_subs() -> SubstitutionRules {
    SubstitutionRules {
        special_characters: true,
        quotes: true,
        attributes: true,
        replacements: true,
        macros: true,
        post_replacements: true,
    }
}

/// Every pass off: the rules of verbatim and raw content.
pub open spec fn no_subs() -> SubstitutionRules {
    SubstitutionRules {
        special_characters: false,
        quotes: false,
        attributes: false,
        replacements: false,
        macros: false,
        post_replacements: false,
    }
}

impl SubstitutionRules {
    pub fn all() -> (r: Self)
        ensures
            r == all_subs(),
    {
        SubstitutionRules {
            special_characters: true,
            quotes: true,
            attributes: true,
            replacements: true,
            macros: true,
            post_replacements: true,
        }
    }

    pub fn none() -> (r: Self)
        ensures
            r == no_subs(),
    {
        SubstitutionRules {
            special_characters: false,
            quotes: false,
            attributes: false,
            replacements: false,
            macros: false,
            post_replacements: false,
        }
    }
}

/// Block attributes: positional values in order, and named values with
/// unique names.
#[derive(Debug, Clone)]
pub struct BlockAttrMap {
    pub positional: Vec<String>,
    pub named: Vec<(String, String)>,
}

/// The model of a block attribute map: the attributes in the order written.
pub open spec fn attr_map_view(m: BlockAttrMap) -> (Seq<Seq<char>>, Seq<(Seq<char>, Seq<char>)>) {
    (
        m.positional@.map_values(|s: String| s@),
        m.named@.map_values(|p: (String, String)| (p.0@, p.1@)),
    )
}

/// The positional values of a list of attributes, in order.
pub open spec fn positional_of(a: Seq<AttrModel>) -> Seq<Seq<char>>
    decreases a.len(),
{
    if a.len() == 0 {
        seq![]
    } else {
        match a.last() {
            AttrModel::Positional(v) => positional_of(a.drop_last()).push(v),
            AttrModel::Named(_, _) => positional_of(a.drop_last()),
        }
    }
}

/// The named values of a list of attributes, in order.
pub open spec fn named_of(a: Seq<AttrModel>) -> Seq<(Seq<char>, Seq<char>)>
    decreases a.len(),
{
    if a.len() == 0 {
        seq![]
    } else {
        match a.last() {
            AttrModel::Positional(_) => named_of(a.drop_last()),
            AttrModel::Named(n, v) => named_of(a.drop_last()).push((n, v)),
        }
    }
}

/// What went wrong in the input, reported right after the event it concerns.
#[derive(Debug, Clone, Copy, PartialEq, Eq, Structural)]
pub enum DiagnosticKind {
    /// A block was still open at the end of the input and was closed there.
    UnterminatedBlock,
    /// A line looked like an attribute list but is malformed; it was read as
    /// text.
    MalformedAttributeList,
}

/// One event of the block stream.
#[derive(Debug, Clone)]
pub enum BlockEvent {
    Start(Tag),
    End(Tag),
    /// A document attribute entry of the header, with its value lines; the
    /// wrap at `k` is how value line `k` continues (a soft wrap, a hard line
    /// break, or none after the last).
    DocAttribute { name: String, unset: bool, values: Vec<String>, wraps: Vec<DocumentAttrWrap> },
    Sidebar,
    BlockAttributes(BlockAttrMap),
    Text(String, SubstitutionRules),
    ImageBlockMacro {
        target: String,
        title: Option<String>,
        width: Option<u64>,
        height: Option<u64>,
        attrs: BlockAttrMap,
    },
    ThematicBreak,
    PageBreak,
    /// A problem with the input, attached to the event just before it.
    Diagnostic(DiagnosticKind),
}

/// An event as plain values.
pub enum EventModel {
    Start(Tag),
    End(Tag),
    DocAttribute {
        name: Seq<char>,
        unset: bool,
        values: Seq<Seq<char>>,
        wraps: Seq<DocumentAttrWrap>,
    },
    Sidebar,
    BlockAttributes(Seq<Seq<char>>, Seq<(Seq<char>, Seq<char>)>),
    Text(Seq<char>, SubstitutionRules),
    ImageBlockMacro {
        target: Seq<char>,
        title: Option<Seq<char>>,
        width: Option<u64>,
        height: Option<u64>,
        attrs: (Seq<Seq<char>>, Seq<(Seq<char>, Seq<char>)>),
    },
    ThematicBreak,
    PageBreak,
    Diagnostic(DiagnosticKind),
}

impl View for BlockEvent {
    type V = EventModel;

    open spec fn view(&self) -> EventModel {
        match self {
            BlockEvent::Start(t) => EventModel::Start(*t),
            BlockEvent::End(t) => EventModel::End(*t),
            BlockEvent::DocAttribute { name, unset, values, wraps } => EventModel::DocAttribute {
                name: name@,
                unset: *unset,
                values: values@.map_values(|v: String| v@),
                wraps: wraps@,
            },
            BlockEvent::Sidebar => EventModel::Sidebar,
            BlockEvent::BlockAttributes(m) => EventModel::BlockAttributes(
                attr_map_view(*m).0,
                attr_map_view(*m).1,
            ),
            BlockEvent::Text(s, r) => EventModel::Text(s@, *r),
            BlockEvent::ImageBlockMacro { target, title, width, height, attrs } =>
                EventModel::ImageBlockMacro {
                target: target@,
                title: match title {
                    Some(t) => Some(t@),
                    None => None,
                },
                width: *width,
                height: *height,
                attrs: attr_map_view(*attrs),
            },
            BlockEvent::ThematicBreak => EventModel::ThematicBreak,
            BlockEvent::PageBreak => EventModel::PageBreak,
            BlockEvent::Diagnostic(k) => EventModel::Diagnostic(*k),
        }
    }
}

/// The models of a sequence of events.
pub open spec fn events_view(v: Seq<BlockEvent>) -> Seq<EventModel> {
    v.map_values(|e: BlockEvent| e@)
}

} // verus!
