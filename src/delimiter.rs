//! Block fences: `--` opens an open block, a run of four or more of one fence
//! character opens any other delimited block, and a table character followed
//! by three or more `=` opens a table.

use vstd::prelude::*;
use crate::text::chars_of;

verus! {

/// How a block holds its content.
#[derive(PartialEq, Eq, Structural, Clone, Copy, Debug)]
pub enum Content {
    Compound,
    Simple,
    Verbatim,
    Table,
    Raw,
}

/// What a block is.
#[derive(PartialEq, Eq, Structural, Clone, Copy, Debug)]
pub enum Context {
    Admonition,
    Audio,
    CalloutList,
    DescriptionList,
    Example,
    FloatingTitle,
    Image,
    ListItem,
    Listing,
    Literal,
    OrderedList,
    Open,
    PageBreak,
    Paragraph,
    Passthrough,
    Quote,
    Section,
    Sidebar,
    Table,
    TableCell,
    ThematicBreak,
    UnorderedList,
    Verse,
}

/// A recognized fence line.
#[derive(PartialEq, Eq, Structural, Clone, Copy, Debug)]
pub enum Delimiter {
    /// An open block, `--`.
    Open,
    /// A non-table block: (fence character, length).
    NonTable(char, usize),
    /// A table block: (table character, length). The length counts the
    /// table character.
    Table(char, usize),
}

/// A character that repeated forms a non-table fence.
pub open spec fn is_fence_char(c: char) -> bool {
    c == '/' || c == '=' || c == '-' || c == '.' || c == '*' || c == '+' || c == '_'
}

/// A character that opens a table fence.
pub open spec fn is_table_char(c: char) -> bool {
    c == '|' || c == ';' || c == ':' || c == '!'
}

/// The fence that the line `s` is, if any.
pub open spec fn delimiter_of(s: Seq<char>) -> Option<Delimiter> {
    if s == seq!['-', '-'] {
        Some(Delimiter::Open)
    } else if s.len() >= 4 && is_fence_char(s[0]) && (forall|i: int| 0 <= i < s.len() ==> #[trigger] s[i] == s[0]) {
        Some(Delimiter::NonTable(s[0], s.len() as usize))
    } else if s.len() >= 4 && is_table_char(s[0]) && (forall|i: int| 1 <= i < s.len() ==> #[trigger] s[i] == '=') {
        Some(Delimiter::Table(s[0], s.len() as usize))
    } else {
        None
    }
}

/// The default context and content of a fence.
pub open spec fn default_of(d: Delimiter) -> (Option<Context>, Option<Content>) {
    match d {
        Delimiter::Open => (Some(Context::Open), Some(Content::Compound)),
        Delimiter::Table(_, _) => (Some(Context::Table), Some(Content::Table)),
        Delimiter::NonTable(c, _) => {
            if c == '=' {
                (Some(Context::Example), Some(Content::Compound))
            } else if c == '-' {
                (Some(Context::Listing), Some(Content::Verbatim))
            } else if c == '.' {
                (Some(Context::Literal), Some(Content::Verbatim))
            } else if c == '*' {
                (Some(Context::Sidebar), Some(Content::Compound))
            } else if c == '+' {
                (Some(Context::Passthrough), Some(Content::Raw))
            } else if c == '_' {
                (Some(Context::Quote), Some(Content::Compound))
            } else {
                (None, None)
            }
        },
    }
}

/// Whether every character of `v` from `from` on is `c`.
fn all_from(v: &Vec<char>, from: usize, c: char) -> (r: bool)
    requires
        from <= v@.len(),
    ensures
        r == (forall|i: int| from <= i < v@.len() ==> #[trigger] v@[i] == c),
{
    let mut i: usize = from;
    while i < v.len()
        invariant
            from <= i <= v@.len(),
            forall|k: int| from <= k < i ==> #[trigger] v@[k] == c,
        decreases v@.len() - i,
    {
        if v[i] != c {
            return false;
        }
        i = i + 1;
    }
    true
}

impl Delimiter {
    /// The fence of a stripped line, if it is one.
    pub fn parse(s: &str) -> (r: Option<Delimiter>)
        ensures
            r == delimiter_of(s@),
            r matches Some(d) ==> d.wf(),
    {
        let v = chars_of(s);
        let n = v.len();
        if n == 2 && v[0] == '-' && v[1] == '-' {
            assert(v@ =~= seq!['-', '-']);
            return Some(Delimiter::Open);
        }
        if n < 4 {
            assert(v@ != seq!['-', '-'] || n == 2);
            return None;
        }
        let c = v[0];
        if (c == '/' || c == '=' || c == '-' || c == '.' || c == '*' || c == '+' || c == '_')
            && all_from(&v, 0, c) {
            Some(Delimiter::NonTable(c, n))
        } else if (c == '|' || c == ';' || c == ':' || c == '!') && all_from(&v, 1, '=') {
            Some(Delimiter::Table(c, n))
        } else {
            None
        }
    }

    /// A fence that `parse` can return.
    pub open spec fn wf(&self) -> bool {
        match self {
            Delimiter::Open => true,
            Delimiter::NonTable(c, n) => is_fence_char(*c) && *n >= 4,
            Delimiter::Table(c, n) => is_table_char(*c) && *n >= 4,
        }
    }

    /// The default context and content of this fence; a comment fence (`/`)
    /// has neither.
    pub fn default_context_content(&self) -> (r: (Option<Context>, Option<Content>))
        requires
            self.wf(),
        ensures
            r == default_of(*self),
    {
        match self {
            Delimiter::Open => (Some(Context::Open), Some(Content::Compound)),
            Delimiter::Table(_, _) => (Some(Context::Table), Some(Content::Table)),
            Delimiter::NonTable(c, _) => {
                let c = *c;
                if c == '=' {
                    (Some(Context::Example), Some(Content::Compound))
                } else if c == '-' {
                    (Some(Context::Listing), Some(Content::Verbatim))
                } else if c == '.' {
                    (Some(Context::Literal), Some(Content::Verbatim))
                } else if c == '*' {
                    (Some(Context::Sidebar), Some(Content::Compound))
                } else if c == '+' {
                    (Some(Context::Passthrough), Some(Content::Raw))
                } else if c == '_' {
                    (Some(Context::Quote), Some(Content::Compound))
                } else {
                    (None, None)
                }
            },
        }
    }
}

/// A fence line as its character and its length.
#[derive(Debug, Clone, PartialEq, Eq)]
pub struct BlockDelimiter {
    pub delimiter: String,
    pub level: usize,
}

impl BlockDelimiter {
    /// The fence that `value` is: its first character and its length.
    pub fn try_from(value: &str) -> (r: Result<BlockDelimiter, ()>)
        ensures
            r is Ok <==> delimiter_of(value@) is Some,
            r matches Ok(b) ==> b.delimiter@ == value@.subrange(0, 1) && b.level == value@.len(),
    {
        match Delimiter::parse(value) {
            None => Err(()),
            Some(_) => {
                let v = chars_of(value);
                Ok(
                    BlockDelimiter {
                        delimiter: crate::text::string_of_range(&v, 0, 1),
                        level: v.len(),
                    },
                )
            },
        }
    }
}

} // verus!
