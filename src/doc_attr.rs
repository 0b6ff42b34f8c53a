//! Document attribute entries: the name of `:name:` and the value lines that
//! may continue with a soft (` \`) or hard (` + \`) wrap.

use vstd::prelude::*;
use crate::text::{chars_of, is_whitespace, is_ws, string_of_range, trim_end, trim_end_index};

verus! {

/// A character of a document attribute name.
pub open spec fn is_attr_name_char(c: char) -> bool {
    let u = c as u32;
    (0x61 <= u <= 0x7a) || (0x41 <= u <= 0x5a) || (0x30 <= u <= 0x39) || c == '_' || c == '-'
}

/// `c` with an ASCII capital letter made small.
pub open spec fn ascii_lower(c: char) -> char {
    let u = c as u32;
    if 0x41 <= u <= 0x5a {
        ((u + 32) as u8) as char
    } else {
        c
    }
}

/// The end of the run of attribute-name characters of `s` from `i`.
pub open spec fn attr_name_end(s: Seq<char>, i: int) -> int
    decreases s.len() - i,
{
    if 0 <= i < s.len() && is_attr_name_char(s[i]) {
        attr_name_end(s, i + 1)
    } else {
        i
    }
}

/// The name, made lower case, of a line that starts with `:name:`.
pub open spec fn attr_name_of(s: Seq<char>) -> Option<Seq<char>> {
    let k = attr_name_end(s, 1);
    if s.len() > 0 && s[0] == ':' && k > 1 && k < s.len() && s[k] == ':' {
        Some(s.subrange(1, k).map_values(|c: char| ascii_lower(c)))
    } else {
        None
    }
}

/// The name of a document attribute, in lower case.
#[derive(Debug, Clone)]
pub struct DocumentAttrName(pub String);

fn lower_char(c: char) -> (r: char)
    ensures
        r == ascii_lower(c),
{
    let u = c as u32;
    if 0x41 <= u && u <= 0x5a {
        ((u + 32) as u8) as char
    } else {
        c
    }
}

fn is_attr_name(c: char) -> (r: bool)
    ensures
        r == is_attr_name_char(c),
{
    let u = c as u32;
    (0x61 <= u && u <= 0x7a) || (0x41 <= u && u <= 0x5a) || (0x30 <= u && u <= 0x39) || c == '_'
        || c == '-'
}

impl DocumentAttrName {
    /// The name of the `:name:` that starts `s`, if it does.
    pub fn parse(s: &str) -> (r: Option<Self>)
        ensures
            match attr_name_of(s@) {
                Some(n) => r matches Some(x) && x.0@ == n,
                None => r is None,
            },
    {
        let v = chars_of(s);
        let n = v.len();
        if n == 0 || v[0] != ':' {
            return None;
        }
        let mut k: usize = 1;
        while k < n && is_attr_name(v[k])
            invariant
                1 <= k <= n == v@.len(),
                attr_name_end(v@, 1) == attr_name_end(v@, k as int),
            decreases n - k,
        {
            k = k + 1;
        }
        if k > 1 && k < n && v[k] == ':' {
            let mut name: Vec<char> = Vec::new();
            let mut i: usize = 1;
            while i < k
                invariant
                    1 <= i <= k < n == v@.len(),
                    name@ == v@.subrange(1, i as int).map_values(|c: char| ascii_lower(c)),
                decreases k - i,
            {
                name.push(lower_char(v[i]));
                i = i + 1;
                assert(name@ =~= v@.subrange(1, i as int).map_values(|c: char| ascii_lower(c)));
            }
            Some(DocumentAttrName(crate::text::string_of(name.as_slice())))
        } else {
            None
        }
    }
}

/// A value line and how it continues.
#[derive(Debug, Clone)]
pub enum DocumentAttrValue {
    /// The last line of a value.
    ValueLine(String),
    /// A line that continues with a soft wrap (` \`).
    ValuePartialLine(String),
    /// A line that continues with a hard line break (` + \`).
    ValuePartialLineHardBreak(String),
}

/// How a value line is read.
pub enum ValueModel {
    Line(Seq<char>),
    Partial(Seq<char>),
    HardBreak(Seq<char>),
}

/// The text of `s` before a final ` + \` (whitespace, plus, whitespace,
/// backslash), where `s` ends so. Of the whitespace before the plus, one
/// character is dropped and the rest kept.
pub open spec fn hard_break_text(s: Seq<char>) -> Option<Seq<char>> {
    if s.len() >= 1 && s.last() == '\\' {
        let body = s.drop_last();
        let t = trim_end(body);
        if t.len() < body.len() && t.len() >= 2 && t.last() == '+' && is_ws(t[t.len() - 2]) {
            Some(t.subrange(0, t.len() - 2))
        } else {
            None
        }
    } else {
        None
    }
}

/// How the value line `s` is read.
pub open spec fn value_line(s: Seq<char>) -> Option<ValueModel> {
    if hard_break_text(s) is Some {
        Some(ValueModel::HardBreak(hard_break_text(s)->0))
    } else if s.len() >= 2 && s.last() == '\\' && is_ws(s[s.len() - 2]) {
        Some(ValueModel::Partial(s.subrange(0, s.len() - 2)))
    } else if s.len() != 0 {
        Some(ValueModel::Line(s))
    } else {
        None
    }
}

impl View for DocumentAttrValue {
    type V = ValueModel;

    open spec fn view(&self) -> ValueModel {
        match self {
            DocumentAttrValue::ValueLine(s) => ValueModel::Line(s@),
            DocumentAttrValue::ValuePartialLine(s) => ValueModel::Partial(s@),
            DocumentAttrValue::ValuePartialLineHardBreak(s) => ValueModel::HardBreak(s@),
        }
    }
}

impl DocumentAttrValue {
    /// Reads one value line.
    pub fn parse(s: &str) -> (r: Option<Self>)
        ensures
            match value_line(s@) {
                Some(m) => r matches Some(x) && x@ == m,
                None => r is None,
            },
    {
        let v = chars_of(s);
        let n = v.len();
        if n >= 1 && v[n - 1] == '\\' {
            let e = trim_end_index(&v, 0, n - 1);
            assert(v@.subrange(0, n - 1) =~= v@.drop_last());
            assert(v@.subrange(0, e as int) =~= trim_end(v@.drop_last()));
            if e < n - 1 && e >= 2 && v[e - 1] == '+' && is_whitespace(v[e - 2]) {
                assert(v@.subrange(0, e as int).subrange(0, e - 2) =~= v@.subrange(0, e - 2));
                return Some(DocumentAttrValue::ValuePartialLineHardBreak(string_of_range(&v, 0, e - 2)));
            }
            assert(hard_break_text(v@) is None) by {
                let t = v@.subrange(0, e as int);
                if t.len() >= 2 {
                    assert(t.last() == v@[e - 1]);
                    assert(t[t.len() - 2] == v@[e - 2]);
                }
            }
        }
        assert(v@.subrange(0, n as int) =~= v@);
        if n >= 2 && v[n - 1] == '\\' && is_whitespace(v[n - 2]) {
            Some(DocumentAttrValue::ValuePartialLine(string_of_range(&v, 0, n - 2)))
        } else if n != 0 {
            Some(DocumentAttrValue::ValueLine(string_of_range(&v, 0, n)))
        } else {
            None
        }
    }
}

} // verus!
