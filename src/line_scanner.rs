//! The document as a table of lines with a cursor: lookahead by index,
//! classification of a line as end of input, blank or content, and the
//! commands that consume runs of lines.

use vstd::prelude::*;
use crate::delimiter::{delimiter_of, Delimiter};
use crate::ast::name_map;
use crate::element_attr::{attr_list, ElementAttrs};
use crate::event::{named_of, positional_of};
use crate::parser::{Fault, ParserError};
use crate::text::{all_ws, chars_of, is_whitespace, string_of_range};

verus! {

/// `l` without the carriage return that ends it, if one does.
pub open spec fn strip_cr(l: Seq<char>) -> Seq<char> {
    if l.len() > 0 && l.last() == '\r' {
        l.drop_last()
    } else {
        l
    }
}

/// The lines of `s[start..]` read from `i` on, after those in `acc`. A line
/// ends at `\n` (a `\r` just before it goes with it); a final line ending is
/// optional.
pub open spec fn lines_from(s: Seq<char>, start: int, i: int, acc: Seq<Seq<char>>) -> Seq<Seq<char>>
    decreases s.len() - i,
{
    if i < 0 || i >= s.len() {
        if 0 <= start < s.len() {
            acc.push(s.subrange(start, s.len() as int))
        } else {
            acc
        }
    } else if s[i] == '\n' {
        lines_from(s, i + 1, i + 1, acc.push(strip_cr(s.subrange(start, i))))
    } else {
        lines_from(s, start, i + 1, acc)
    }
}

/// The lines of the text `s`.
pub open spec fn split_lines(s: Seq<char>) -> Seq<Seq<char>> {
    lines_from(s, 0, 0, seq![])
}

/// The models of a sequence of strings.
pub open spec fn strings_view(v: Seq<String>) -> Seq<Seq<char>> {
    v.map_values(|s: String| s@)
}

/// A line of nothing but whitespace (or nothing at all).
pub open spec fn is_blank(l: Seq<char>) -> bool {
    all_ws(l)
}

/// The end of the run of blank lines from `i`.
pub open spec fn blank_end(ls: Seq<Seq<char>>, i: int) -> int
    decreases ls.len() - i,
{
    if 0 <= i < ls.len() && is_blank(ls[i]) {
        blank_end(ls, i + 1)
    } else {
        i
    }
}

/// The end of the run of non-blank lines from `i`.
pub open spec fn content_end(ls: Seq<Seq<char>>, i: int) -> int
    decreases ls.len() - i,
{
    if 0 <= i < ls.len() && !is_blank(ls[i]) {
        content_end(ls, i + 1)
    } else {
        i
    }
}

/// The first line from `i` on that is the fence `d`, or the end.
pub open spec fn fence_end(ls: Seq<Seq<char>>, i: int, d: Delimiter) -> int
    decreases ls.len() - i,
{
    if 0 <= i < ls.len() && delimiter_of(ls[i]) != Some(d) {
        fence_end(ls, i + 1, d)
    } else {
        i
    }
}

/// `p` is a prefix of `l`.
pub open spec fn has_prefix(l: Seq<char>, p: Seq<char>) -> bool {
    p.len() <= l.len() && l.subrange(0, p.len() as int) == p
}

/// The end of the run of lines from `i` that start with `p`.
pub open spec fn prefix_end(ls: Seq<Seq<char>>, i: int, p: Seq<char>) -> int
    decreases ls.len() - i,
{
    if 0 <= i < ls.len() && has_prefix(ls[i], p) {
        prefix_end(ls, i + 1, p)
    } else {
        i
    }
}

/// What a line of the document is.
pub enum LineClass {
    EndOfInput,
    BlankLine,
    Content(Seq<char>),
}

/// The class of line `i` of `ls`.
pub open spec fn class_at(ls: Seq<Seq<char>>, i: int) -> LineClass {
    if i < 0 || i >= ls.len() {
        LineClass::EndOfInput
    } else if is_blank(ls[i]) {
        LineClass::BlankLine
    } else {
        LineClass::Content(ls[i])
    }
}

/// A line as the scanner classifies it, borrowing its text.
#[derive(Debug, Clone, Copy)]
pub enum PhysicalLine<'a> {
    Eof,
    /// A line that holds nothing or only whitespace.
    Empty,
    Line(&'a str),
}

impl<'a> View for PhysicalLine<'a> {
    type V = LineClass;

    open spec fn view(&self) -> LineClass {
        match self {
            PhysicalLine::Eof => LineClass::EndOfInput,
            PhysicalLine::Empty => LineClass::BlankLine,
            PhysicalLine::Line(s) => LineClass::Content(s@),
        }
    }
}

impl<'a> PhysicalLine<'a> {
    /// The class of a line read from the document, `None` past its end.
    pub fn from_line(s: Option<&'a str>) -> (r: Self)
        ensures
            r@ == match s {
                None => LineClass::EndOfInput,
                Some(l) => if is_blank(l@) {
                    LineClass::BlankLine
                } else {
                    LineClass::Content(l@)
                },
            },
    {
        match s {
            None => PhysicalLine::Eof,
            Some(l) => {
                if is_blank_line(l) {
                    PhysicalLine::Empty
                } else {
                    PhysicalLine::Line(l)
                }
            },
        }
    }

    /// A mismatch at the end or a blank line; else what `f` makes of the
    /// line.
    pub fn flat_map_line<B, F: Fn(&'a str) -> Result<B, ParserError>>(self, f: F) -> (r: Result<B, ParserError>)
        requires
            self matches PhysicalLine::Line(l) ==> f.requires((l,)),
        ensures
            match self {
                PhysicalLine::Line(l) => f.ensures((l,), r),
                _ => r matches Err(e) && e.fault() == Fault::Mismatch,
            },
    {
        match self {
            PhysicalLine::Line(l) => f(l),
            _ => Err(ParserError::Mismatch),
        }
    }

    /// A mismatch at the end or a blank line; else `f` of the line.
    pub fn map_line<B, F: Fn(&'a str) -> B>(self, f: F) -> (r: Result<B, ParserError>)
        requires
            self matches PhysicalLine::Line(l) ==> f.requires((l,)),
        ensures
            match self {
                PhysicalLine::Line(l) => r matches Ok(b) && f.ensures((l,), b),
                _ => r matches Err(e) && e.fault() == Fault::Mismatch,
            },
    {
        match self {
            PhysicalLine::Line(l) => Ok(f(l)),
            _ => Err(ParserError::Mismatch),
        }
    }
}

/// The attribute map of the attribute list that `line` is.
fn attrs_of_line(line: &str) -> (r: Result<crate::ast::ElementAttrs, ParserError>)
    ensures
        match attr_list(line@) {
            Ok(m) => r matches Ok(x) && x.index_view() == positional_of(m) && x.named_view()
                == name_map(named_of(m)),
            Err(f) => r matches Err(e) && e.fault() == f,
        },
{
    match ElementAttrs::parse(line) {
        Ok(a) => Ok(crate::ast::ElementAttrs::from(a)),
        Err(e) => Err(e),
    }
}

/// The fence that `line` is; a mismatch otherwise.
fn delimiter_of_line(line: &str) -> (r: Result<Delimiter, ParserError>)
    ensures
        match delimiter_of(line@) {
            Some(d) => r == Ok::<Delimiter, ParserError>(d),
            None => r matches Err(e) && e.fault() == Fault::Mismatch,
        },
{
    match Delimiter::parse(line) {
        Some(d) => Ok(d),
        None => Err(ParserError::Mismatch),
    }
}

/// A copy of `line`.
fn owned_line(line: &str) -> (r: String)
    ensures
        r@ == line@,
{
    line.to_owned()
}

/// Whether `s` holds only whitespace.
pub fn is_blank_line(s: &str) -> (r: bool)
    ensures
        r == is_blank(s@),
{
    let v = chars_of(s);
    let mut i: usize = 0;
    while i < v.len()
        invariant
            i <= v@.len(),
            v@ == s@,
            forall|k: int| 0 <= k < i ==> crate::text::is_ws(#[trigger] v@[k]),
        decreases v@.len() - i,
    {
        if !is_whitespace(v[i]) {
            return false;
        }
        i = i + 1;
    }
    true
}

/// The lines of `source`.
pub fn split_into_lines(source: &str) -> (r: Vec<String>)
    ensures
        strings_view(r@) == split_lines(source@),
{
    let v = chars_of(source);
    let n = v.len();
    let mut lines: Vec<String> = Vec::new();
    let mut start: usize = 0;
    let mut i: usize = 0;
    assert(strings_view(lines@) =~= seq![]);
    while i < n
        invariant
            start <= i <= n == v@.len(),
            v@ == source@,
            split_lines(v@) == lines_from(v@, start as int, i as int, strings_view(lines@)),
        decreases n - i,
    {
        if v[i] == '\n' {
            let end = if i > start && v[i - 1] == '\r' {
                i - 1
            } else {
                i
            };
            proof {
                let l = v@.subrange(start as int, i as int);
                if l.len() > 0 {
                    assert(l.last() == v@[i - 1]);
                    assert(l.drop_last() =~= v@.subrange(start as int, i - 1));
                }
            }
            let line = string_of_range(&v, start, end);
            assert(strings_view(lines@.push(line)) =~= strings_view(lines@).push(line@));
            lines.push(line);
            start = i + 1;
        }
        i = i + 1;
    }
    if start < n {
        let line = string_of_range(&v, start, n);
        assert(strings_view(lines@.push(line)) =~= strings_view(lines@).push(line@));
        lines.push(line);
    }
    lines
}

/// A lookahead scanner over the lines of a document. Between commands the
/// cursor is at the start of a line.
pub struct LineScanner {
    lines: Vec<String>,
    pos: usize,
}

impl LineScanner {
    /// The lines of the document.
    pub closed spec fn text(&self) -> Seq<Seq<char>> {
        strings_view(self.lines@)
    }

    /// The index of the line under the cursor.
    pub closed spec fn cursor(&self) -> int {
        self.pos as int
    }

    pub closed spec fn wf(&self) -> bool {
        self.pos <= self.lines@.len()
    }

    /// A well-formed scanner has its cursor on a line of the document or
    /// just past the last one.
    pub proof fn lemma_cursor_in_range(&self)
        requires
            self.wf(),
        ensures
            0 <= self.cursor() <= self.text().len(),
    {
    }

    /// A scanner at the first line of `source`.
    pub fn new(source: &str) -> (r: Self)
        ensures
            r.wf(),
            r.text() == split_lines(source@),
            r.cursor() == 0,
    {
        LineScanner { lines: split_into_lines(source), pos: 0 }
    }

    /// The line `n` lines ahead of the cursor, classified.
    pub fn peek_nth(&self, n: usize) -> (r: PhysicalLine<'_>)
        requires
            self.wf(),
        ensures
            r@ == class_at(self.text(), self.cursor() + n),
    {
        if n >= self.lines.len() - self.pos {
            return PhysicalLine::from_line(None);
        }
        PhysicalLine::from_line(Some(self.lines[self.pos + n].as_str()))
    }

    /// The line under the cursor, classified.
    pub fn peek_line(&self) -> (r: PhysicalLine<'_>)
        requires
            self.wf(),
        ensures
            r@ == class_at(self.text(), self.cursor()),
    {
        self.peek_nth(0)
    }

    /// The line under the cursor as it is, or `None` at the end.
    pub fn peek(&self) -> (r: Option<&str>)
        requires
            self.wf(),
        ensures
            self.cursor() < self.text().len() ==> (r matches Some(s) && s@ == self.text()[self.cursor()]),
            self.cursor() >= self.text().len() ==> r is None,
    {
        if self.pos < self.lines.len() {
            Some(self.lines[self.pos].as_str())
        } else {
            None
        }
    }

    /// The cursor is at a blank line (not at the end).
    pub fn peek_empty(&self) -> (r: bool)
        requires
            self.wf(),
        ensures
            r == (class_at(self.text(), self.cursor()) is BlankLine),
    {
        match self.peek_line() {
            PhysicalLine::Empty => true,
            _ => false,
        }
    }

    /// The cursor is at the end of the input.
    pub fn peek_eof(&self) -> (r: bool)
        requires
            self.wf(),
        ensures
            r == (self.cursor() >= self.text().len()),
    {
        self.pos >= self.lines.len()
    }

    /// The attribute map of the attribute list that the line under the
    /// cursor is; a mismatch at a blank line or the end.
    pub fn peek_element_attrs(&self) -> (r: Result<crate::ast::ElementAttrs, ParserError>)
        requires
            self.wf(),
        ensures
            match class_at(self.text(), self.cursor()) {
                LineClass::Content(l) => match attr_list(l) {
                    Ok(m) => r matches Ok(x) && x.index_view() == positional_of(m) && x.named_view()
                        == name_map(named_of(m)),
                    Err(f) => r matches Err(e) && e.fault() == f,
                },
                _ => r matches Err(e) && e.fault() == Fault::Mismatch,
            },
    {
        self.peek_line().flat_map_line(attrs_of_line)
    }

    /// The fence that the line under the cursor is; a mismatch otherwise.
    pub fn peek_delimiter(&self) -> (r: Result<Delimiter, ParserError>)
        requires
            self.wf(),
        ensures
            match class_at(self.text(), self.cursor()) {
                LineClass::Content(l) => match delimiter_of(l) {
                    Some(d) => r == Ok::<Delimiter, ParserError>(d),
                    None => r matches Err(e) && e.fault() == Fault::Mismatch,
                },
                _ => r matches Err(e) && e.fault() == Fault::Mismatch,
            },
    {
        self.peek_line().flat_map_line(delimiter_of_line)
    }

    /// A copy of the line under the cursor; a mismatch at a blank line or
    /// the end.
    pub fn peek_non_empty_line(&self) -> (r: Result<String, ParserError>)
        requires
            self.wf(),
        ensures
            match class_at(self.text(), self.cursor()) {
                LineClass::Content(l) => r matches Ok(s) && s@ == l,
                _ => r matches Err(e) && e.fault() == Fault::Mismatch,
            },
    {
        self.peek_line().map_line(owned_line)
    }

    /// Moves to the next line; nothing at the end.
    pub fn advance(&mut self)
        requires
            old(self).wf(),
        ensures
            final(self).wf(),
            final(self).text() == old(self).text(),
            final(self).cursor() == if old(self).cursor() < old(self).text().len() {
                old(self).cursor() + 1
            } else {
                old(self).cursor()
            },
    {
        if self.pos < self.lines.len() {
            self.pos = self.pos + 1;
        }
    }

    /// Moves `n` lines on, or to the end.
    pub fn advance_by(&mut self, n: usize)
        requires
            old(self).wf(),
        ensures
            final(self).wf(),
            final(self).text() == old(self).text(),
            final(self).cursor() == if old(self).cursor() + n <= old(self).text().len() {
                old(self).cursor() + n
            } else {
                old(self).text().len() as int
            },
    {
        let mut k: usize = 0;
        while k < n
            invariant
                self.wf(),
                self.text() == old(self).text(),
                k <= n,
                self.cursor() == if old(self).cursor() + k <= old(self).text().len() {
                    old(self).cursor() + k
                } else {
                    old(self).text().len() as int
                },
            decreases n - k,
        {
            self.advance();
            k = k + 1;
        }
    }

    /// Moves to the next line where `x` is a success; hands `x` back.
    pub fn advance_if_ok<T>(&mut self, x: Result<T, ParserError>) -> (r: Result<T, ParserError>)
        requires
            old(self).wf(),
        ensures
            r == x,
            final(self).wf(),
            final(self).text() == old(self).text(),
            final(self).cursor() == if x is Ok && old(self).cursor() < old(self).text().len() {
                old(self).cursor() + 1
            } else {
                old(self).cursor()
            },
    {
        if x.is_ok() {
            self.advance();
        }
        x
    }

    /// Consumes the run of blank lines at the cursor; whether there was one.
    pub fn empty_lines(&mut self) -> (r: bool)
        requires
            old(self).wf(),
        ensures
            final(self).wf(),
            final(self).text() == old(self).text(),
            final(self).cursor() == blank_end(old(self).text(), old(self).cursor()),
            r == (final(self).cursor() != old(self).cursor()),
    {
        let mut empty = false;
        while self.peek_empty()
            invariant
                self.wf(),
                self.text() == old(self).text(),
                old(self).cursor() <= self.cursor(),
                blank_end(self.text(), old(self).cursor()) == blank_end(self.text(), self.cursor()),
                empty == (self.cursor() != old(self).cursor()),
            decreases self.text().len() - self.cursor(),
        {
            self.advance();
            empty = true;
        }
        empty
    }

    /// Consumes and returns the lines up to the next blank line or the end.
    pub fn contiguous_lines(&mut self) -> (r: Vec<String>)
        requires
            old(self).wf(),
        ensures
            final(self).wf(),
            final(self).text() == old(self).text(),
            final(self).cursor() == content_end(old(self).text(), old(self).cursor()),
            strings_view(r@) == old(self).text().subrange(old(self).cursor(), final(self).cursor()),
    {
        let mut lines: Vec<String> = Vec::new();
        loop
            invariant
                self.wf(),
                self.text() == old(self).text(),
                old(self).cursor() <= self.cursor(),
                content_end(self.text(), old(self).cursor()) == content_end(self.text(), self.cursor()),
                strings_view(lines@) == self.text().subrange(old(self).cursor(), self.cursor()),
            ensures
                content_end(self.text(), self.cursor()) == self.cursor(),
            decreases self.text().len() - self.cursor(),
        {
            match self.peek_line() {
                PhysicalLine::Line(l) => {
                    let owned = l.to_owned();
                    proof {
                        let a = strings_view(lines@.push(owned));
                        let b = self.text().subrange(old(self).cursor(), self.cursor() + 1);
                        assert(strings_view(lines@).len() == lines@.len());
                        assert(self.cursor() < self.text().len());
                        assert(a.len() == b.len());
                        assert forall|k: int| 0 <= k < a.len() implies a[k] == b[k] by {
                            if k < a.len() - 1 {
                                assert(a[k] == strings_view(lines@)[k]);
                            } else {
                                assert(a[k] == owned@);
                            }
                        }
                        assert(a =~= b);
                    }
                    lines.push(owned);
                },
                _ => break,
            }
            self.advance();
        }
        lines
    }

    /// Where the cursor is at a fence: consumes it, the lines up to the
    /// next line that is the same fence, and that line (or up to the end if
    /// none is), and returns the lines between. Elsewhere consumes nothing.
    pub fn delimited_block(&mut self) -> (r: Vec<String>)
        requires
            old(self).wf(),
        ensures
            final(self).wf(),
            final(self).text() == old(self).text(),
            ({
                let ls = old(self).text();
                let p = old(self).cursor();
                match class_at(ls, p) {
                    LineClass::Content(l) if delimiter_of(l) is Some => {
                        let e = fence_end(ls, p + 1, delimiter_of(l)->0);
                        &&& strings_view(r@) == ls.subrange(p + 1, e)
                        &&& final(self).cursor() == if e < ls.len() { e + 1 } else { e }
                    },
                    _ => r@.len() == 0 && final(self).cursor() == p,
                }
            }),
    {
        let d = match self.peek_delimiter() {
            Ok(d) => d,
            Err(_) => return Vec::new(),
        };
        self.advance();
        let start: usize = self.pos;
        let mut lines: Vec<String> = Vec::new();
        while self.pos < self.lines.len() && !is_fence(self.lines[self.pos].as_str(), d)
            invariant
                self.wf(),
                self.text() == old(self).text(),
                start as int <= self.cursor() <= self.text().len(),
                fence_end(self.text(), start as int, d) == fence_end(self.text(), self.cursor(), d),
                strings_view(lines@) == self.text().subrange(start as int, self.cursor()),
            decreases self.text().len() - self.cursor(),
        {
            let owned = self.lines[self.pos].clone();
            proof {
                let a = strings_view(lines@.push(owned));
                let b = self.text().subrange(start as int, self.cursor() + 1);
                assert(strings_view(lines@).len() == lines@.len());
                assert(self.cursor() < self.text().len());
                assert(owned@ == self.text()[self.cursor()]);
                assert(a.len() == lines@.len() + 1);
                assert(b.len() == self.cursor() + 1 - start as int);
                assert(lines@.len() == self.cursor() - start as int);
                assert(a.len() == b.len());
                assert forall|k: int| 0 <= k < a.len() implies a[k] == b[k] by {
                    if k < a.len() - 1 {
                        assert(a[k] == strings_view(lines@)[k]);
                    } else {
                        assert(a[k] == owned@);
                    }
                }
                assert(a =~= b);
            }
            lines.push(owned);
            self.advance();
        }
        self.advance();
        lines
    }

    /// Consumes the lines from the cursor that start with `prefix` and
    /// returns them without it.
    pub fn prefixed_block(&mut self, prefix: &str) -> (r: Vec<String>)
        requires
            old(self).wf(),
        ensures
            final(self).wf(),
            final(self).text() == old(self).text(),
            final(self).cursor() == prefix_end(old(self).text(), old(self).cursor(), prefix@),
            r@.len() == final(self).cursor() - old(self).cursor(),
            forall|k: int| 0 <= k < r@.len() ==> #[trigger] r@[k]@ == ({
                let l = old(self).text()[old(self).cursor() + k];
                l.subrange(prefix@.len() as int, l.len() as int)
            }),
    {
        let p = chars_of(prefix);
        let mut lines: Vec<String> = Vec::new();
        let ghost start = self.cursor();
        while self.pos < self.lines.len() && starts_with(self.lines[self.pos].as_str(), &p)
            invariant
                self.wf(),
                self.text() == old(self).text(),
                p@ == prefix@,
                start == old(self).cursor(),
                start <= self.cursor(),
                prefix_end(self.text(), start, p@) == prefix_end(self.text(), self.cursor(), p@),
                lines@.len() == self.cursor() - start,
                forall|k: int| 0 <= k < lines@.len() ==> #[trigger] lines@[k]@ == ({
                    let l = self.text()[start + k];
                    l.subrange(p@.len() as int, l.len() as int)
                }),
            decreases self.text().len() - self.cursor(),
        {
            let l = chars_of(self.lines[self.pos].as_str());
            let rest = string_of_range(&l, p.len(), l.len());
            lines.push(rest);
            self.advance();
        }
        lines
    }
}

/// Whether the line `s` is the fence `d`.
pub fn is_fence(s: &str, d: Delimiter) -> (r: bool)
    ensures
        r == (delimiter_of(s@) == Some(d)),
{
    match Delimiter::parse(s) {
        Some(x) => x == d,
        None => false,
    }
}

/// Whether `p` is a prefix of `s`.
fn starts_with(s: &str, p: &Vec<char>) -> (r: bool)
    ensures
        r == has_prefix(s@, p@),
{
    let v = chars_of(s);
    if p.len() > v.len() {
        return false;
    }
    let mut i: usize = 0;
    while i < p.len()
        invariant
            p@.len() <= v@.len(),
            v@ == s@,
            i <= p@.len(),
            forall|k: int| 0 <= k < i ==> v@[k] == p@[k],
        decreases p@.len() - i,
    {
        if v[i] != p[i] {
            assert(v@.subrange(0, p@.len() as int)[i as int] != p@[i as int]);
            return false;
        }
        i = i + 1;
    }
    assert(v@.subrange(0, p@.len() as int) =~= p@);
    true
}

} // verus!
