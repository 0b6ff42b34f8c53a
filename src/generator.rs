//! The block event generator: a pull parser that drives the line scanner,
//! the fence recognizer, the attribute-list scanner and the header tokenizer,
//! and keeps a stack of open blocks so that every `Start` is matched by an
//! `End` in proper nesting.
//!
//! The document is read one step at a time. The first step reads the header
//! (a title line and the lines after it up to a blank line). Each later step,
//! in this order of precedence: at the end of the input closes every open
//! block, innermost first, each with a diagnostic; inside a verbatim, raw or
//! comment block copies (or drops) the lines up to the closing fence, or
//! closes the block at it; skips a run of blank lines; closes the innermost
//! block at its own fence, or opens a block at any other fence; reports a
//! line that is an attribute list; or reads a paragraph, the run of lines up
//! to a blank line or a fence.

use vstd::prelude::*;
use crate::delimiter::{default_of, delimiter_of, Content, Delimiter};
use crate::doc_attr::{value_line, ValueModel};
use crate::element_attr::ElementAttr;
use crate::event::{
    all_subs, named_of, no_subs, positional_of, DiagnosticKind, EventModel, Tag,
};
use crate::header::{attr_entry_of, opt_seq, title_of, DocumentAttrWrap, HeaderModel};
use crate::element_attr::attr_list;
use crate::line_scanner::{
    blank_end, fence_end, is_blank, is_blank_line, is_fence, split_into_lines, split_lines,
    strings_view,
};
use crate::parser::Fault;
use crate::text::{chars_of, string_of, string_of_range, trim, trim_end_index, trim_start_index};
use crate::doc_attr::DocumentAttrValue;
use crate::element_attr::ElementAttrs;
use crate::event::{attr_map_view, events_view, BlockAttrMap, BlockEvent, SubstitutionRules};
use crate::header::{attr_token, title_token, HeaderLineToken};

verus! {

/// An open block: the fence that opened it and how many blocks enclose it.
#[derive(Debug, Clone, Copy, PartialEq, Eq, Structural)]
pub struct Frame {
    pub delimiter: Delimiter,
    pub level: usize,
}

/// How the lines inside a block are read.
#[derive(Debug, Clone, Copy, PartialEq, Eq, Structural)]
pub enum Mode {
    /// Read for blocks, attribute lists and paragraphs.
    Blocks,
    /// Copied as they are up to the closing fence.
    Verbatim,
    /// Dropped up to the closing fence.
    Discard,
}

/// How the lines inside a block opened by `d` are read.
pub open spec fn mode_of(d: Delimiter) -> Mode {
    match default_of(d).1 {
        Some(Content::Verbatim) => Mode::Verbatim,
        Some(Content::Raw) => Mode::Verbatim,
        None => Mode::Discard,
        _ => Mode::Blocks,
    }
}

/// The tag of a block opened by `d` inside `level` other blocks.
pub open spec fn tag_of(d: Delimiter, level: usize) -> Tag {
    match d {
        Delimiter::Open => Tag::Open,
        Delimiter::Table(_, _) => Tag::Table { level: level as u64 },
        Delimiter::NonTable(c, _) => {
            if c == '/' {
                Tag::Comment
            } else if c == '=' {
                Tag::Example { level: level as u64 }
            } else if c == '-' {
                Tag::Listing { source: None }
            } else if c == '.' {
                Tag::Literal
            } else if c == '*' {
                Tag::Sidebar { level: level as u64 }
            } else if c == '+' {
                Tag::Passthrough
            } else {
                Tag::BlockQuote { level: level as u64, attribution: None, title: None }
            }
        },
    }
}

/// The tag of an open block.
pub open spec fn frame_tag(f: Frame) -> Tag {
    tag_of(f.delimiter, f.level)
}

/// Where the generator stands: the next line, the open blocks (innermost
/// last), and whether the header has been read.
pub struct GenState {
    pub pos: nat,
    pub stack: Seq<Frame>,
    pub started: bool,
}

/// The lines `ls[i..hi]` joined with `\n`, after `acc`.
pub open spec fn join_rest(ls: Seq<Seq<char>>, i: int, hi: int, acc: Seq<char>) -> Seq<char>
    decreases hi - i,
{
    if i < hi {
        join_rest(ls, i + 1, hi, acc + seq!['\n'] + ls[i])
    } else {
        acc
    }
}

/// The lines `ls[lo..hi]` joined with `\n`.
pub open spec fn joined(ls: Seq<Seq<char>>, lo: int, hi: int) -> Seq<char> {
    if lo < hi {
        join_rest(ls, lo + 1, hi, ls[lo])
    } else {
        seq![]
    }
}

/// The end of the run of paragraph lines from `i`: lines that are neither
/// blank nor a fence.
pub open spec fn para_end(ls: Seq<Seq<char>>, i: int) -> int
    decreases ls.len() - i,
{
    if 0 <= i < ls.len() && !is_blank(ls[i]) && delimiter_of(ls[i]) is None {
        para_end(ls, i + 1)
    } else {
        i
    }
}

/// End events, innermost first, each followed by its diagnostic, for every
/// block of `stack`.
pub open spec fn close_all(stack: Seq<Frame>) -> Seq<EventModel>
    decreases stack.len(),
{
    if stack.len() == 0 {
        seq![]
    } else {
        seq![
            EventModel::End(frame_tag(stack.last())),
            EventModel::Diagnostic(DiagnosticKind::UnterminatedBlock),
        ] + close_all(stack.drop_last())
    }
}

/// The value lines that continue an attribute entry from line `i`, after
/// `vals`, and the line after them.
pub open spec fn continuation(ls: Seq<Seq<char>>, i: int, vals: Seq<Seq<char>>) -> (Seq<Seq<char>>, int)
    decreases ls.len() - i,
{
    if i < 0 || i >= ls.len() || is_blank(ls[i]) {
        (vals, i)
    } else {
        match value_line(ls[i]) {
            Some(ValueModel::Partial(t)) => continuation(ls, i + 1, vals.push(t)),
            Some(ValueModel::HardBreak(t)) => continuation(ls, i + 1, vals.push(t)),
            Some(ValueModel::Line(t)) => (vals.push(t), i + 1),
            None => (vals, i),
        }
    }
}

/// How each continuation line from line `i` goes on, after `wraps`: in
/// step with `continuation`.
pub open spec fn continuation_wraps(ls: Seq<Seq<char>>, i: int, wraps: Seq<DocumentAttrWrap>) -> Seq<DocumentAttrWrap>
    decreases ls.len() - i,
{
    if i < 0 || i >= ls.len() || is_blank(ls[i]) {
        wraps
    } else {
        match value_line(ls[i]) {
            Some(ValueModel::Partial(_)) => continuation_wraps(ls, i + 1, wraps.push(DocumentAttrWrap::SoftWrap)),
            Some(ValueModel::HardBreak(_)) => continuation_wraps(ls, i + 1, wraps.push(DocumentAttrWrap::HardWrap)),
            Some(ValueModel::Line(_)) => wraps.push(DocumentAttrWrap::NoWrap),
            None => wraps,
        }
    }
}

/// The wraps of an entry's own value line and of its continuation lines
/// from line `i`.
pub open spec fn entry_wraps(ls: Seq<Seq<char>>, i: int, value: Option<Seq<char>>, wrap: DocumentAttrWrap) -> Seq<DocumentAttrWrap> {
    let w0 = if value is Some { seq![wrap] } else { seq![] };
    if wrap == DocumentAttrWrap::NoWrap {
        w0
    } else {
        continuation_wraps(ls, i, w0)
    }
}

pub proof fn lemma_continuation(ls: Seq<Seq<char>>, i: int, vals: Seq<Seq<char>>)
    requires
        0 <= i,
    ensures
        i <= continuation(ls, i, vals).1,
        i <= ls.len() ==> continuation(ls, i, vals).1 <= ls.len(),
    decreases ls.len() - i,
{
    if i < ls.len() && !is_blank(ls[i]) {
        match value_line(ls[i]) {
            Some(ValueModel::Partial(t)) => lemma_continuation(ls, i + 1, vals.push(t)),
            Some(ValueModel::HardBreak(t)) => lemma_continuation(ls, i + 1, vals.push(t)),
            _ => {},
        }
    }
}

/// The events of the header lines from `i` on (after the title), after
/// `acc`, and the line after them: a `DocAttribute` for an attribute entry
/// with its continuation lines, a `Text` for any other line.
pub open spec fn header_lines(ls: Seq<Seq<char>>, i: int, acc: Seq<EventModel>) -> (Seq<EventModel>, int)
    decreases ls.len() - i,
{
    if i < 0 || i >= ls.len() || is_blank(ls[i]) {
        (acc, i)
    } else {
        match attr_entry_of(ls[i]) {
            Some(HeaderModel::Attr { attr, unset, value, wrap }) => {
                let c = if wrap == DocumentAttrWrap::NoWrap {
                    (opt_seq(value), i + 1)
                } else {
                    continuation(ls, i + 1, opt_seq(value))
                };
                proof {
                    lemma_continuation(ls, i + 1, opt_seq(value));
                }
                header_lines(
                    ls,
                    c.1,
                    acc.push(EventModel::DocAttribute { name: attr, unset, values: c.0, wraps: entry_wraps(ls, i + 1, value, wrap) }),
                )
            },
            _ => header_lines(ls, i + 1, acc.push(EventModel::Text(trim(ls[i]), all_subs()))),
        }
    }
}

pub proof fn lemma_header_lines(ls: Seq<Seq<char>>, i: int, acc: Seq<EventModel>)
    requires
        0 <= i <= ls.len(),
    ensures
        i <= header_lines(ls, i, acc).1 <= ls.len(),
    decreases ls.len() - i,
{
    if i < ls.len() && !is_blank(ls[i]) {
        match attr_entry_of(ls[i]) {
            Some(HeaderModel::Attr { attr, unset, value, wrap }) => {
                lemma_continuation(ls, i + 1, opt_seq(value));
                let c = if wrap == DocumentAttrWrap::NoWrap {
                    (opt_seq(value), i + 1)
                } else {
                    continuation(ls, i + 1, opt_seq(value))
                };
                lemma_header_lines(
                    ls,
                    c.1,
                    acc.push(EventModel::DocAttribute { name: attr, unset, values: c.0, wraps: entry_wraps(ls, i + 1, value, wrap) }),
                );
            },
            _ => {
                lemma_header_lines(ls, i + 1, acc.push(EventModel::Text(trim(ls[i]), all_subs())));
            },
        }
    }
}

/// The header read at line `p`: where the line is a document title, the
/// title and the header lines after it between `Start` and `End` of the
/// header, and the line after them; else nothing.
pub open spec fn header_step(ls: Seq<Seq<char>>, p: nat) -> (nat, Seq<EventModel>) {
    if p < ls.len() && title_of(ls[p as int]) is Some {
        let h = header_lines(ls, (p + 1) as int, seq![]);
        (
            if h.1 >= 0 { h.1 as nat } else { p },
            seq![
                EventModel::Start(Tag::DocumentHeader),
                EventModel::Text(title_of(ls[p as int])->0, all_subs()),
            ] + h.0 + seq![EventModel::End(Tag::DocumentHeader)],
        )
    } else {
        (p, seq![])
    }
}

/// One step after the header: the next state and the events emitted.
pub open spec fn step(ls: Seq<Seq<char>>, st: GenState) -> (GenState, Seq<EventModel>) {
    let p = st.pos as int;
    let stack = st.stack;
    let popped = GenState { pos: (p + 1) as nat, stack: stack.drop_last(), started: true };
    if p >= ls.len() {
        (GenState { pos: st.pos, stack: seq![], started: true }, close_all(stack))
    } else if stack.len() > 0 && mode_of(stack.last().delimiter) != Mode::Blocks {
        let top = stack.last();
        if delimiter_of(ls[p]) == Some(top.delimiter) {
            (popped, seq![EventModel::End(frame_tag(top))])
        } else {
            let e = fence_end(ls, p, top.delimiter);
            (
                GenState { pos: e as nat, stack, started: true },
                if mode_of(top.delimiter) == Mode::Discard {
                    seq![]
                } else {
                    seq![EventModel::Text(joined(ls, p, e), no_subs())]
                },
            )
        }
    } else if is_blank(ls[p]) {
        (GenState { pos: blank_end(ls, p) as nat, stack, started: true }, seq![])
    } else if delimiter_of(ls[p]) is Some {
        let d = delimiter_of(ls[p])->0;
        if stack.len() > 0 && stack.last().delimiter == d {
            (popped, seq![EventModel::End(frame_tag(stack.last()))])
        } else {
            let f = Frame { delimiter: d, level: stack.len() as usize };
            (
                GenState { pos: (p + 1) as nat, stack: stack.push(f), started: true },
                seq![EventModel::Start(frame_tag(f))],
            )
        }
    } else {
        match attr_list(ls[p]) {
            Ok(a) => (
                GenState { pos: (p + 1) as nat, stack, started: true },
                seq![EventModel::BlockAttributes(positional_of(a), named_of(a))],
            ),
            Err(f) => {
                let e = para_end(ls, p);
                (
                    GenState { pos: e as nat, stack, started: true },
                    seq![EventModel::Text(joined(ls, p, e), all_subs())] + if f == Fault::Fail {
                        seq![EventModel::Diagnostic(DiagnosticKind::MalformedAttributeList)]
                    } else {
                        seq![]
                    },
                )
            },
        }
    }
}

/// How many lines the generator has still to read.
pub open spec fn lines_left(ls: Seq<Seq<char>>, st: GenState) -> int {
    if st.pos < ls.len() {
        ls.len() - st.pos
    } else {
        0
    }
}

/// The generator has nothing more to emit.
pub open spec fn finished(ls: Seq<Seq<char>>, st: GenState) -> bool {
    st.started && st.pos >= ls.len() && st.stack.len() == 0
}

pub proof fn lemma_fence_end(ls: Seq<Seq<char>>, i: int, d: Delimiter)
    requires
        0 <= i <= ls.len(),
    ensures
        i <= fence_end(ls, i, d) <= ls.len(),
        fence_end(ls, i, d) < ls.len() ==> delimiter_of(ls[fence_end(ls, i, d)]) == Some(d),
        forall|k: int| i <= k < fence_end(ls, i, d) ==> delimiter_of(#[trigger] ls[k]) != Some(d),
    decreases ls.len() - i,
{
    if i < ls.len() && delimiter_of(ls[i]) != Some(d) {
        lemma_fence_end(ls, i + 1, d);
    }
}

pub proof fn lemma_blank_end(ls: Seq<Seq<char>>, i: int)
    requires
        0 <= i <= ls.len(),
    ensures
        i <= blank_end(ls, i) <= ls.len(),
    decreases ls.len() - i,
{
    if i < ls.len() && is_blank(ls[i]) {
        lemma_blank_end(ls, i + 1);
    }
}

pub proof fn lemma_para_end(ls: Seq<Seq<char>>, i: int)
    requires
        0 <= i <= ls.len(),
    ensures
        i <= para_end(ls, i) <= ls.len(),
    decreases ls.len() - i,
{
    if i < ls.len() && !is_blank(ls[i]) && delimiter_of(ls[i]) is None {
        lemma_para_end(ls, i + 1);
    }
}

/// A step that is taken moves on: to a later line, or (at the end) to an
/// empty stack.
pub proof fn lemma_step_progress(ls: Seq<Seq<char>>, st: GenState)
    requires
        st.started,
        !finished(ls, st),
    ensures
        ({
            let st2 = step(ls, st).0;
            &&& st2.started
            &&& st.pos < ls.len() ==> st.pos < st2.pos <= ls.len()
            &&& st.pos >= ls.len() ==> st2.pos == st.pos && st2.stack.len() < st.stack.len()
        }),
{
    let p = st.pos as int;
    if p < ls.len() {
        if st.stack.len() > 0 {
            lemma_fence_end(ls, p + 1, st.stack.last().delimiter);
        }
        lemma_blank_end(ls, p + 1);
        lemma_para_end(ls, p + 1);
    }
}

/// The events of the document from state `st` to the end.
pub open spec fn events_from(ls: Seq<Seq<char>>, st: GenState) -> Seq<EventModel>
    decreases lines_left(ls, st), st.stack.len(), if st.started { 0int } else { 1int },
{
    if !st.started {
        let h = header_step(ls, st.pos);
        proof {
            if st.pos < ls.len() {
                lemma_header_lines(ls, (st.pos + 1) as int, seq![]);
            }
        }
        h.1 + events_from(ls, GenState { pos: h.0, stack: st.stack, started: true })
    } else if finished(ls, st) {
        seq![]
    } else {
        let s = step(ls, st);
        proof {
            lemma_step_progress(ls, st);
        }
        s.1 + events_from(ls, s.0)
    }
}

/// The state before the first line of a document.
pub open spec fn initial() -> GenState {
    GenState { pos: 0, stack: seq![], started: false }
}

/// Every event of the document `s`, in order.
pub open spec fn document_events(s: Seq<char>) -> Seq<EventModel> {
    events_from(split_lines(s), initial())
}

fn tag_for(d: Delimiter, level: usize) -> (r: Tag)
    ensures
        r == tag_of(d, level),
{
    match d {
        Delimiter::Open => Tag::Open,
        Delimiter::Table(_, _) => Tag::Table { level: level as u64 },
        Delimiter::NonTable(c, _) => {
            if c == '/' {
                Tag::Comment
            } else if c == '=' {
                Tag::Example { level: level as u64 }
            } else if c == '-' {
                Tag::Listing { source: None }
            } else if c == '.' {
                Tag::Literal
            } else if c == '*' {
                Tag::Sidebar { level: level as u64 }
            } else if c == '+' {
                Tag::Passthrough
            } else {
                Tag::BlockQuote { level: level as u64, attribution: None, title: None }
            }
        },
    }
}

fn mode_for(d: Delimiter) -> (r: Mode)
    requires
        d.wf(),
    ensures
        r == mode_of(d),
{
    match d.default_context_content().1 {
        Some(Content::Verbatim) => Mode::Verbatim,
        Some(Content::Raw) => Mode::Verbatim,
        None => Mode::Discard,
        _ => Mode::Blocks,
    }
}

/// The block attributes of an attribute list.
fn attr_map(a: &ElementAttrs) -> (r: BlockAttrMap)
    ensures
        attr_map_view(r) == (positional_of(a@), named_of(a@)),
{
    let mut positional: Vec<String> = Vec::new();
    let mut named: Vec<(String, String)> = Vec::new();
    let mut i: usize = 0;
    assert(positional@.map_values(|s: String| s@) =~= positional_of(a@.subrange(0, 0)));
    assert(named@.map_values(|p: (String, String)| (p.0@, p.1@)) =~= named_of(a@.subrange(0, 0)));
    while i < a.0.len()
        invariant
            i <= a@.len(),
            a@.len() == a.0@.len(),
            positional@.map_values(|s: String| s@) == positional_of(a@.subrange(0, i as int)),
            named@.map_values(|p: (String, String)| (p.0@, p.1@)) == named_of(a@.subrange(0, i as int)),
        decreases a@.len() - i,
    {
        let ghost pre = a@.subrange(0, i as int);
        let ghost next = a@.subrange(0, i + 1);
        assert(next.drop_last() =~= pre);
        assert(next.last() == a.0@[i as int]@);
        match &a.0[i] {
            ElementAttr::Positional(v) => {
                positional.push(v.clone());
                assert(positional@.map_values(|s: String| s@) =~= positional_of(next));
                assert(named@.map_values(|p: (String, String)| (p.0@, p.1@)) =~= named_of(next));
            },
            ElementAttr::Named(n, v) => {
                named.push((n.clone(), v.clone()));
                assert(positional@.map_values(|s: String| s@) =~= positional_of(next));
                assert(named@.map_values(|p: (String, String)| (p.0@, p.1@)) =~= named_of(next));
            },
        }
        i = i + 1;
    }
    assert(a@.subrange(0, a@.len() as int) =~= a@);
    BlockAttrMap { positional, named }
}

/// A pull parser that turns a document into block events.
pub struct BlockParser {
    lines: Vec<String>,
    pos: usize,
    stack: Vec<Frame>,
    started: bool,
    pending: Vec<BlockEvent>,
}

impl BlockParser {
    /// The lines of the document.
    pub closed spec fn text(&self) -> Seq<Seq<char>> {
        strings_view(self.lines@)
    }

    /// Where the parser stands, past the events it holds back.
    pub closed spec fn state(&self) -> GenState {
        GenState { pos: self.pos as nat, stack: self.stack@, started: self.started }
    }

    /// The events still to come, in order.
    pub closed spec fn remaining(&self) -> Seq<EventModel> {
        events_view(self.pending@) + events_from(self.text(), self.state())
    }

    pub closed spec fn wf(&self) -> bool {
        &&& self.pos <= self.lines@.len()
        &&& forall|i: int| 0 <= i < self.stack@.len() ==> (#[trigger] self.stack@[i]).delimiter.wf()
    }

    /// A parser at the start of `source`.
    pub fn new(source: &str) -> (r: Self)
        ensures
            r.wf(),
            r.remaining() == document_events(source@),
    {
        let r = BlockParser {
            lines: split_into_lines(source),
            pos: 0,
            stack: Vec::new(),
            started: false,
            pending: Vec::new(),
        };
        assert(events_view(r.pending@) =~= seq![]);
        assert(r.state() == initial());
        assert(r.remaining() =~= document_events(source@));
        r
    }

    fn blank_at(&self, i: usize) -> (r: bool)
        requires
            i < self.lines@.len(),
        ensures
            r == is_blank(self.text()[i as int]),
    {
        is_blank_line(self.lines[i].as_str())
    }

    fn skip_blank(&self, i: usize) -> (r: usize)
        requires
            i <= self.lines@.len(),
        ensures
            r == blank_end(self.text(), i as int),
    {
        let mut j: usize = i;
        while j < self.lines.len() && self.blank_at(j)
            invariant
                i <= j <= self.lines@.len(),
                self.text().len() == self.lines@.len(),
                blank_end(self.text(), i as int) == blank_end(self.text(), j as int),
            decreases self.lines@.len() - j,
        {
            j = j + 1;
        }
        j
    }

    fn fence_run_end(&self, i: usize, d: Delimiter) -> (r: usize)
        requires
            i <= self.lines@.len(),
        ensures
            r == fence_end(self.text(), i as int, d),
    {
        let mut j: usize = i;
        while j < self.lines.len() && !is_fence(self.lines[j].as_str(), d)
            invariant
                i <= j <= self.lines@.len(),
                self.text().len() == self.lines@.len(),
                fence_end(self.text(), i as int, d) == fence_end(self.text(), j as int, d),
            decreases self.lines@.len() - j,
        {
            j = j + 1;
        }
        j
    }

    fn para_run_end(&self, i: usize) -> (r: usize)
        requires
            i <= self.lines@.len(),
        ensures
            r == para_end(self.text(), i as int),
    {
        let mut j: usize = i;
        while j < self.lines.len() && !self.blank_at(j) && Delimiter::parse(
            self.lines[j].as_str(),
        ).is_none()
            invariant
                i <= j <= self.lines@.len(),
                self.text().len() == self.lines@.len(),
                para_end(self.text(), i as int) == para_end(self.text(), j as int),
            decreases self.lines@.len() - j,
        {
            j = j + 1;
        }
        j
    }

    /// The lines `lo..hi` joined with line feeds.
    fn join(&self, lo: usize, hi: usize) -> (r: String)
        requires
            lo < hi <= self.lines@.len(),
        ensures
            r@ == joined(self.text(), lo as int, hi as int),
    {
        let mut acc = chars_of(self.lines[lo].as_str());
        let mut i: usize = lo + 1;
        while i < hi
            invariant
                lo < i <= hi <= self.lines@.len(),
                self.text().len() == self.lines@.len(),
                joined(self.text(), lo as int, hi as int) == join_rest(
                    self.text(),
                    i as int,
                    hi as int,
                    acc@,
                ),
            decreases hi - i,
        {
            let ghost before = acc@;
            acc.push('\n');
            let mut line = chars_of(self.lines[i].as_str());
            acc.append(&mut line);
            assert(acc@ =~= before + seq!['\n'] + self.text()[i as int]);
            i = i + 1;
        }
        string_of(acc.as_slice())
    }

    /// The line `i` without leading and trailing whitespace.
    fn trimmed(&self, i: usize) -> (r: String)
        requires
            i < self.lines@.len(),
        ensures
            r@ == trim(self.text()[i as int]),
    {
        let v = chars_of(self.lines[i].as_str());
        let n = v.len();
        let e = trim_end_index(&v, 0, n);
        let b = trim_start_index(&v, 0, e);
        assert(v@.subrange(0, n as int) =~= v@);
        string_of_range(&v, b, e)
    }

    /// The value lines that continue an attribute entry from line `i0`.
    fn continuation_lines(&self, i0: usize, vals0: Vec<String>, wraps0: Vec<DocumentAttrWrap>) -> (r: (usize, Vec<String>, Vec<DocumentAttrWrap>))
        requires
            i0 <= self.lines@.len(),
        ensures
            (strings_view(r.1@), r.0 as int) == continuation(
                self.text(),
                i0 as int,
                strings_view(vals0@),
            ),
            r.2@ == continuation_wraps(self.text(), i0 as int, wraps0@),
            r.0 <= self.lines@.len(),
    {
        let mut vals = vals0;
        let mut wraps = wraps0;
        let mut i: usize = i0;
        while i < self.lines.len() && !self.blank_at(i)
            invariant
                i0 <= i <= self.lines@.len(),
                self.text().len() == self.lines@.len(),
                continuation(self.text(), i0 as int, strings_view(vals0@)) == continuation(
                    self.text(),
                    i as int,
                    strings_view(vals@),
                ),
                continuation_wraps(self.text(), i0 as int, wraps0@) == continuation_wraps(
                    self.text(),
                    i as int,
                    wraps@,
                ),
            decreases self.lines@.len() - i,
        {
            match DocumentAttrValue::parse(self.lines[i].as_str()) {
                Some(DocumentAttrValue::ValuePartialLine(t)) => {
                    assert(strings_view(vals@.push(t)) =~= strings_view(vals@).push(t@));
                    vals.push(t);
                    wraps.push(DocumentAttrWrap::SoftWrap);
                },
                Some(DocumentAttrValue::ValuePartialLineHardBreak(t)) => {
                    assert(strings_view(vals@.push(t)) =~= strings_view(vals@).push(t@));
                    vals.push(t);
                    wraps.push(DocumentAttrWrap::HardWrap);
                },
                Some(DocumentAttrValue::ValueLine(t)) => {
                    assert(strings_view(vals@.push(t)) =~= strings_view(vals@).push(t@));
                    vals.push(t);
                    wraps.push(DocumentAttrWrap::NoWrap);
                    return (i + 1, vals, wraps);
                },
                None => {
                    return (i, vals, wraps);
                },
            }
            i = i + 1;
        }
        (i, vals, wraps)
    }

    /// The header at the cursor.
    fn header(&self) -> (r: (usize, Vec<BlockEvent>))
        requires
            self.pos <= self.lines@.len(),
        ensures
            (r.0 as nat, events_view(r.1@)) == header_step(self.text(), self.pos as nat),
            self.pos <= r.0 <= self.lines@.len(),
    {
        let p = self.pos;
        let mut out: Vec<BlockEvent> = Vec::new();
        if p >= self.lines.len() {
            assert(events_view(out@) =~= seq![]);
            return (p, out);
        }
        let v = chars_of(self.lines[p].as_str());
        let title = match title_token(&v) {
            Some(t) => t,
            None => {
                assert(events_view(out@) =~= seq![]);
                return (p, out);
            },
        };
        let ghost ls = self.text();
        let mut acc: Vec<BlockEvent> = Vec::new();
        let mut i: usize = p + 1;
        assert(events_view(acc@) =~= seq![]);
        while i < self.lines.len() && !self.blank_at(i)
            invariant
                p + 1 <= i <= self.lines@.len(),
                ls == self.text(),
                ls.len() == self.lines@.len(),
                header_lines(ls, p + 1, seq![]) == header_lines(ls, i as int, events_view(acc@)),
            decreases self.lines@.len() - i,
        {
            let w = chars_of(self.lines[i].as_str());
            match attr_token(&w) {
                Some(HeaderLineToken::DocumentAttr { attr, unset, value, wrap }) => {
                    let mut vals: Vec<String> = Vec::new();
                    let mut wraps: Vec<DocumentAttrWrap> = Vec::new();
                    let ghost vs = match attr_entry_of(ls[i as int]) {
                        Some(HeaderModel::Attr { attr, unset, value, wrap }) => value,
                        _ => None,
                    };
                    match value {
                        Some(x) => {
                            vals.push(x);
                            wraps.push(wrap);
                        },
                        None => {},
                    }
                    assert(strings_view(vals@) =~= opt_seq(vs));
                    assert(wraps@ =~= (if vs is Some { seq![wrap] } else { seq![] }));
                    let (j, vals2, wraps2) = if wrap == DocumentAttrWrap::NoWrap {
                        (i + 1, vals, wraps)
                    } else {
                        self.continuation_lines(i + 1, vals, wraps)
                    };
                    proof {
                        lemma_continuation(ls, i + 1, opt_seq(vs));
                    }
                    let ev = BlockEvent::DocAttribute { name: attr, unset, values: vals2, wraps: wraps2 };
                    assert(events_view(acc@.push(ev)) =~= events_view(acc@).push(ev@));
                    acc.push(ev);
                    i = j;
                },
                _ => {
                    let ev = BlockEvent::Text(self.trimmed(i), SubstitutionRules::all());
                    assert(events_view(acc@.push(ev)) =~= events_view(acc@).push(ev@));
                    acc.push(ev);
                    i = i + 1;
                },
            }
        }
        out.push(BlockEvent::Start(Tag::DocumentHeader));
        out.push(BlockEvent::Text(title, SubstitutionRules::all()));
        out.append(&mut acc);
        out.push(BlockEvent::End(Tag::DocumentHeader));
        proof {
            lemma_header_lines(ls, p + 1, seq![]);
        }
        assert(events_view(out@) =~= header_step(ls, p as nat).1);
        (i, out)
    }

    /// Ends every open block, innermost first, each with a diagnostic.
    fn close_all_blocks(&mut self)
        requires
            old(self).pending@.len() == 0,
        ensures
            final(self).lines == old(self).lines,
            final(self).pos == old(self).pos,
            final(self).started == old(self).started,
            final(self).stack@.len() == 0,
            events_view(final(self).pending@) == close_all(old(self).stack@),
    {
        assert(events_view(self.pending@) =~= seq![]);
        while self.stack.len() > 0
            invariant
                self.lines == old(self).lines,
                self.pos == old(self).pos,
                self.started == old(self).started,
                close_all(old(self).stack@) == events_view(self.pending@) + close_all(self.stack@),
            decreases self.stack@.len(),
        {
            let ghost before = self.stack@;
            let top = self.stack.pop().unwrap();
            let tag = tag_for(top.delimiter, top.level);
            let e1 = BlockEvent::End(tag);
            let e2 = BlockEvent::Diagnostic(DiagnosticKind::UnterminatedBlock);
            let ghost pv = events_view(self.pending@);
            self.pending.push(e1);
            self.pending.push(e2);
            assert(events_view(self.pending@) =~= pv + seq![e1@, e2@]);
        }
        assert(events_view(self.pending@) + close_all(self.stack@) =~= events_view(self.pending@));
    }

    /// Takes one step: fills the held-back events and moves the state on.
    fn step(&mut self)
        requires
            old(self).wf(),
            old(self).started,
            !finished(old(self).text(), old(self).state()),
            old(self).pending@.len() == 0,
        ensures
            final(self).wf(),
            final(self).text() == old(self).text(),
            final(self).state() == step(old(self).text(), old(self).state()).0,
            events_view(final(self).pending@) == step(old(self).text(), old(self).state()).1,
    {
        let ghost ls = self.text();
        let ghost st = self.state();
        let n = self.lines.len();
        let p = self.pos;
        if p >= n {
            self.close_all_blocks();
            assert(self.stack@ =~= seq![]);
            return;
        }
        let depth = self.stack.len();
        if depth > 0 {
            let top = self.stack[depth - 1];
            assert(top.delimiter.wf());
            let mode = mode_for(top.delimiter);
            if mode != Mode::Blocks {
                if is_fence(self.lines[p].as_str(), top.delimiter) {
                    self.stack.pop();
                    self.pending.push(BlockEvent::End(tag_for(top.delimiter, top.level)));
                    self.pos = p + 1;
                    assert(events_view(self.pending@) =~= step(ls, st).1);
                    assert(self.stack@ =~= st.stack.drop_last());
                    return;
                }
                let e = self.fence_run_end(p, top.delimiter);
                proof {
                    lemma_fence_end(ls, p as int, top.delimiter);
                }
                if mode == Mode::Verbatim {
                    proof {
                        lemma_fence_end(ls, p + 1, top.delimiter);
                    }
                    let text = self.join(p, e);
                    self.pending.push(BlockEvent::Text(text, SubstitutionRules::none()));
                }
                self.pos = e;
                assert(events_view(self.pending@) =~= step(ls, st).1);
                return;
            }
        }
        if self.blank_at(p) {
            self.pos = self.skip_blank(p);
            proof {
                lemma_blank_end(ls, p as int);
            }
            assert(events_view(self.pending@) =~= step(ls, st).1);
            return;
        }
        match Delimiter::parse(self.lines[p].as_str()) {
            Some(d) => {
                if depth > 0 && self.stack[depth - 1].delimiter == d {
                    let top = self.stack.pop().unwrap();
                    self.pending.push(BlockEvent::End(tag_for(top.delimiter, top.level)));
                    assert(self.stack@ =~= st.stack.drop_last());
                } else {
                    let f = Frame { delimiter: d, level: depth };
                    self.stack.push(f);
                    self.pending.push(BlockEvent::Start(tag_for(d, depth)));
                }
                self.pos = p + 1;
                assert(events_view(self.pending@) =~= step(ls, st).1);
                return;
            },
            None => {},
        }
        match ElementAttrs::parse(self.lines[p].as_str()) {
            Ok(a) => {
                self.pending.push(BlockEvent::BlockAttributes(attr_map(&a)));
                self.pos = p + 1;
            },
            Err(err) => {
                let e = self.para_run_end(p);
                proof {
                    lemma_para_end(ls, p + 1);
                }
                let text = self.join(p, e);
                self.pending.push(BlockEvent::Text(text, SubstitutionRules::all()));
                if !err.mismatches() {
                    self.pending.push(BlockEvent::Diagnostic(DiagnosticKind::MalformedAttributeList));
                }
                self.pos = e;
            },
        }
        assert(events_view(self.pending@) =~= step(ls, st).1);
    }

    /// The next event, or `None` once the document is done. The events come
    /// in the order of `document_events` of the text the parser was made
    /// from.
    pub fn next(&mut self) -> (r: Option<BlockEvent>)
        requires
            old(self).wf(),
        ensures
            final(self).wf(),
            match r {
                Some(e) => old(self).remaining() == seq![e@] + final(self).remaining(),
                None => old(self).remaining().len() == 0 && final(self).remaining().len() == 0,
            },
    {
        loop
            invariant
                self.wf(),
                self.remaining() == old(self).remaining(),
            decreases lines_left(self.text(), self.state()), self.state().stack.len(), if self.started {
                0int
            } else {
                1int
            },
        {
            if self.pending.len() > 0 {
                let ghost before = events_view(self.pending@);
                let e = self.pending.remove(0);
                assert(before =~= seq![e@] + events_view(self.pending@));
                return Some(e);
            }
            assert(events_view(self.pending@) =~= seq![]);
            if !self.started {
                let (e, evs) = self.header();
                self.pending = evs;
                self.pos = e;
                self.started = true;
                continue;
            }
            if self.pos >= self.lines.len() && self.stack.len() == 0 {
                assert(finished(self.text(), self.state()));
                return None;
            }
            proof {
                lemma_step_progress(self.text(), self.state());
            }
            self.step();
        }
    }
}

/// Every event of `source`, in order.
pub fn parse_all(source: &str) -> (r: Vec<BlockEvent>)
    ensures
        events_view(r@) == document_events(source@),
{
    let mut parser = BlockParser::new(source);
    let mut out: Vec<BlockEvent> = Vec::new();
    loop
        invariant
            parser.wf(),
            events_view(out@) + parser.remaining() == document_events(source@),
        decreases parser.remaining().len(),
    {
        match parser.next() {
            Some(e) => {
                assert(events_view(out@.push(e)) =~= events_view(out@).push(e@));
                out.push(e);
            },
            None => {
                assert(events_view(out@) + parser.remaining() =~= events_view(out@));
                return out;
            },
        }
    }
}

} // verus!
