//! Bracketed attribute lists: `[pos, "quoted, value", name=value]`.
//!
//! After the opening bracket the scanner repeatedly skips whitespace, stops on
//! the closing bracket, fails on the end of the line, or reads one attribute
//! followed by optional whitespace and an optional comma. Only whitespace may
//! follow the closing bracket.

use vstd::prelude::*;
use crate::parser::{Fault, Parser, ParserError};
use crate::text::{chars_of, is_whitespace, is_ws, string_of};

verus! {

/// An attribute as the grammar sees it.
pub enum AttrModel {
    Positional(Seq<char>),
    Named(Seq<char>, Seq<char>),
}

/// A character of an unquoted value.
pub open spec fn is_unquoted_char(c: char) -> bool {
    c != ',' && c != '\'' && c != '"' && c != ']' && !is_ws(c)
}

/// A character of an attribute name.
pub open spec fn is_name_char(c: char) -> bool {
    is_unquoted_char(c) && c != '='
}

/// The end of the whitespace run of `s` that starts at `i`.
pub open spec fn ws_end(s: Seq<char>, i: int) -> int
    decreases s.len() - i,
{
    if 0 <= i < s.len() && is_ws(s[i]) {
        ws_end(s, i + 1)
    } else {
        i
    }
}

/// The end of the run of unquoted-value characters of `s` that starts at `i`.
pub open spec fn unquoted_end(s: Seq<char>, i: int) -> int
    decreases s.len() - i,
{
    if 0 <= i < s.len() && is_unquoted_char(s[i]) {
        unquoted_end(s, i + 1)
    } else {
        i
    }
}

/// The end of the run of name characters of `s` that starts at `i`.
pub open spec fn name_end(s: Seq<char>, i: int) -> int
    decreases s.len() - i,
{
    if 0 <= i < s.len() && is_name_char(s[i]) {
        name_end(s, i + 1)
    } else {
        i
    }
}

/// The rest of a value quoted by `q`, read from `i` (just after the opening
/// quote) onto `acc`: the value and the position after the closing quote, or
/// `None` where the line ends first. A backslash escapes the quote character
/// and nothing else.
pub open spec fn quoted_from(s: Seq<char>, i: int, q: char, acc: Seq<char>) -> Option<(Seq<char>, int)>
    decreases s.len() - i,
{
    if i < 0 || i >= s.len() {
        None
    } else if s[i] == '\\' && i + 1 < s.len() && s[i + 1] == q {
        quoted_from(s, i + 2, q, acc.push(q))
    } else if s[i] == q {
        Some((acc, i + 1))
    } else {
        quoted_from(s, i + 1, q, acc.push(s[i]))
    }
}

/// A quote character opens a quoted value.
pub open spec fn is_quote(c: char) -> bool {
    c == '"' || c == '\''
}

/// The value of a named attribute, read from `i`: a quoted value, or the run
/// of unquoted-value characters (possibly empty). `None` where a quoted value
/// is not closed.
pub open spec fn value_at(s: Seq<char>, i: int) -> Option<(Seq<char>, int)> {
    if 0 <= i < s.len() && is_quote(s[i]) {
        quoted_from(s, i + 1, s[i], seq![])
    } else {
        Some((s.subrange(i, unquoted_end(s, i)), unquoted_end(s, i)))
    }
}

/// One attribute read from `i`, and the position after it (and after the
/// whitespace that follows a bare name); `None` where it is malformed.
pub open spec fn attr_at(s: Seq<char>, i: int) -> Option<(AttrModel, int)> {
    if 0 <= i < s.len() && is_quote(s[i]) {
        match quoted_from(s, i + 1, s[i], seq![]) {
            Some((v, e)) => Some((AttrModel::Positional(v), e)),
            None => None,
        }
    } else {
        let e1 = name_end(s, i);
        let e2 = ws_end(s, e1);
        if e1 == i {
            None
        } else if 0 <= e2 < s.len() && s[e2] == '=' {
            match value_at(s, ws_end(s, e2 + 1)) {
                Some((v, e)) => Some((AttrModel::Named(s.subrange(i, e1), v), e)),
                None => None,
            }
        } else {
            Some((AttrModel::Positional(s.subrange(i, e1)), e2))
        }
    }
}

/// Some named attribute of `attrs` has the name `n`.
pub open spec fn has_name(attrs: Seq<AttrModel>, n: Seq<char>) -> bool {
    exists|k: int| 0 <= k < attrs.len() && (#[trigger] attrs[k] matches AttrModel::Named(m, _) && m == n)
}

/// The position after the separator (optional whitespace and an optional
/// comma) that starts at `e`.
pub open spec fn after_separator(s: Seq<char>, e: int) -> int {
    let e2 = ws_end(s, e);
    if 0 <= e2 < s.len() && s[e2] == ',' {
        e2 + 1
    } else {
        e2
    }
}

/// The attributes from `i` on, after those in `acc`, up to and past the
/// closing bracket.
pub open spec fn list_from(s: Seq<char>, i: int, acc: Seq<AttrModel>) -> Result<Seq<AttrModel>, Fault>
    decreases s.len() - i,
{
    let j = ws_end(s, i);
    if 0 <= j < s.len() && s[j] == ']' {
        if ws_end(s, j + 1) == s.len() {
            Ok(acc)
        } else {
            Err(Fault::Fail)
        }
    } else if j < 0 || j >= s.len() {
        Err(Fault::Fail)
    } else {
        match attr_at(s, j) {
            None => Err(Fault::Fail),
            Some((a, e)) => {
                if a matches AttrModel::Named(n, _) && has_name(acc, n) {
                    Err(Fault::Fail)
                } else {
                    proof {
                        lemma_ws_end(s, i);
                        lemma_attr_at_advances(s, j);
                        lemma_ws_end(s, e);
                    }
                    list_from(s, after_separator(s, e), acc.push(a))
                }
            }
        }
    }
}

/// The attribute list at the start of `s`: a mismatch unless `s` opens with
/// `[` not followed by whitespace; otherwise the attributes, or a failure.
pub open spec fn attr_list(s: Seq<char>) -> Result<Seq<AttrModel>, Fault> {
    if s.len() == 0 || s[0] != '[' {
        Err(Fault::Mismatch)
    } else if 1 < s.len() && is_ws(s[1]) {
        Err(Fault::Mismatch)
    } else {
        list_from(s, 1, seq![])
    }
}

pub proof fn lemma_ws_end(s: Seq<char>, i: int)
    requires
        0 <= i <= s.len(),
    ensures
        i <= ws_end(s, i) <= s.len(),
        forall|k: int| i <= k < ws_end(s, i) ==> is_ws(#[trigger] s[k]),
        ws_end(s, i) < s.len() ==> !is_ws(s[ws_end(s, i)]),
    decreases s.len() - i,
{
    if i < s.len() && is_ws(s[i]) {
        lemma_ws_end(s, i + 1);
    }
}

pub proof fn lemma_unquoted_end(s: Seq<char>, i: int)
    requires
        0 <= i <= s.len(),
    ensures
        i <= unquoted_end(s, i) <= s.len(),
        forall|k: int| i <= k < unquoted_end(s, i) ==> is_unquoted_char(#[trigger] s[k]),
        unquoted_end(s, i) < s.len() ==> !is_unquoted_char(s[unquoted_end(s, i)]),
    decreases s.len() - i,
{
    if i < s.len() && is_unquoted_char(s[i]) {
        lemma_unquoted_end(s, i + 1);
    }
}

pub proof fn lemma_name_end(s: Seq<char>, i: int)
    requires
        0 <= i <= s.len(),
    ensures
        i <= name_end(s, i) <= s.len(),
        forall|k: int| i <= k < name_end(s, i) ==> is_name_char(#[trigger] s[k]),
        name_end(s, i) < s.len() ==> !is_name_char(s[name_end(s, i)]),
    decreases s.len() - i,
{
    if i < s.len() && is_name_char(s[i]) {
        lemma_name_end(s, i + 1);
    }
}

pub proof fn lemma_quoted_from(s: Seq<char>, i: int, q: char, acc: Seq<char>)
    requires
        0 <= i,
    ensures
        quoted_from(s, i, q, acc) matches Some((v, e)) ==> i < e <= s.len(),
    decreases s.len() - i,
{
    if i < s.len() {
        if s[i] == '\\' && i + 1 < s.len() && s[i + 1] == q {
            lemma_quoted_from(s, i + 2, q, acc.push(q));
        } else if s[i] != q {
            lemma_quoted_from(s, i + 1, q, acc.push(s[i]));
        }
    }
}

pub proof fn lemma_attr_at_advances(s: Seq<char>, i: int)
    requires
        0 <= i < s.len(),
    ensures
        attr_at(s, i) matches Some((a, e)) ==> i < e <= s.len(),
{
    if is_quote(s[i]) {
        lemma_quoted_from(s, i + 1, s[i], seq![]);
    } else {
        lemma_name_end(s, i);
        let e1 = name_end(s, i);
        lemma_ws_end(s, e1);
        let e2 = ws_end(s, e1);
        if e1 != i && e2 < s.len() && s[e2] == '=' {
            lemma_ws_end(s, e2 + 1);
            let e3 = ws_end(s, e2 + 1);
            if e3 < s.len() && is_quote(s[e3]) {
                lemma_quoted_from(s, e3 + 1, s[e3], seq![]);
            } else {
                lemma_unquoted_end(s, e3);
            }
        }
    }
}

/// One attribute of a list.
#[derive(Debug, Clone)]
pub enum ElementAttr {
    Positional(String),
    Named(String, String),
}

impl View for ElementAttr {
    type V = AttrModel;

    open spec fn view(&self) -> AttrModel {
        match self {
            ElementAttr::Positional(v) => AttrModel::Positional(v@),
            ElementAttr::Named(n, v) => AttrModel::Named(n@, v@),
        }
    }
}

impl PartialEq for ElementAttr {
    fn eq(&self, other: &ElementAttr) -> (r: bool) {
        match (self, other) {
            (ElementAttr::Positional(a), ElementAttr::Positional(b)) => *a == *b,
            (ElementAttr::Named(a, x), ElementAttr::Named(b, y)) => *a == *b && *x == *y,
            _ => false,
        }
    }
}

impl vstd::std_specs::cmp::PartialEqSpecImpl for ElementAttr {
    open spec fn obeys_eq_spec() -> bool {
        true
    }

    open spec fn eq_spec(&self, other: &ElementAttr) -> bool {
        self@ == other@
    }
}

impl Eq for ElementAttr {}

/// An attribute list: its attributes in the order written.
#[derive(Debug, Clone)]
pub struct ElementAttrs(pub Vec<ElementAttr>);

/// The models of a sequence of attributes.
pub open spec fn attrs_view(v: Seq<ElementAttr>) -> Seq<AttrModel> {
    v.map_values(|a: ElementAttr| a@)
}

impl View for ElementAttrs {
    type V = Seq<AttrModel>;

    open spec fn view(&self) -> Seq<AttrModel> {
        attrs_view(self.0@)
    }
}

impl PartialEq for ElementAttrs {
    fn eq(&self, other: &ElementAttrs) -> (r: bool) {
        if self.0.len() != other.0.len() {
            assert(self@.len() != other@.len());
            return false;
        }
        let mut i: usize = 0;
        while i < self.0.len()
            invariant
                self.0@.len() == other.0@.len(),
                i <= self.0@.len(),
                forall|k: int| 0 <= k < i ==> self.0@[k]@ == other.0@[k]@,
            decreases self.0@.len() - i,
        {
            if !(self.0[i] == other.0[i]) {
                assert(self@[i as int] != other@[i as int]);
                return false;
            }
            i = i + 1;
        }
        assert(self@ =~= other@);
        true
    }
}

impl vstd::std_specs::cmp::PartialEqSpecImpl for ElementAttrs {
    open spec fn obeys_eq_spec() -> bool {
        true
    }

    open spec fn eq_spec(&self, other: &ElementAttrs) -> bool {
        self@ == other@
    }
}

impl Eq for ElementAttrs {}

/// The model of a parse outcome.
pub open spec fn outcome(r: Result<ElementAttrs, ParserError>) -> Result<Seq<AttrModel>, Fault> {
    match r {
        Ok(a) => Ok(a@),
        Err(e) => Err(e.fault()),
    }
}

impl ElementAttrs {
    /// Reads the attribute list at the start of `s`.
    pub fn parse(s: &str) -> (r: Result<ElementAttrs, ParserError>)
        ensures
            outcome(r) == attr_list(s@),
    {
        let mut attrs: Vec<ElementAttr> = Vec::new();
        let mut scanner = ElementAttrScanner::new(s);
        if scanner.left_bracket().is_none() {
            return Err(ParserError::Mismatch);
        }
        if scanner.whitespaces().is_some() {
            return Err(ParserError::Mismatch);
        }
        let ghost t = s@;
        proof {
            lemma_ws_end(t, 1);
        }
        assert(attrs_view(attrs@) =~= seq![]);
        loop
            invariant
                scanner.wf(),
                scanner.chars@ == t,
                t == s@,
                1 <= scanner.pos,
                attr_list(t) == list_from(t, scanner.pos as int, attrs_view(attrs@)),
            decreases t.len() - scanner.pos,
        {
            let ghost i = scanner.pos as int;
            scanner.whitespaces();
            if scanner.right_bracket().is_some() {
                scanner.whitespaces();
                if scanner.eos() {
                    return Ok(ElementAttrs(attrs));
                } else {
                    return Err(ParserError::fail("trailing characters"));
                }
            }
            if scanner.eos() {
                return Err(ParserError::fail("unexpected end of line"));
            }
            let ghost j = scanner.pos as int;
            proof {
                lemma_attr_at_advances(t, j);
            }
            let attr = ElementAttr::parse(&mut scanner)?;
            let ghost e = scanner.pos as int;
            if let ElementAttr::Named(n, _) = &attr {
                if has_named(&attrs, n) {
                    return Err(ParserError::fail("duplicate attribute name"));
                }
            }
            scanner.whitespaces();
            scanner.comma();
            proof {
                lemma_ws_end(t, i);
                lemma_ws_end(t, e);
                assert(attrs_view(attrs@.push(attr)) =~= attrs_view(attrs@).push(attr@));
            }
            attrs.push(attr);
        }
    }
}

impl Parser for ElementAttrs {
    fn parse(s: &str) -> (r: Result<ElementAttrs, ParserError>)
        ensures
            outcome(r) == attr_list(s@),
    {
        ElementAttrs::parse(s)
    }
}

/// Whether some named attribute of `attrs` is called `name`.
fn has_named(attrs: &Vec<ElementAttr>, name: &String) -> (r: bool)
    ensures
        r == has_name(attrs_view(attrs@), name@),
{
    let mut i: usize = 0;
    while i < attrs.len()
        invariant
            i <= attrs@.len(),
            forall|k: int| 0 <= k < i ==> !(#[trigger] attrs@[k]@ matches AttrModel::Named(m, _) && m == name@),
        decreases attrs@.len() - i,
    {
        if let ElementAttr::Named(n, _) = &attrs[i] {
            if *n == *name {
                assert(attrs_view(attrs@)[i as int] == attrs@[i as int]@);
                return true;
            }
        }
        i = i + 1;
    }
    proof {
        if has_name(attrs_view(attrs@), name@) {
            let k = choose|k: int| 0 <= k < attrs_view(attrs@).len() && (#[trigger] attrs_view(attrs@)[k] matches AttrModel::Named(m, _) && m == name@);
            assert(attrs@[k]@ == attrs_view(attrs@)[k]);
        }
    }
    false
}

impl ElementAttr {
    /// Reads one attribute at the cursor, which stands on neither whitespace
    /// nor the end of the line.
    fn parse(scanner: &mut ElementAttrScanner) -> (r: Result<ElementAttr, ParserError>)
        requires
            old(scanner).wf(),
        ensures
            final(scanner).wf(),
            final(scanner).chars@ == old(scanner).chars@,
            match (r, attr_at(old(scanner).chars@, old(scanner).pos as int)) {
                (Ok(a), Some((m, e))) => a@ == m && final(scanner).pos == e,
                (Err(err), None) => err.fault() == Fault::Fail,
                _ => false,
            },
            ({
                let s = old(scanner).chars@;
                let p = old(scanner).pos as int;
                attr_at(s, p) is None ==> if p < s.len() && is_quote(s[p]) {
                    r matches Err(ParserError::Fail(m)) && m@ == "unexpected end of line"@
                } else if name_end(s, p) == p {
                    r matches Err(ParserError::Fail(m)) && m@ == "attribute is empty"@
                } else {
                    r matches Err(ParserError::Fail(m)) && m@ == "invalid value"@
                }
            }),
    {
        let ghost s = scanner.chars@;
        let ghost i = scanner.pos as int;
        match scanner.quoted_string() {
            Ok(v) => {
                return Ok(ElementAttr::Positional(v));
            },
            Err(e) => {
                if !e.mismatches() {
                    return Err(e);
                }
            },
        }
        let start = scanner.pos;
        let first = scanner.name_string();
        if scanner.pos == start {
            return Err(ParserError::fail("attribute is empty"));
        }
        scanner.whitespaces();
        let eq = scanner.equal();
        if eq.is_some() {
            scanner.whitespaces();
            match scanner.value() {
                Ok(v) => Ok(ElementAttr::Named(first, v)),
                Err(_) => Err(ParserError::fail("invalid value")),
            }
        } else {
            Ok(ElementAttr::Positional(first))
        }
    }
}

/// Which characters `next_if` takes.
enum CharClass {
    Space,
    Unquoted,
    Name,
    Is(char),
    Not(char),
}

spec fn in_class(c: char, class: CharClass) -> bool {
    match class {
        CharClass::Space => is_ws(c),
        CharClass::Unquoted => is_unquoted_char(c),
        CharClass::Name => is_name_char(c),
        CharClass::Is(x) => c == x,
        CharClass::Not(x) => c != x,
    }
}

/// A cursor over the characters of one line, with a lookahead of one. It
/// consumes nothing unless what it looks for is there.
struct ElementAttrScanner {
    chars: Vec<char>,
    pos: usize,
}

impl ElementAttrScanner {
    spec fn wf(&self) -> bool {
        self.pos <= self.chars@.len()
    }

    spec fn at(&self, c: char) -> bool {
        self.pos < self.chars@.len() && self.chars@[self.pos as int] == c
    }

    fn new(s: &str) -> (r: Self)
        ensures
            r.wf(),
            r.chars@ == s@,
            r.pos == 0,
    {
        ElementAttrScanner { chars: chars_of(s), pos: 0 }
    }

    fn peek(&self) -> (r: Option<char>)
        requires
            self.wf(),
        ensures
            r == (if self.pos < self.chars@.len() {
                Some(self.chars@[self.pos as int])
            } else {
                None
            }),
    {
        if self.pos < self.chars.len() {
            Some(self.chars[self.pos])
        } else {
            None
        }
    }

    fn next(&mut self) -> (r: Option<char>)
        requires
            old(self).wf(),
        ensures
            final(self).wf(),
            final(self).chars == old(self).chars,
            old(self).pos < old(self).chars@.len() ==> r == Some(old(self).chars@[old(self).pos as int])
                && final(self).pos == old(self).pos + 1,
            old(self).pos >= old(self).chars@.len() ==> r is None && final(self).pos == old(self).pos,
    {
        if self.pos < self.chars.len() {
            let c = self.chars[self.pos];
            self.pos = self.pos + 1;
            Some(c)
        } else {
            None
        }
    }

    /// The next character, taken only if it is of `class`.
    fn next_if(&mut self, class: CharClass) -> (r: Option<char>)
        requires
            old(self).wf(),
        ensures
            final(self).wf(),
            final(self).chars == old(self).chars,
            ({
                let s = old(self).chars@;
                let p = old(self).pos as int;
                if p < s.len() && in_class(s[p], class) {
                    r == Some(s[p]) && final(self).pos == p + 1
                } else {
                    r is None && final(self).pos == p
                }
            }),
    {
        let c = match self.peek() {
            Some(c) => c,
            None => return None,
        };
        let take = match class {
            CharClass::Space => is_whitespace(c),
            CharClass::Unquoted => c != ',' && c != '\'' && c != '"' && c != ']' && !is_whitespace(c),
            CharClass::Name => c != ',' && c != '\'' && c != '"' && c != ']' && c != '=' && !is_whitespace(c),
            CharClass::Is(x) => c == x,
            CharClass::Not(x) => c != x,
        };
        if take {
            self.next()
        } else {
            None
        }
    }

    fn next_expect(&mut self, expect: char) -> (r: Option<char>)
        requires
            old(self).wf(),
        ensures
            final(self).wf(),
            final(self).chars == old(self).chars,
            old(self).at(expect) ==> r == Some(expect) && final(self).pos == old(self).pos + 1,
            !old(self).at(expect) ==> r is None && final(self).pos == old(self).pos,
    {
        self.next_if(CharClass::Is(expect))
    }

    fn next_except(&mut self, except: char) -> (r: Option<char>)
        requires
            old(self).wf(),
        ensures
            final(self).wf(),
            final(self).chars == old(self).chars,
            ({
                let s = old(self).chars@;
                let p = old(self).pos as int;
                if p < s.len() && s[p] != except {
                    r == Some(s[p]) && final(self).pos == p + 1
                } else {
                    r is None && final(self).pos == p
                }
            }),
    {
        self.next_if(CharClass::Not(except))
    }

    /// A backslash: the escaped quote `escaped` where one follows it, else
    /// the backslash itself.
    fn escaped_char_or_backslash(&mut self, escaped: char) -> (r: Option<char>)
        requires
            old(self).wf(),
        ensures
            final(self).wf(),
            final(self).chars == old(self).chars,
            ({
                let s = old(self).chars@;
                let p = old(self).pos as int;
                if p < s.len() && s[p] == '\\' {
                    if p + 1 < s.len() && s[p + 1] == escaped {
                        r == Some(escaped) && final(self).pos == p + 2
                    } else {
                        r == Some('\\') && final(self).pos == p + 1
                    }
                } else {
                    r is None && final(self).pos == p
                }
            }),
    {
        let backslash = match self.next_expect('\\') {
            Some(b) => b,
            None => return None,
        };
        match self.next_expect(escaped) {
            Some(c) => Some(c),
            None => Some(backslash),
        }
    }

    fn whitespace(&mut self) -> (r: Option<char>)
        requires
            old(self).wf(),
        ensures
            final(self).wf(),
            final(self).chars == old(self).chars,
            ({
                let s = old(self).chars@;
                let p = old(self).pos as int;
                if p < s.len() && is_ws(s[p]) {
                    r == Some(s[p]) && final(self).pos == p + 1
                } else {
                    r is None && final(self).pos == p
                }
            }),
    {
        self.next_if(CharClass::Space)
    }

    fn left_bracket(&mut self) -> (r: Option<char>)
        requires
            old(self).wf(),
        ensures
            final(self).wf(),
            final(self).chars == old(self).chars,
            old(self).at('[') ==> r is Some && final(self).pos == old(self).pos + 1,
            !old(self).at('[') ==> r is None && final(self).pos == old(self).pos,
    {
        self.next_expect('[')
    }

    fn right_bracket(&mut self) -> (r: Option<char>)
        requires
            old(self).wf(),
        ensures
            final(self).wf(),
            final(self).chars == old(self).chars,
            old(self).at(']') ==> r is Some && final(self).pos == old(self).pos + 1,
            !old(self).at(']') ==> r is None && final(self).pos == old(self).pos,
    {
        self.next_expect(']')
    }

    fn comma(&mut self) -> (r: Option<char>)
        requires
            old(self).wf(),
        ensures
            final(self).wf(),
            final(self).chars == old(self).chars,
            old(self).at(',') ==> r is Some && final(self).pos == old(self).pos + 1,
            !old(self).at(',') ==> r is None && final(self).pos == old(self).pos,
    {
        self.next_expect(',')
    }

    fn equal(&mut self) -> (r: Option<char>)
        requires
            old(self).wf(),
        ensures
            final(self).wf(),
            final(self).chars == old(self).chars,
            old(self).at('=') ==> r is Some && final(self).pos == old(self).pos + 1,
            !old(self).at('=') ==> r is None && final(self).pos == old(self).pos,
    {
        self.next_expect('=')
    }

    fn double_quote(&mut self) -> (r: Option<char>)
        requires
            old(self).wf(),
        ensures
            final(self).wf(),
            final(self).chars == old(self).chars,
            old(self).at('"') ==> r == Some('"') && final(self).pos == old(self).pos + 1,
            !old(self).at('"') ==> r is None && final(self).pos == old(self).pos,
    {
        self.next_expect('"')
    }

    fn single_quote(&mut self) -> (r: Option<char>)
        requires
            old(self).wf(),
        ensures
            final(self).wf(),
            final(self).chars == old(self).chars,
            old(self).at('\'') ==> r == Some('\'') && final(self).pos == old(self).pos + 1,
            !old(self).at('\'') ==> r is None && final(self).pos == old(self).pos,
    {
        self.next_expect('\'')
    }

    /// One character of a value quoted by `quote`: `None` at the closing
    /// quote or the end of the line.
    fn quoted_char(&mut self, quote: char) -> (r: Option<char>)
        requires
            old(self).wf(),
            quote != '\\',
        ensures
            final(self).wf(),
            final(self).chars == old(self).chars,
            ({
                let s = old(self).chars@;
                let p = old(self).pos as int;
                if p >= s.len() || s[p] == quote {
                    r is None && final(self).pos == p
                } else if s[p] == '\\' && p + 1 < s.len() && s[p + 1] == quote {
                    r == Some(quote) && final(self).pos == p + 2
                } else {
                    r == Some(s[p]) && final(self).pos == p + 1
                }
            }),
    {
        match self.escaped_char_or_backslash(quote) {
            Some(c) => Some(c),
            None => self.next_except(quote),
        }
    }

    fn unquoted_char(&mut self) -> (r: Option<char>)
        requires
            old(self).wf(),
        ensures
            final(self).wf(),
            final(self).chars == old(self).chars,
            ({
                let s = old(self).chars@;
                let p = old(self).pos as int;
                if p < s.len() && is_unquoted_char(s[p]) {
                    r == Some(s[p]) && final(self).pos == p + 1
                } else {
                    r is None && final(self).pos == p
                }
            }),
    {
        self.next_if(CharClass::Unquoted)
    }

    fn name_char(&mut self) -> (r: Option<char>)
        requires
            old(self).wf(),
        ensures
            final(self).wf(),
            final(self).chars == old(self).chars,
            ({
                let s = old(self).chars@;
                let p = old(self).pos as int;
                if p < s.len() && is_name_char(s[p]) {
                    r == Some(s[p]) && final(self).pos == p + 1
                } else {
                    r is None && final(self).pos == p
                }
            }),
    {
        self.next_if(CharClass::Name)
    }

    /// A run of whitespace, read as one space.
    fn whitespaces(&mut self) -> (r: Option<char>)
        requires
            old(self).wf(),
        ensures
            final(self).wf(),
            final(self).chars == old(self).chars,
            final(self).pos == ws_end(old(self).chars@, old(self).pos as int),
            r is Some <==> final(self).pos != old(self).pos,
    {
        let mut some = false;
        while self.whitespace().is_some()
            invariant
                self.wf(),
                self.chars == old(self).chars,
                ws_end(self.chars@, old(self).pos as int) == ws_end(self.chars@, self.pos as int),
                old(self).pos <= self.pos,
                some <==> self.pos != old(self).pos,
            decreases self.chars@.len() - self.pos,
        {
            some = true;
        }
        if some {
            Some(' ')
        } else {
            None
        }
    }

    /// The cursor is at the end of the line.
    fn eos(&self) -> (r: bool)
        requires
            self.wf(),
        ensures
            r == (self.pos == self.chars@.len()),
    {
        self.peek().is_none()
    }

    /// The value of a named attribute.
    fn value(&mut self) -> (r: Result<String, ParserError>)
        requires
            old(self).wf(),
        ensures
            final(self).wf(),
            final(self).chars == old(self).chars,
            match value_at(old(self).chars@, old(self).pos as int) {
                Some((v, e)) => r matches Ok(x) && x@ == v && final(self).pos == e,
                None => r matches Err(err) && err.fault() == Fault::Fail,
            },
    {
        match self.quoted_string() {
            Err(ParserError::Mismatch) => Ok(self.unquoted_string()),
            other => other,
        }
    }

    /// A value in single or double quotes.
    fn quoted_string(&mut self) -> (r: Result<String, ParserError>)
        requires
            old(self).wf(),
        ensures
            final(self).wf(),
            final(self).chars == old(self).chars,
            ({
                let s = old(self).chars@;
                let p = old(self).pos as int;
                if p < s.len() && is_quote(s[p]) {
                    match quoted_from(s, p + 1, s[p], seq![]) {
                        Some((v, e)) => r matches Ok(x) && x@ == v && final(self).pos == e,
                        None => r matches Err(ParserError::Fail(m)) && m@ == "unexpected end of line"@
                            && final(self).pos == s.len(),
                    }
                } else {
                    r matches Err(err) && err.fault() == Fault::Mismatch && final(self).pos == p
                }
            }),
    {
        let quote = match self.single_quote() {
            Some(q) => Some(q),
            None => self.double_quote(),
        };
        match quote {
            Some(q) => self.quoted_string_by(q),
            None => Err(ParserError::Mismatch),
        }
    }

    /// The rest of a value quoted by `quote`, up to and past the closing quote.
    fn quoted_string_by(&mut self, quote: char) -> (r: Result<String, ParserError>)
        requires
            old(self).wf(),
            quote != '\\',
        ensures
            final(self).wf(),
            final(self).chars == old(self).chars,
            match quoted_from(old(self).chars@, old(self).pos as int, quote, seq![]) {
                Some((v, e)) => r matches Ok(x) && x@ == v && final(self).pos == e,
                None => r matches Err(ParserError::Fail(m)) && m@ == "unexpected end of line"@
                    && final(self).pos == old(self).chars@.len(),
            },
    {
        let mut s: Vec<char> = Vec::new();
        loop
            invariant_except_break
                quoted_from(self.chars@, old(self).pos as int, quote, seq![]) == quoted_from(
                    self.chars@,
                    self.pos as int,
                    quote,
                    s@,
                ),
            invariant
                self.wf(),
                self.chars == old(self).chars,
                quote != '\\',
            ensures
                quoted_from(self.chars@, old(self).pos as int, quote, seq![]) == Some(
                    (s@, self.pos as int),
                ),
            decreases self.chars@.len() - self.pos,
        {
            if let Some(c) = self.quoted_char(quote) {
                s.push(c);
            } else if self.next_expect(quote).is_some() {
                break;
            } else {
                return Err(ParserError::fail("unexpected end of line"));
            }
        }
        Ok(string_of(s.as_slice()))
    }

    /// The run of unquoted-value characters at the cursor.
    fn unquoted_string(&mut self) -> (r: String)
        requires
            old(self).wf(),
        ensures
            final(self).wf(),
            final(self).chars == old(self).chars,
            final(self).pos == unquoted_end(old(self).chars@, old(self).pos as int),
            r@ == old(self).chars@.subrange(old(self).pos as int, final(self).pos as int),
    {
        let mut s: Vec<char> = Vec::new();
        loop
            invariant
                self.wf(),
                self.chars == old(self).chars,
                old(self).pos <= self.pos,
                unquoted_end(self.chars@, old(self).pos as int) == unquoted_end(self.chars@, self.pos as int),
                s@ == self.chars@.subrange(old(self).pos as int, self.pos as int),
            ensures
                self.pos >= self.chars@.len() || !is_unquoted_char(self.chars@[self.pos as int]),
            decreases self.chars@.len() - self.pos,
        {
            match self.unquoted_char() {
                Some(c) => {
                    s.push(c);
                    assert(s@ =~= self.chars@.subrange(old(self).pos as int, self.pos as int));
                },
                None => break,
            }
        }
        string_of(s.as_slice())
    }

    /// The run of name characters at the cursor.
    fn name_string(&mut self) -> (r: String)
        requires
            old(self).wf(),
        ensures
            final(self).wf(),
            final(self).chars == old(self).chars,
            final(self).pos == name_end(old(self).chars@, old(self).pos as int),
            r@ == old(self).chars@.subrange(old(self).pos as int, final(self).pos as int),
    {
        let mut s: Vec<char> = Vec::new();
        loop
            invariant
                self.wf(),
                self.chars == old(self).chars,
                old(self).pos <= self.pos,
                name_end(self.chars@, old(self).pos as int) == name_end(self.chars@, self.pos as int),
                s@ == self.chars@.subrange(old(self).pos as int, self.pos as int),
            ensures
                self.pos >= self.chars@.len() || !is_name_char(self.chars@[self.pos as int]),
            decreases self.chars@.len() - self.pos,
        {
            match self.name_char() {
                Some(c) => {
                    s.push(c);
                    assert(s@ =~= self.chars@.subrange(old(self).pos as int, self.pos as int));
                },
                None => break,
            }
        }
        string_of(s.as_slice())
    }
}

} // verus!
