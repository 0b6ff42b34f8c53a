//! Lines of the document header, read for every interpretation they allow:
//! a document title (`= Title` or `# Title`), an author line, and a document
//! attribute entry (`:name:`, `:!name:` or `:name!:`, with an optional value
//! and line continuation). The caller picks among them by position.

use vstd::prelude::*;
use crate::multiparse::{MultiParse, VecSet};
use crate::text::{
    alphanumeric, chars_of, is_alphanumeric, is_whitespace, is_ws, string_of_range, trim, trim_end,
    trim_end_index, trim_start, trim_start_index,
};

verus! {

/// How the value of a document attribute entry continues.
#[derive(PartialEq, Eq, Structural, Clone, Copy, Debug)]
pub enum DocumentAttrWrap {
    NoWrap,
    SoftWrap,
    HardWrap,
}

/// One interpretation of a header line. Only the first line of a wrapped
/// value is read.
#[derive(Debug, Clone)]
pub enum HeaderLineToken {
    /// The document title, trimmed.
    DocumentTitle(String),
    /// An author line, trimmed.
    Author(String),
    /// A document attribute entry; the value is left unparsed.
    DocumentAttr { attr: String, unset: bool, value: Option<String>, wrap: DocumentAttrWrap },
}

/// An interpretation of a header line as plain values.
pub enum HeaderModel {
    Title(Seq<char>),
    Author(Seq<char>),
    Attr { attr: Seq<char>, unset: bool, value: Option<Seq<char>>, wrap: DocumentAttrWrap },
}

pub open spec fn opt_view(o: Option<String>) -> Option<Seq<char>> {
    match o {
        Some(s) => Some(s@),
        None => None,
    }
}

impl View for HeaderLineToken {
    type V = HeaderModel;

    open spec fn view(&self) -> HeaderModel {
        match self {
            HeaderLineToken::DocumentTitle(t) => HeaderModel::Title(t@),
            HeaderLineToken::Author(a) => HeaderModel::Author(a@),
            HeaderLineToken::DocumentAttr { attr, unset, value, wrap } => HeaderModel::Attr {
                attr: attr@,
                unset: *unset,
                value: opt_view(*value),
                wrap: *wrap,
            },
        }
    }
}

fn opt_string_eq(a: &Option<String>, b: &Option<String>) -> (r: bool)
    ensures
        r == (opt_view(*a) == opt_view(*b)),
{
    match (a, b) {
        (Some(x), Some(y)) => *x == *y,
        (None, None) => true,
        _ => false,
    }
}

impl PartialEq for HeaderLineToken {
    fn eq(&self, other: &HeaderLineToken) -> (r: bool) {
        match (self, other) {
            (HeaderLineToken::DocumentTitle(a), HeaderLineToken::DocumentTitle(b)) => *a == *b,
            (HeaderLineToken::Author(a), HeaderLineToken::Author(b)) => *a == *b,
            (
                HeaderLineToken::DocumentAttr { attr: a1, unset: u1, value: v1, wrap: w1 },
                HeaderLineToken::DocumentAttr { attr: a2, unset: u2, value: v2, wrap: w2 },
            ) => *a1 == *a2 && *u1 == *u2 && opt_string_eq(v1, v2) && *w1 == *w2,
            _ => false,
        }
    }
}

impl vstd::std_specs::cmp::PartialEqSpecImpl for HeaderLineToken {
    open spec fn obeys_eq_spec() -> bool {
        true
    }

    open spec fn eq_spec(&self, other: &HeaderLineToken) -> bool {
        self@ == other@
    }
}

/// An ASCII letter or digit.
pub open spec fn is_ascii_alnum(c: char) -> bool {
    let u = c as u32;
    (0x61 <= u <= 0x7a) || (0x41 <= u <= 0x5a) || (0x30 <= u <= 0x39)
}

/// A character of an attribute name word: an ASCII letter, digit or `_`, or
/// a non-ASCII alphanumeric character.
pub open spec fn is_word_char(c: char) -> bool {
    if (c as u32) < 0x80 {
        is_ascii_alnum(c) || c == '_'
    } else {
        alphanumeric(c)
    }
}

/// The end of the run of word characters and dashes of `s` from `i`.
pub open spec fn word_dash_end(s: Seq<char>, i: int) -> int
    decreases s.len() - i,
{
    if 0 <= i < s.len() && (is_word_char(s[i]) || s[i] == '-') {
        word_dash_end(s, i + 1)
    } else {
        i
    }
}

/// The title of a title line: `=` or `#`, whitespace, then at least one more
/// character.
pub open spec fn title_of(s: Seq<char>) -> Option<Seq<char>> {
    if s.len() >= 3 && (s[0] == '=' || s[0] == '#') && is_ws(s[1]) {
        Some(trim(s.subrange(1, s.len() as int)))
    } else {
        None
    }
}

/// The author of an author line: any line that does not start with `:`,
/// `=` or `#`.
pub open spec fn author_of(s: Seq<char>) -> Option<Seq<char>> {
    if s.len() >= 1 && s[0] != ':' && s[0] != '=' && s[0] != '#' {
        Some(trim(s))
    } else {
        None
    }
}

/// What follows the closing colon of an attribute entry: nothing, or
/// whitespace then a value that may end with a soft (` \`) or hard
/// (` + \`) continuation marker.
pub open spec fn attr_rest(r: Seq<char>) -> Option<(Option<Seq<char>>, DocumentAttrWrap)> {
    if r.len() == 0 {
        Some((None, DocumentAttrWrap::NoWrap))
    } else if !is_ws(r[0]) {
        None
    } else {
        let v = trim_start(r);
        if v.len() == 0 {
            Some((None, DocumentAttrWrap::NoWrap))
        } else if v.last() == '\\' && trim_end(v.drop_last()).len() < v.len() - 1 && trim_end(
            v.drop_last(),
        ).len() > 0 {
            let t = trim_end(v.drop_last());
            let u = trim_end(t.drop_last());
            if t.last() == '+' && u.len() < t.len() - 1 && u.len() > 0 {
                Some((Some(u), DocumentAttrWrap::HardWrap))
            } else {
                Some((Some(t), DocumentAttrWrap::SoftWrap))
            }
        } else {
            Some((Some(v), DocumentAttrWrap::NoWrap))
        }
    }
}

/// The attribute entry that the line `s` is, if any: `:`, an optional `!`, a
/// name of a word character and any word characters or dashes, an
/// optional `!`, `:`, and the rest.
pub open spec fn attr_entry_of(s: Seq<char>) -> Option<HeaderModel> {
    let u1 = 1 < s.len() && s[1] == '!';
    let p: int = if u1 { 2 } else { 1 };
    let e = word_dash_end(s, p);
    let u2 = e < s.len() && s[e] == '!';
    let c = if u2 { e + 1 } else { e };
    if s.len() >= 1 && s[0] == ':' && p < s.len() && is_word_char(s[p]) && c < s.len()
        && s[c] == ':' {
        match attr_rest(s.subrange(c + 1, s.len() as int)) {
            Some((value, wrap)) => Some(
                HeaderModel::Attr { attr: s.subrange(p, e), unset: u1 || u2, value, wrap },
            ),
            None => None,
        }
    } else {
        None
    }
}

pub open spec fn opt_seq<A>(o: Option<A>) -> Seq<A> {
    match o {
        Some(a) => seq![a],
        None => seq![],
    }
}

/// The interpretations of the line `s`, in the order title, author,
/// attribute entry.
pub open spec fn candidates(s: Seq<char>) -> Seq<HeaderModel> {
    opt_seq(
        match title_of(s) {
            Some(t) => Some(HeaderModel::Title(t)),
            None => None,
        },
    ) + opt_seq(
        match author_of(s) {
            Some(a) => Some(HeaderModel::Author(a)),
            None => None,
        },
    ) + opt_seq(attr_entry_of(s))
}

/// `m` is an interpretation whose pattern `s` matches.
pub open spec fn is_candidate(s: Seq<char>, m: HeaderModel) -> bool {
    ||| title_of(s) matches Some(t) && m == HeaderModel::Title(t)
    ||| author_of(s) matches Some(a) && m == HeaderModel::Author(a)
    ||| attr_entry_of(s) == Some(m)
}

pub open spec fn token_models(v: Seq<HeaderLineToken>) -> Seq<HeaderModel> {
    v.map_values(|t: HeaderLineToken| t@)
}

/// The interpretations are exactly those whose pattern matches the line, and
/// none is listed twice.
pub proof fn lemma_candidates(s: Seq<char>)
    ensures
        forall|m: HeaderModel| candidates(s).contains(m) <==> is_candidate(s, m),
        candidates(s).no_duplicates(),
{
    let c = candidates(s);
    assert forall|m: HeaderModel| c.contains(m) <==> is_candidate(s, m) by {
        if c.contains(m) {
            let k = choose|k: int| 0 <= k < c.len() && c[k] == m;
        }
        if is_candidate(s, m) {
            if title_of(s) matches Some(t) && m == HeaderModel::Title(t) {
                assert(c[0] == m);
            } else if author_of(s) matches Some(a) && m == HeaderModel::Author(a) {
                assert(title_of(s) is None);
                assert(c[0] == m);
            } else {
                assert(title_of(s) is None && author_of(s) is None);
                assert(c[0] == m);
            }
        }
    }
}

fn is_word(c: char) -> (r: bool)
    ensures
        r == is_word_char(c),
{
    let u = c as u32;
    if u < 0x80 {
        (0x61 <= u && u <= 0x7a) || (0x41 <= u && u <= 0x5a) || (0x30 <= u && u <= 0x39) || c == '_'
    } else {
        is_alphanumeric(c)
    }
}

pub(crate) fn title_token(v: &Vec<char>) -> (r: Option<String>)
    ensures
        opt_view(r) == title_of(v@),
{
    let n = v.len();
    if n >= 3 && (v[0] == '=' || v[0] == '#') && is_whitespace(v[1]) {
        let e = trim_end_index(v, 1, n);
        let b = trim_start_index(v, 1, e);
        Some(string_of_range(v, b, e))
    } else {
        None
    }
}

fn author_token(v: &Vec<char>) -> (r: Option<String>)
    ensures
        opt_view(r) == author_of(v@),
{
    let n = v.len();
    if n >= 1 && v[0] != ':' && v[0] != '=' && v[0] != '#' {
        let e = trim_end_index(v, 0, n);
        let b = trim_start_index(v, 0, e);
        assert(v@.subrange(0, n as int) =~= v@);
        Some(string_of_range(v, b, e))
    } else {
        None
    }
}

/// The value and wrap of what follows the closing colon, `v[lo..]`.
fn attr_rest_token(v: &Vec<char>, lo: usize) -> (r: Option<(Option<String>, DocumentAttrWrap)>)
    requires
        lo <= v@.len(),
    ensures
        match attr_rest(v@.subrange(lo as int, v@.len() as int)) {
            Some((value, wrap)) => r matches Some((x, w)) && opt_view(x) == value && w == wrap,
            None => r is None,
        },
{
    let n = v.len();
    let ghost r = v@.subrange(lo as int, n as int);
    if lo == n {
        return Some((None, DocumentAttrWrap::NoWrap));
    }
    assert(r[0] == v@[lo as int]);
    if !is_whitespace(v[lo]) {
        return None;
    }
    let b = trim_start_index(v, lo, n);
    if b == n {
        return Some((None, DocumentAttrWrap::NoWrap));
    }
    let ghost vv = v@.subrange(b as int, n as int);
    assert(vv.last() == v@[n - 1]);
    assert(vv.drop_last() =~= v@.subrange(b as int, n - 1));
    if v[n - 1] == '\\' {
        let te = trim_end_index(v, b, n - 1);
        if te < n - 1 && te > b {
            let ghost t = v@.subrange(b as int, te as int);
            assert(t.last() == v@[te - 1]);
            assert(t.drop_last() =~= v@.subrange(b as int, te - 1));
            if v[te - 1] == '+' {
                let t2 = trim_end_index(v, b, te - 1);
                if t2 < te - 1 && t2 > b {
                    return Some((Some(string_of_range(v, b, t2)), DocumentAttrWrap::HardWrap));
                }
            }
            return Some((Some(string_of_range(v, b, te)), DocumentAttrWrap::SoftWrap));
        }
    }
    Some((Some(string_of_range(v, b, n)), DocumentAttrWrap::NoWrap))
}

pub(crate) fn attr_token(v: &Vec<char>) -> (r: Option<HeaderLineToken>)
    ensures
        match attr_entry_of(v@) {
            Some(m) => r matches Some(t) && t@ == m,
            None => r is None,
        },
{
    let n = v.len();
    if n == 0 || v[0] != ':' {
        return None;
    }
    let u1 = 1 < n && v[1] == '!';
    let p: usize = if u1 {
        2
    } else {
        1
    };
    if p >= n || !is_word(v[p]) {
        return None;
    }
    let mut e: usize = p;
    while e < n && (is_word(v[e]) || v[e] == '-')
        invariant
            p <= e <= n == v@.len(),
            word_dash_end(v@, p as int) == word_dash_end(v@, e as int),
        decreases n - e,
    {
        e = e + 1;
    }
    let u2 = e < n && v[e] == '!';
    let c = if u2 {
        e + 1
    } else {
        e
    };
    if c >= n || v[c] != ':' {
        return None;
    }
    match attr_rest_token(v, c + 1) {
        None => None,
        Some((value, wrap)) => Some(
            HeaderLineToken::DocumentAttr {
                attr: string_of_range(v, p, e),
                unset: u1 || u2,
                value,
                wrap,
            },
        ),
    }
}

impl HeaderLineToken {
    /// Every interpretation of the header line `s` whose pattern it matches.
    pub fn classify(s: &str) -> (r: VecSet<HeaderLineToken>)
        ensures
            token_models(r.0@) == candidates(s@),
            forall|m: HeaderModel| token_models(r.0@).contains(m) <==> is_candidate(s@, m),
    {
        let v = chars_of(s);
        let mut out: Vec<HeaderLineToken> = Vec::new();
        let ghost t = match title_of(v@) {
            Some(t) => Some(HeaderModel::Title(t)),
            None => None,
        };
        let ghost a = match author_of(v@) {
            Some(a) => Some(HeaderModel::Author(a)),
            None => None,
        };
        if let Some(title) = title_token(&v) {
            out.push(HeaderLineToken::DocumentTitle(title));
        }
        assert(token_models(out@) =~= opt_seq(t));
        if let Some(author) = author_token(&v) {
            out.push(HeaderLineToken::Author(author));
        }
        assert(token_models(out@) =~= opt_seq(t) + opt_seq(a));
        if let Some(x) = attr_token(&v) {
            out.push(x);
        }
        assert(token_models(out@) =~= candidates(v@));
        proof {
            lemma_candidates(v@);
        }
        VecSet::new(out)
    }
}

impl MultiParse for HeaderLineToken {
    fn multiparse(s: &str) -> (r: VecSet<HeaderLineToken>)
        ensures
            token_models(r.0@) == candidates(s@),
            forall|m: HeaderModel| token_models(r.0@).contains(m) <==> is_candidate(s@, m),
    {
        HeaderLineToken::classify(s)
    }
}

} // verus!
