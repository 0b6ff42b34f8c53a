//! Writing a parsed attribute list back out and reading it again gives the
//! same attributes. Each attribute is written bare where its characters
//! allow it and double-quoted otherwise (a `"` inside escaped as `\"`), each
//! followed by a comma.

use vstd::prelude::*;
use crate::element_attr::{
    attr_at, attr_list, has_name, is_name_char, is_quote, is_unquoted_char, lemma_name_end,
    lemma_unquoted_end, list_from, name_end, quoted_from, unquoted_end, value_at, ws_end,
    AttrModel, ElementAttr, ElementAttrs, after_separator,
};
use crate::text::{chars_of, is_whitespace, is_ws, string_of};

verus! {

/// `v` with every `"` escaped by a backslash.
pub open spec fn escape(v: Seq<char>) -> Seq<char>
    decreases v.len(),
{
    if v.len() == 0 {
        seq![]
    } else {
        (if v[0] == '"' {
            seq!['\\', '"']
        } else {
            seq![v[0]]
        }) + escape(v.drop_first())
    }
}

/// `v` in double quotes.
pub open spec fn quoted(v: Seq<char>) -> Seq<char> {
    seq!['"'] + escape(v) + seq!['"']
}

/// `v` ends with a backslash.
pub open spec fn ends_backslash(v: Seq<char>) -> bool {
    v.len() > 0 && v.last() == '\\'
}

/// `v` is a non-empty run of name characters.
pub open spec fn bare_name(v: Seq<char>) -> bool {
    v.len() > 0 && forall|k: int| 0 <= k < v.len() ==> is_name_char(#[trigger] v[k])
}

/// `v` is a run of unquoted-value characters.
pub open spec fn bare_value(v: Seq<char>) -> bool {
    forall|k: int| 0 <= k < v.len() ==> is_unquoted_char(#[trigger] v[k])
}

/// How one attribute is written.
pub open spec fn attr_text(a: AttrModel) -> Seq<char> {
    match a {
        AttrModel::Positional(v) => if bare_name(v) {
            v
        } else {
            quoted(v)
        },
        AttrModel::Named(n, v) => n + seq!['='] + if bare_value(v) {
            v
        } else {
            quoted(v)
        },
    }
}

/// The attributes written one after another, each followed by a comma.
pub open spec fn items_text(a: Seq<AttrModel>) -> Seq<char>
    decreases a.len(),
{
    if a.len() == 0 {
        seq![]
    } else {
        attr_text(a[0]) + seq![','] + items_text(a.drop_first())
    }
}

/// An attribute list written out.
pub open spec fn render(a: Seq<AttrModel>) -> Seq<char> {
    seq!['['] + items_text(a) + seq![']']
}

/// An attribute that can be written out and read back.
pub open spec fn writable(x: AttrModel) -> bool {
    match x {
        AttrModel::Positional(v) => bare_name(v) || !ends_backslash(v),
        AttrModel::Named(n, v) => bare_name(n) && (bare_value(v) || !ends_backslash(v)),
    }
}

/// No two named attributes of `a` share a name.
pub open spec fn distinct_names(a: Seq<AttrModel>) -> bool {
    forall|i: int, j: int|
        0 <= i < j < a.len() ==> !(#[trigger] a[i] matches AttrModel::Named(n, _) && (#[trigger] a[j] matches AttrModel::Named(m, _) && n == m))
}

/// Every attribute of `a` can be written out and read back.
pub open spec fn all_writable(a: Seq<AttrModel>) -> bool {
    forall|k: int| 0 <= k < a.len() ==> writable(#[trigger] a[k])
}

proof fn lemma_quoted_no_backslash(s: Seq<char>, j: int, q: char, acc: Seq<char>)
    requires
        0 <= j,
        q != '\\',
        ends_backslash(acc) ==> !(j < s.len() && s[j] == q),
    ensures
        quoted_from(s, j, q, acc) matches Some((v, e)) ==> !ends_backslash(v),
    decreases s.len() - j,
{
    if j < s.len() {
        if s[j] == '\\' && j + 1 < s.len() && s[j + 1] == q {
            lemma_quoted_no_backslash(s, j + 2, q, acc.push(q));
        } else if s[j] != q {
            lemma_quoted_no_backslash(s, j + 1, q, acc.push(s[j]));
        }
    }
}

proof fn lemma_attr_at_writable(s: Seq<char>, i: int)
    requires
        0 <= i < s.len(),
    ensures
        attr_at(s, i) matches Some((x, e)) ==> writable(x),
{
    if is_quote(s[i]) {
        lemma_quoted_no_backslash(s, i + 1, s[i], seq![]);
    } else {
        lemma_name_end(s, i);
        let e1 = name_end(s, i);
        let e2 = ws_end(s, e1);
        crate::element_attr::lemma_ws_end(s, e1);
        if e1 != i && 0 <= e2 < s.len() && s[e2] == '=' {
            crate::element_attr::lemma_ws_end(s, e2 + 1);
            let e3 = ws_end(s, e2 + 1);
            if 0 <= e3 < s.len() && is_quote(s[e3]) {
                lemma_quoted_no_backslash(s, e3 + 1, s[e3], seq![]);
            } else {
                lemma_unquoted_end(s, e3);
                let v = s.subrange(e3, unquoted_end(s, e3));
                assert(bare_value(v)) by {
                    assert forall|k: int| 0 <= k < v.len() implies is_unquoted_char(#[trigger] v[k]) by {
                        assert(v[k] == s[e3 + k]);
                    }
                }
            }
            let n = s.subrange(i, e1);
            assert(bare_name(n)) by {
                assert forall|k: int| 0 <= k < n.len() implies is_name_char(#[trigger] n[k]) by {
                    assert(n[k] == s[i + k]);
                }
            }
        } else if e1 != i {
            let n = s.subrange(i, e1);
            assert(bare_name(n)) by {
                assert forall|k: int| 0 <= k < n.len() implies is_name_char(#[trigger] n[k]) by {
                    assert(n[k] == s[i + k]);
                }
            }
        }
    }
}

proof fn lemma_list_from_writable(s: Seq<char>, i: int, acc: Seq<AttrModel>)
    requires
        0 <= i,
        all_writable(acc),
        distinct_names(acc),
    ensures
        list_from(s, i, acc) matches Ok(r) ==> all_writable(r) && distinct_names(r),
    decreases s.len() - i,
{
    let j = ws_end(s, i);
    if i <= s.len() {
        crate::element_attr::lemma_ws_end(s, i);
    }
    if 0 <= j < s.len() && s[j] != ']' {
        match attr_at(s, j) {
            None => {},
            Some((a, e)) => {
                if !(a matches AttrModel::Named(n, _) && has_name(acc, n)) {
                    crate::element_attr::lemma_attr_at_advances(s, j);
                    lemma_attr_at_writable(s, j);
                    crate::element_attr::lemma_ws_end(s, e);
                    let acc2 = acc.push(a);
                    assert(all_writable(acc2)) by {
                        assert forall|k: int| 0 <= k < acc2.len() implies writable(#[trigger] acc2[k]) by {
                            if k < acc.len() {
                                assert(acc2[k] == acc[k]);
                            }
                        }
                    }
                    assert(distinct_names(acc2)) by {
                        assert forall|x: int, y: int| 0 <= x < y < acc2.len() implies !(
                        #[trigger] acc2[x] matches AttrModel::Named(n, _) && (
                        #[trigger] acc2[y] matches AttrModel::Named(m, _) && n == m)) by {
                            if y < acc.len() {
                                assert(acc2[x] == acc[x] && acc2[y] == acc[y]);
                            } else {
                                assert(acc2[x] == acc[x]);
                                match (acc2[x], acc2[y]) {
                                    (AttrModel::Named(n, _), AttrModel::Named(m, _)) => {
                                        if n == m {
                                            assert(has_name(acc, n));
                                        }
                                    },
                                    _ => {},
                                }
                            }
                        }
                    }
                    lemma_list_from_writable(s, after_separator(s, e), acc2);
                }
            },
        }
    }
}

proof fn lemma_escape_first(v: Seq<char>)
    requires
        v.len() > 0,
    ensures
        escape(v).len() > 0,
        escape(v)[0] == (if v[0] == '"' {
            '\\'
        } else {
            v[0]
        }),
        escape(v).len() >= v.len(),
{
    lemma_escape_len(v);
}

proof fn lemma_escape_len(v: Seq<char>)
    ensures
        escape(v).len() >= v.len(),
    decreases v.len(),
{
    if v.len() > 0 {
        lemma_escape_len(v.drop_first());
    }
}

proof fn lemma_read_escaped(t: Seq<char>, j: int, v: Seq<char>, acc: Seq<char>)
    requires
        0 <= j,
        j + escape(v).len() + 1 <= t.len(),
        t.subrange(j, j + escape(v).len() + 1) == escape(v).push('"'),
        !ends_backslash(v),
    ensures
        quoted_from(t, j, '"', acc) == Some((acc + v, j + escape(v).len() + 1)),
    decreases v.len(),
{
    let w = escape(v).push('"');
    assert forall|k: int| 0 <= k < w.len() implies t[j + k] == #[trigger] w[k] by {
        assert(t.subrange(j, j + escape(v).len() + 1)[k] == t[j + k]);
    }
    if v.len() == 0 {
        assert(w[0] == '"');
        assert(acc + v =~= acc);
    } else {
        let c = v[0];
        let rest = v.drop_first();
        let head = if c == '"' {
            seq!['\\', '"']
        } else {
            seq![c]
        };
        assert(escape(v) == head + escape(rest));
        assert(w =~= head + escape(rest).push('"'));
        assert(w[0] == head[0]);
        if c == '"' {
            assert(w[1] == head[1]);
        }
        let j2 = j + head.len();
        assert(t.subrange(j2, j2 + escape(rest).len() + 1) =~= escape(rest).push('"')) by {
            assert forall|k: int| 0 <= k < escape(rest).len() + 1 implies t.subrange(
                j2,
                j2 + escape(rest).len() + 1,
            )[k] == #[trigger] escape(rest).push('"')[k] by {
                assert(w[head.len() + k] == escape(rest).push('"')[k]);
            }
        }
        if rest.len() > 0 {
            assert(rest.last() == v.last());
        }
        lemma_read_escaped(t, j2, rest, acc.push(c));
        assert(acc.push(c) + rest =~= acc + v);
        if c == '"' {
            assert(t[j] == '\\' && t[j + 1] == '"');
        } else if c == '\\' {
            assert(rest.len() > 0);
            lemma_escape_first(rest);
            assert(w[1] == escape(rest)[0]);
            assert(t[j + 1] != '"');
        } else {
            assert(t[j] == c);
        }
    }
}

proof fn lemma_name_run(t: Seq<char>, i: int, k: int)
    requires
        0 <= i <= k < t.len(),
        forall|m: int| i <= m < k ==> is_name_char(#[trigger] t[m]),
        !is_name_char(t[k]),
    ensures
        name_end(t, i) == k,
    decreases k - i,
{
    if i < k {
        lemma_name_run(t, i + 1, k);
    }
}

proof fn lemma_unquoted_run(t: Seq<char>, i: int, k: int)
    requires
        0 <= i <= k < t.len(),
        forall|m: int| i <= m < k ==> is_unquoted_char(#[trigger] t[m]),
        !is_unquoted_char(t[k]),
    ensures
        unquoted_end(t, i) == k,
    decreases k - i,
{
    if i < k {
        lemma_unquoted_run(t, i + 1, k);
    }
}

proof fn lemma_read_value(t: Seq<char>, j: int, v: Seq<char>)
    requires
        0 <= j,
        bare_value(v) || !ends_backslash(v),
        ({
            let w = if bare_value(v) {
                v
            } else {
                quoted(v)
            };
            &&& j + w.len() < t.len()
            &&& t.subrange(j, j + w.len()) == w
            &&& t[j + w.len()] == ','
        }),
    ensures
        ({
            let w = if bare_value(v) {
                v
            } else {
                quoted(v)
            };
            value_at(t, j) == Some((v, j + w.len()))
        }),
{
    if bare_value(v) {
        assert forall|m: int| j <= m < j + v.len() implies is_unquoted_char(#[trigger] t[m]) by {
            assert(t.subrange(j, j + v.len())[m - j] == t[m]);
        }
        if v.len() > 0 {
            assert(t.subrange(j, j + v.len())[0] == t[j]);
        }
        lemma_unquoted_run(t, j, j + v.len());
        assert(t.subrange(j, j + v.len()) == v);
    } else {
        let w = quoted(v);
        assert(t.subrange(j, j + w.len())[0] == t[j]);
        assert(t[j] == '"');
        assert(t.subrange(j + 1, j + 1 + escape(v).len() + 1) =~= escape(v).push('"')) by {
            assert forall|k: int| 0 <= k < escape(v).len() + 1 implies t.subrange(
                j + 1,
                j + 1 + escape(v).len() + 1,
            )[k] == #[trigger] escape(v).push('"')[k] by {
                assert(t.subrange(j, j + w.len())[k + 1] == w[k + 1]);
            }
        }
        lemma_read_escaped(t, j + 1, v, seq![]);
        assert(seq![] + v =~= v);
    }
}

proof fn lemma_read_attr(t: Seq<char>, i: int, x: AttrModel)
    requires
        0 <= i,
        writable(x),
        i + attr_text(x).len() < t.len(),
        t.subrange(i, i + attr_text(x).len()) == attr_text(x),
        t[i + attr_text(x).len()] == ',',
    ensures
        attr_at(t, i) == Some((x, i + attr_text(x).len())),
        attr_text(x).len() > 0,
        !is_ws(t[i]) && t[i] != ']',
{
    let w = attr_text(x);
    assert forall|k: int| 0 <= k < w.len() implies t[i + k] == #[trigger] w[k] by {
        assert(t.subrange(i, i + w.len())[k] == t[i + k]);
    }
    match x {
        AttrModel::Positional(v) => {
            if bare_name(v) {
                assert(t[i] == v[0]);
                assert forall|m: int| i <= m < i + v.len() implies is_name_char(#[trigger] t[m]) by {
                    assert(t[m] == w[m - i]);
                }
                lemma_name_run(t, i, i + v.len());
                crate::element_attr::lemma_ws_end(t, i + v.len());
                assert(t.subrange(i, i + v.len()) =~= v);
            } else {
                assert(w[0] == '"');
                assert(t.subrange(i + 1, i + 1 + escape(v).len() + 1) =~= escape(v).push('"')) by {
                    assert forall|k: int| 0 <= k < escape(v).len() + 1 implies t.subrange(
                        i + 1,
                        i + 1 + escape(v).len() + 1,
                    )[k] == #[trigger] escape(v).push('"')[k] by {
                        assert(w[k + 1] == escape(v).push('"')[k]);
                    }
                }
                lemma_read_escaped(t, i + 1, v, seq![]);
                assert(seq![] + v =~= v);
            }
        },
        AttrModel::Named(n, v) => {
            let e1 = i + n.len();
            let vt0 = if bare_value(v) {
                v
            } else {
                quoted(v)
            };
            assert(w =~= n + seq!['='] + vt0);
            assert(w[0] == n[0]);
            assert(t[i] == n[0]);
            assert forall|m: int| i <= m < e1 implies is_name_char(#[trigger] t[m]) by {
                assert(t[m] == w[m - i]);
            }
            assert(t[e1] == w[n.len() as int]);
            lemma_name_run(t, i, e1);
            assert(t.subrange(i, e1) =~= n);
            let vt = if bare_value(v) {
                v
            } else {
                quoted(v)
            };
            assert(w =~= n + seq!['='] + vt);
            let j = e1 + 1;
            assert(t.subrange(j, j + vt.len()) =~= vt) by {
                assert forall|k: int| 0 <= k < vt.len() implies t.subrange(j, j + vt.len())[k]
                    == #[trigger] vt[k] by {
                    assert(w[n.len() + 1 + k] == vt[k]);
                }
            }
            assert(t[j + vt.len()] == ',');
            if vt.len() > 0 {
                assert(t[j] == vt[0]);
                if !bare_value(v) {
                    assert(vt[0] == '"');
                }
            }
            lemma_read_value(t, j, v);
        },
    }
}

proof fn lemma_read_items(t: Seq<char>, i: int, acc: Seq<AttrModel>, b: Seq<AttrModel>)
    requires
        0 <= i,
        all_writable(b),
        distinct_names(acc + b),
        i + items_text(b).len() + 1 == t.len(),
        t.subrange(i, t.len() as int) == items_text(b).push(']'),
    ensures
        list_from(t, i, acc) == Ok::<Seq<AttrModel>, crate::parser::Fault>(acc + b),
    decreases b.len(),
{
    let w = items_text(b).push(']');
    assert forall|k: int| 0 <= k < w.len() implies t[i + k] == #[trigger] w[k] by {
        assert(t.subrange(i, t.len() as int)[k] == t[i + k]);
    }
    if b.len() == 0 {
        assert(items_text(b) =~= seq![]);
        assert(w[0] == ']');
        assert(t[i] == ']');
        assert(acc + b =~= acc);
    } else {
        let x = b[0];
        let rest = b.drop_first();
        let at = attr_text(x);
        assert(writable(x));
        assert(items_text(b) == at + seq![','] + items_text(rest));
        assert(w =~= at + seq![','] + items_text(rest).push(']'));
        assert(t.subrange(i, i + at.len()) =~= at) by {
            assert forall|k: int| 0 <= k < at.len() implies t.subrange(i, i + at.len())[k]
                == #[trigger] at[k] by {
                assert(w[k] == at[k]);
            }
        }
        assert(t[i + at.len()] == w[at.len() as int]);
        lemma_read_attr(t, i, x);
        let e = i + at.len();
        assert(ws_end(t, i) == i);
        assert(ws_end(t, e) == e);
        assert(after_separator(t, e) == e + 1);
        let i2 = e + 1;
        assert(t.subrange(i2, t.len() as int) =~= items_text(rest).push(']')) by {
            assert forall|k: int| 0 <= k < items_text(rest).len() + 1 implies t.subrange(
                i2,
                t.len() as int,
            )[k] == #[trigger] items_text(rest).push(']')[k] by {
                assert(w[at.len() + 1 + k] == items_text(rest).push(']')[k]);
            }
        }
        assert(acc.push(x) + rest =~= acc + b);
        assert(all_writable(rest)) by {
            assert forall|k: int| 0 <= k < rest.len() implies writable(#[trigger] rest[k]) by {
                assert(rest[k] == b[k + 1]);
            }
        }
        match x {
            AttrModel::Named(n, _) => {
                if has_name(acc, n) {
                    let k = choose|k: int| 0 <= k < acc.len() && (#[trigger] acc[k] matches AttrModel::Named(m, _) && m == n);
                    let ab = acc + b;
                    assert(ab[k] == acc[k]);
                    assert(ab[acc.len() as int] == x);
                }
            },
            _ => {},
        }
        lemma_read_items(t, i2, acc.push(x), rest);
    }
}

/// Reading an attribute list, writing it out and reading that again gives
/// the same attributes.
pub proof fn lemma_round_trip(s: Seq<char>)
    requires
        attr_list(s) is Ok,
    ensures
        attr_list(render(attr_list(s)->Ok_0)) == attr_list(s),
{
    let a = attr_list(s)->Ok_0;
    assert(all_writable(seq![]) && distinct_names(seq![]));
    lemma_list_from_writable(s, 1, seq![]);
    let t = render(a);
    assert(t[0] == '[');
    assert(t.subrange(1, t.len() as int) =~= items_text(a).push(']'));
    assert(seq![] + a =~= a);
    lemma_read_items(t, 1, seq![], a);
    if a.len() > 0 {
        assert(items_text(a) == attr_text(a[0]) + seq![','] + items_text(a.drop_first()));
        assert(t[1] == items_text(a).push(']')[0]);
        assert(writable(a[0]));
        let at = attr_text(a[0]);
        let w = items_text(a).push(']');
        assert(t.subrange(1, 1 + at.len() as int) =~= at) by {
            assert forall|k: int| 0 <= k < at.len() implies t.subrange(1, 1 + at.len() as int)[k]
                == #[trigger] at[k] by {
                assert(t[1 + k] == w[k]);
            }
        }
        assert(t[1 + at.len() as int] == w[at.len() as int]);
        lemma_read_attr(t, 1, a[0]);
    } else {
        assert(t[1] == ']');
    }
}

fn is_bare_name(v: &Vec<char>) -> (r: bool)
    ensures
        r == bare_name(v@),
{
    if v.len() == 0 {
        return false;
    }
    let mut i: usize = 0;
    while i < v.len()
        invariant
            i <= v@.len(),
            forall|k: int| 0 <= k < i ==> is_name_char(#[trigger] v@[k]),
        decreases v@.len() - i,
    {
        let c = v[i];
        if c == ',' || c == '\'' || c == '"' || c == ']' || c == '=' || is_whitespace(c) {
            return false;
        }
        i = i + 1;
    }
    true
}

fn is_bare_value(v: &Vec<char>) -> (r: bool)
    ensures
        r == bare_value(v@),
{
    let mut i: usize = 0;
    while i < v.len()
        invariant
            i <= v@.len(),
            forall|k: int| 0 <= k < i ==> is_unquoted_char(#[trigger] v@[k]),
        decreases v@.len() - i,
    {
        let c = v[i];
        if c == ',' || c == '\'' || c == '"' || c == ']' || is_whitespace(c) {
            return false;
        }
        i = i + 1;
    }
    true
}

/// Appends `v` in double quotes.
fn push_quoted(out: &mut Vec<char>, v: &Vec<char>)
    ensures
        final(out)@ == old(out)@ + quoted(v@),
{
    out.push('"');
    let ghost start = out@;
    let mut i: usize = 0;
    assert(v@.subrange(0, v@.len() as int) =~= v@);
    assert(out@ =~= start + seq![]);
    while i < v.len()
        invariant
            i <= v@.len(),
            start == old(out)@.push('"'),
            start + escape(v@) == out@ + escape(v@.subrange(i as int, v@.len() as int)),
        decreases v@.len() - i,
    {
        let ghost rest = v@.subrange(i as int, v@.len() as int);
        assert(rest.drop_first() =~= v@.subrange(i + 1, v@.len() as int));
        assert(rest[0] == v@[i as int]);
        let ghost before = out@;
        if v[i] == '"' {
            out.push('\\');
            out.push('"');
        } else {
            out.push(v[i]);
        }
        assert(before + escape(rest) =~= out@ + escape(v@.subrange(i + 1, v@.len() as int)));
        i = i + 1;
    }
    assert(escape(v@.subrange(i as int, v@.len() as int)) =~= seq![]);
    out.push('"');
    assert(out@ =~= old(out)@ + quoted(v@));
}

/// Appends the characters of `v`.
fn push_all(out: &mut Vec<char>, v: &Vec<char>)
    ensures
        final(out)@ == old(out)@ + v@,
{
    let mut i: usize = 0;
    while i < v.len()
        invariant
            i <= v@.len(),
            out@ == old(out)@ + v@.subrange(0, i as int),
        decreases v@.len() - i,
    {
        out.push(v[i]);
        i = i + 1;
        assert(out@ =~= old(out)@ + v@.subrange(0, i as int));
    }
    assert(v@.subrange(0, v@.len() as int) =~= v@);
}

/// Appends how the attribute `a` is written.
fn push_attr(out: &mut Vec<char>, a: &ElementAttr)
    ensures
        final(out)@ == old(out)@ + attr_text(a@),
{
    match a {
        ElementAttr::Positional(v) => {
            let cs = chars_of(v.as_str());
            if is_bare_name(&cs) {
                push_all(out, &cs);
            } else {
                push_quoted(out, &cs);
            }
        },
        ElementAttr::Named(n, v) => {
            let ns = chars_of(n.as_str());
            let vs = chars_of(v.as_str());
            let ghost start = out@;
            push_all(out, &ns);
            out.push('=');
            if is_bare_value(&vs) {
                push_all(out, &vs);
            } else {
                push_quoted(out, &vs);
            }
            assert(out@ =~= start + attr_text(a@));
        },
    }
}

impl ElementAttrs {
    /// The list written out: each attribute bare where its characters allow
    /// it, else in double quotes with `"` escaped, each followed by a comma.
    pub fn render(&self) -> (r: String)
        ensures
            r@ == render(self@),
    {
        let mut out: Vec<char> = Vec::new();
        out.push('[');
        let n = self.0.len();
        let mut i: usize = 0;
        assert(self@.subrange(0, n as int) =~= self@);
        while i < n
            invariant
                i <= n == self.0@.len() == self@.len(),
                out@ + items_text(self@.subrange(i as int, n as int)) == seq!['['] + items_text(self@),
            decreases n - i,
        {
            let ghost rest = self@.subrange(i as int, n as int);
            assert(rest.drop_first() =~= self@.subrange(i + 1, n as int));
            assert(rest[0] == self.0@[i as int]@);
            let ghost before = out@;
            push_attr(&mut out, &self.0[i]);
            out.push(',');
            assert(before + items_text(rest) =~= out@ + items_text(self@.subrange(i + 1, n as int)));
            i = i + 1;
        }
        assert(items_text(self@.subrange(n as int, n as int)) =~= seq![]);
        out.push(']');
        assert(out@ =~= render(self@));
        string_of(out.as_slice())
    }
}

} // verus!
