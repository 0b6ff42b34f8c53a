//! Characters and character sequences: whitespace, trimming, and the move
//! between `str`/`String` and the `Vec<char>` form the scanners work on.

use vstd::prelude::*;
use vstd::std_specs::iter::IteratorSpec;

verus! {

/// Unicode `White_Space` characters, the ones `char::is_whitespace` accepts.
pub open spec fn is_ws(c: char) -> bool {
    let u = c as u32;
    ||| 0x9 <= u <= 0xd
    ||| u == 0x20
    ||| u == 0x85
    ||| u == 0xa0
    ||| u == 0x1680
    ||| 0x2000 <= u <= 0x200a
    ||| u == 0x2028
    ||| u == 0x2029
    ||| u == 0x202f
    ||| u == 0x205f
    ||| u == 0x3000
}

/// Every character of `s` is whitespace (true of the empty sequence).
pub open spec fn all_ws(s: Seq<char>) -> bool {
    forall|i: int| 0 <= i < s.len() ==> is_ws(#[trigger] s[i])
}

/// `s` without its trailing whitespace.
pub open spec fn trim_end(s: Seq<char>) -> Seq<char>
    decreases s.len(),
{
    if s.len() > 0 && is_ws(s.last()) {
        trim_end(s.drop_last())
    } else {
        s
    }
}

/// `s` without its leading whitespace.
pub open spec fn trim_start(s: Seq<char>) -> Seq<char>
    decreases s.len(),
{
    if s.len() > 0 && is_ws(s[0]) {
        trim_start(s.drop_first())
    } else {
        s
    }
}

/// `s` without leading and trailing whitespace.
pub open spec fn trim(s: Seq<char>) -> Seq<char> {
    trim_start(trim_end(s))
}

/// Whether `c` is whitespace.
pub fn is_whitespace(c: char) -> (r: bool)
    ensures
        r == is_ws(c),
{
    let u = c as u32;
    (0x9 <= u && u <= 0xd) || u == 0x20 || u == 0x85 || u == 0xa0 || u == 0x1680 || (0x2000 <= u
        && u <= 0x200a) || u == 0x2028 || u == 0x2029 || u == 0x202f || u == 0x205f || u == 0x3000
}

/// What `char::is_alphanumeric` answers for `c`.
pub uninterp spec fn alphanumeric(c: char) -> bool;

/// Relies on `char::is_alphanumeric`: whether `c` has the Unicode Alphabetic
/// or Numeric property, a function of `c` alone.
#[verifier::external_body]
pub(crate) fn is_alphanumeric(c: char) -> (r: bool)
    ensures
        r == alphanumeric(c),
{
    c.is_alphanumeric()
}

/// The characters of `s`, in order.
pub fn chars_of(s: &str) -> (r: Vec<char>)
    ensures
        r@ == s@,
{
    broadcast use vstd::string::group_string_axioms;
    let mut it = s.chars();
    let mut r: Vec<char> = Vec::new();
    loop
        invariant
            r@ + it.remaining() == s@,
            it.decrease() is Some,
        ensures
            r@ == s@,
        decreases it.decrease()->0,
    {
        match it.next() {
            Some(c) => {
                r.push(c);
            },
            None => {
                assert(it.remaining().len() == 0);
                assert(r@ + it.remaining() =~= r@);
                break;
            },
        }
    }
    r
}

/// Relies on `FromIterator<&char> for String`: the string holds the
/// characters in order.
#[verifier::external_body]
pub(crate) fn string_of(v: &[char]) -> (r: String)
    ensures
        r@ == v@,
{
    v.iter().collect()
}

/// A copy of `v[lo..hi]`.
pub fn copy_range(v: &Vec<char>, lo: usize, hi: usize) -> (r: Vec<char>)
    requires
        lo <= hi <= v@.len(),
    ensures
        r@ == v@.subrange(lo as int, hi as int),
{
    let mut r: Vec<char> = Vec::new();
    let mut i: usize = lo;
    while i < hi
        invariant
            lo <= i <= hi <= v@.len(),
            r@ == v@.subrange(lo as int, i as int),
        decreases hi - i,
    {
        r.push(v[i]);
        i = i + 1;
        assert(r@ =~= v@.subrange(lo as int, i as int));
    }
    r
}

/// The string made of `v[lo..hi]`.
pub fn string_of_range(v: &Vec<char>, lo: usize, hi: usize) -> (r: String)
    requires
        lo <= hi <= v@.len(),
    ensures
        r@ == v@.subrange(lo as int, hi as int),
{
    let part = copy_range(v, lo, hi);
    string_of(part.as_slice())
}

proof fn lemma_trim_end_prefix(s: Seq<char>, hi: int)
    requires
        0 <= hi <= s.len(),
        all_ws(s.subrange(hi, s.len() as int)),
    ensures
        trim_end(s) == trim_end(s.subrange(0, hi)),
    decreases s.len() - hi,
{
    if hi < s.len() {
        assert(is_ws(s.subrange(hi, s.len() as int)[0]));
        assert(all_ws(s.subrange(hi + 1, s.len() as int))) by {
            assert forall|i: int| 0 <= i < s.len() - (hi + 1) implies is_ws(
                #[trigger] s.subrange(hi + 1, s.len() as int)[i],
            ) by {
                assert(is_ws(s.subrange(hi, s.len() as int)[i + 1]));
            }
        }
        lemma_trim_end_prefix(s, hi + 1);
        let t = s.subrange(0, hi + 1);
        assert(t.drop_last() =~= s.subrange(0, hi));
        assert(t.last() == s[hi]);
    } else {
        assert(s.subrange(0, hi) =~= s);
    }
}

proof fn lemma_trim_start_suffix(s: Seq<char>, lo: int)
    requires
        0 <= lo <= s.len(),
        all_ws(s.subrange(0, lo)),
    ensures
        trim_start(s) == trim_start(s.subrange(lo, s.len() as int)),
    decreases lo,
{
    if lo > 0 {
        assert(is_ws(s.subrange(0, lo)[0]));
        let d = s.drop_first();
        assert(all_ws(d.subrange(0, lo - 1))) by {
            assert forall|i: int| 0 <= i < lo - 1 implies is_ws(#[trigger] d.subrange(0, lo - 1)[i]) by {
                assert(is_ws(s.subrange(0, lo)[i + 1]));
            }
        }
        lemma_trim_start_suffix(d, lo - 1);
        assert(d.subrange(lo - 1, d.len() as int) =~= s.subrange(lo, s.len() as int));
    } else {
        assert(s.subrange(0, s.len() as int) =~= s);
    }
}

/// The end of `v[lo..hi]` once trailing whitespace is dropped.
pub fn trim_end_index(v: &Vec<char>, lo: usize, hi: usize) -> (r: usize)
    requires
        lo <= hi <= v@.len(),
    ensures
        lo <= r <= hi,
        v@.subrange(lo as int, r as int) == trim_end(v@.subrange(lo as int, hi as int)),
{
    let mut j: usize = hi;
    while j > lo && is_whitespace(v[j - 1])
        invariant
            lo <= j <= hi <= v@.len(),
            all_ws(v@.subrange(j as int, hi as int)),
        decreases j,
    {
        j = j - 1;
        assert(all_ws(v@.subrange(j as int, hi as int))) by {
            assert forall|i: int| 0 <= i < hi - j implies is_ws(
                #[trigger] v@.subrange(j as int, hi as int)[i],
            ) by {
                if i > 0 {
                    assert(v@.subrange(j as int, hi as int)[i] == v@.subrange(
                        j + 1,
                        hi as int,
                    )[i - 1]);
                }
            }
        }
    }
    let ghost s = v@.subrange(lo as int, hi as int);
    proof {
        assert(s.subrange(j - lo, s.len() as int) =~= v@.subrange(j as int, hi as int));
        lemma_trim_end_prefix(s, j - lo);
        assert(s.subrange(0, j - lo) =~= v@.subrange(lo as int, j as int));
        let t = v@.subrange(lo as int, j as int);
        if t.len() > 0 {
            assert(t.last() == v@[j - 1]);
        }
    }
    j
}

/// The start of `v[lo..hi]` once leading whitespace is dropped.
pub fn trim_start_index(v: &Vec<char>, lo: usize, hi: usize) -> (r: usize)
    requires
        lo <= hi <= v@.len(),
    ensures
        lo <= r <= hi,
        v@.subrange(r as int, hi as int) == trim_start(v@.subrange(lo as int, hi as int)),
        all_ws(v@.subrange(lo as int, r as int)),
{
    let mut j: usize = lo;
    while j < hi && is_whitespace(v[j])
        invariant
            lo <= j <= hi <= v@.len(),
            all_ws(v@.subrange(lo as int, j as int)),
        decreases hi - j,
    {
        j = j + 1;
        assert(all_ws(v@.subrange(lo as int, j as int))) by {
            assert forall|i: int| 0 <= i < j - lo implies is_ws(
                #[trigger] v@.subrange(lo as int, j as int)[i],
            ) by {
                if i < j - 1 - lo {
                    assert(v@.subrange(lo as int, j as int)[i] == v@.subrange(
                        lo as int,
                        j - 1,
                    )[i]);
                }
            }
        }
    }
    let ghost s = v@.subrange(lo as int, hi as int);
    proof {
        assert(s.subrange(0, j - lo) =~= v@.subrange(lo as int, j as int));
        lemma_trim_start_suffix(s, j - lo);
        assert(s.subrange(j - lo, s.len() as int) =~= v@.subrange(j as int, hi as int));
        let t = v@.subrange(j as int, hi as int);
        if t.len() > 0 {
            assert(t[0] == v@[j as int]);
        }
    }
    j
}

} // verus!
