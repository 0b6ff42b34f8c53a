//! Results that are several readings of one input, compared as sets.

use vstd::prelude::*;
use vstd::std_specs::cmp::PartialEqSpec;

verus! {

/// Items compared as a set: two are equal when each holds every item of the
/// other.
#[derive(Debug)]
pub struct VecSet<T>(pub Vec<T>);

/// Some item of `b` equals `x`.
pub open spec fn has_equal<T: PartialEq>(b: Seq<T>, x: T) -> bool {
    exists|j: int| 0 <= j < b.len() && x.eq_spec(&b[j])
}

/// Every item of `a` equals some item of `b`.
pub open spec fn covers<T: PartialEq>(a: Seq<T>, b: Seq<T>) -> bool {
    forall|i: int| 0 <= i < a.len() ==> has_equal(b, #[trigger] a[i])
}

impl<T> VecSet<T> {
    pub fn new(v: Vec<T>) -> (r: Self)
        ensures
            r.0@ == v@,
    {
        VecSet(v)
    }
}

/// Whether some item of `v` equals `x`.
fn contains_item<T: PartialEq>(v: &Vec<T>, x: &T) -> (r: bool)
    ensures
        T::obeys_eq_spec() ==> r == has_equal(v@, *x),
{
    let mut i: usize = 0;
    while i < v.len()
        invariant
            i <= v@.len(),
            T::obeys_eq_spec() ==> forall|j: int| 0 <= j < i ==> !x.eq_spec(&#[trigger] v@[j]),
        decreases v@.len() - i,
    {
        if *x == v[i] {
            return true;
        }
        i = i + 1;
    }
    false
}

/// Whether every item of `a` equals some item of `b`.
fn covers_all<T: PartialEq>(a: &Vec<T>, b: &Vec<T>) -> (r: bool)
    ensures
        T::obeys_eq_spec() ==> r == covers(a@, b@),
{
    let mut i: usize = 0;
    while i < a.len()
        invariant
            i <= a@.len(),
            T::obeys_eq_spec() ==> forall|k: int| 0 <= k < i ==> has_equal(b@, #[trigger] a@[k]),
        decreases a@.len() - i,
    {
        if !contains_item(b, &a[i]) {
            return false;
        }
        i = i + 1;
    }
    true
}

impl<T: PartialEq> PartialEq for VecSet<T> {
    fn eq(&self, other: &VecSet<T>) -> (r: bool) {
        covers_all(&self.0, &other.0) && covers_all(&other.0, &self.0)
    }
}

impl<T: PartialEq> vstd::std_specs::cmp::PartialEqSpecImpl for VecSet<T> {
    open spec fn obeys_eq_spec() -> bool {
        T::obeys_eq_spec()
    }

    open spec fn eq_spec(&self, other: &VecSet<T>) -> bool {
        covers(self.0@, other.0@) && covers(other.0@, self.0@)
    }
}

/// Reads every plausible interpretation of one line.
pub trait MultiParse: Sized {
    fn multiparse(s: &str) -> VecSet<Self>;
}

} // verus!
