//! Section titles: one to six `=` (or `#`), whitespace, then the title.

use vstd::prelude::*;
use crate::parser::{Parser, ParserError};
use crate::text::{chars_of, is_whitespace, is_ws, string_of_range, trim, trim_end_index, trim_start_index};

verus! {

/// A section title with its marker and level (the marker count less one).
#[derive(Debug, Clone)]
pub struct SectionTitle {
    pub marker: char,
    pub level: usize,
    pub title: String,
}

/// The end of the run of `c` in `s` that starts at `i`.
pub open spec fn run_end(s: Seq<char>, c: char, i: int) -> int
    decreases s.len() - i,
{
    if 0 <= i < s.len() && s[i] == c {
        run_end(s, c, i + 1)
    } else {
        i
    }
}

/// The (marker, level, title) of a section title line; the title is trimmed.
pub open spec fn section_title(s: Seq<char>) -> Option<(char, nat, Seq<char>)> {
    if s.len() > 0 && (s[0] == '=' || s[0] == '#') {
        let m = run_end(s, s[0], 0);
        if m <= 6 && m + 2 <= s.len() && is_ws(s[m]) {
            Some((s[0], (m - 1) as nat, trim(s.subrange(m, s.len() as int))))
        } else {
            None
        }
    } else {
        None
    }
}

proof fn lemma_run_end(s: Seq<char>, c: char, i: int)
    requires
        0 <= i <= s.len(),
    ensures
        i <= run_end(s, c, i) <= s.len(),
    decreases s.len() - i,
{
    if i < s.len() && s[i] == c {
        lemma_run_end(s, c, i + 1);
    }
}

impl SectionTitle {
    /// Reads a section title line.
    pub fn parse(s: &str) -> (r: Result<SectionTitle, ParserError>)
        ensures
            match section_title(s@) {
                Some((m, l, t)) => r matches Ok(st) && st.marker == m && st.level == l && st.title@ == t,
                None => r matches Err(ParserError::Mismatch),
            },
    {
        let v = chars_of(s);
        let n = v.len();
        if n == 0 || (v[0] != '=' && v[0] != '#') {
            return Err(ParserError::Mismatch);
        }
        let marker = v[0];
        let mut m: usize = 0;
        while m < n && v[m] == marker
            invariant
                m <= n == v@.len(),
                run_end(v@, marker, 0) == run_end(v@, marker, m as int),
            decreases n - m,
        {
            m = m + 1;
        }
        if m <= 6 && m + 2 <= n && is_whitespace(v[m]) {
            let e = trim_end_index(&v, m, n);
            let b = trim_start_index(&v, m, e);
            Ok(SectionTitle { marker, level: m - 1, title: string_of_range(&v, b, e) })
        } else {
            Err(ParserError::Mismatch)
        }
    }
}

impl Parser for SectionTitle {
    fn parse(s: &str) -> (r: Result<SectionTitle, ParserError>)
        ensures
            match section_title(s@) {
                Some((m, l, t)) => r matches Ok(st) && st.marker == m && st.level == l && st.title@ == t,
                None => r matches Err(ParserError::Mismatch),
            },
    {
        SectionTitle::parse(s)
    }
}

impl PartialEq for SectionTitle {
    fn eq(&self, other: &SectionTitle) -> (r: bool) {
        self.marker == other.marker && self.level == other.level && self.title == other.title
    }
}

impl vstd::std_specs::cmp::PartialEqSpecImpl for SectionTitle {
    open spec fn obeys_eq_spec() -> bool {
        true
    }

    open spec fn eq_spec(&self, other: &SectionTitle) -> bool {
        self.marker == other.marker && self.level == other.level && self.title@ == other.title@
    }
}

impl Eq for SectionTitle {}

} // verus!
