//! Positions and ranges in the edited buffer.
//!
//! A position is a 1-based `(line, column)` pair; a range covers from its
//! begin position to its end position inclusively and is written
//! `L.C,L.C`.

use vstd::prelude::*;

use crate::strutil::{push_chars, spec_u64_dec, u64_dec_chars};

verus! {

/// Lexicographic strict order on `(line, column)` positions.
pub open spec fn pos_lt(a: (u64, u64), b: (u64, u64)) -> bool {
    a.0 < b.0 || (a.0 == b.0 && a.1 < b.1)
}

/// Lexicographic order on `(line, column)` positions.
pub open spec fn pos_le(a: (u64, u64), b: (u64, u64)) -> bool {
    a.0 < b.0 || (a.0 == b.0 && a.1 <= b.1)
}

/// A range of buffer positions, inclusive at both ends.
#[derive(Clone, Copy, Debug, PartialEq, Eq)]
pub struct Range {
    pub begin: (u64, u64),
    pub end: (u64, u64),
}

/// The rendering `L.C,L.C` of a range.
pub open spec fn spec_range_str(r: Range) -> Seq<char> {
    spec_u64_dec(r.begin.0 as int) + seq!['.'] + spec_u64_dec(r.begin.1 as int) + seq![',']
        + spec_u64_dec(r.end.0 as int) + seq!['.'] + spec_u64_dec(r.end.1 as int)
}

impl Range {
    /// Builds the range `begin_line.begin_column,end_line.end_column`.
    pub fn new(begin_line: u64, begin_column: u64, end_line: u64, end_column: u64) -> (r: Self)
        ensures
            r == (Range { begin: (begin_line, begin_column), end: (end_line, end_column) }),
    {
        Self { begin: (begin_line, begin_column), end: (end_line, end_column) }
    }

    /// Renders the range as `L.C,L.C`.
    pub fn render(&self) -> (r: Vec<char>)
        ensures
            r@ == spec_range_str(*self),
    {
        let mut out = u64_dec_chars(self.begin.0);
        out.push('.');
        let mut t = u64_dec_chars(self.begin.1);
        push_chars(&mut out, &t);
        out.push(',');
        t = u64_dec_chars(self.end.0);
        push_chars(&mut out, &t);
        out.push('.');
        t = u64_dec_chars(self.end.1);
        push_chars(&mut out, &t);
        assert(out@ =~= spec_range_str(*self));
        out
    }
}

impl Default for Range {
    /// The default range is `1.1,1.1`.
    fn default() -> (r: Self)
        ensures
            r == (Range { begin: (1u64, 1u64), end: (1u64, 1u64) }),
    {
        Self { begin: (1, 1), end: (1, 1) }
    }
}

} // verus!
