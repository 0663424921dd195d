//! A simple code span: beginning and ending positions with a growing
//! `extend` operation.

use vstd::prelude::*;

use crate::range::{spec_range_str, Range};
use crate::strutil::chars_to_string;

verus! {

/// A span of code between two 1-based `(line, column)` positions.
#[derive(Clone, Copy, Debug, PartialEq, Eq, Structural, Hash)]
pub struct CodeSpan {
    pub begin_line: u64,
    pub begin_column: u64,
    pub end_line: u64,
    pub end_column: u64,
}

impl CodeSpan {
    /// Creates a new code span.
    pub fn new(begin_line: u64, begin_column: u64, end_line: u64, end_column: u64) -> (r: Self)
        ensures
            r == (CodeSpan { begin_line, begin_column, end_line, end_column }),
    {
        Self { begin_line, begin_column, end_line, end_column }
    }

    /// Extends a span with another one, only if it grows: the result begins
    /// at the lexicographically smaller beginning and ends at the
    /// lexicographically larger end.
    pub fn extend(self, other: &CodeSpan) -> (r: Self)
        ensures
            (r.begin_line, r.begin_column) == spec_pos_min(
                (self.begin_line, self.begin_column),
                (other.begin_line, other.begin_column),
            ),
            (r.end_line, r.end_column) == spec_pos_max(
                (self.end_line, self.end_column),
                (other.end_line, other.end_column),
            ),
    {
        Self {
            begin_line: if other.begin_line <= self.begin_line {
                other.begin_line
            } else {
                self.begin_line
            },
            begin_column: if other.begin_line < self.begin_line {
                other.begin_column
            } else if other.begin_line == self.begin_line {
                if other.begin_column <= self.begin_column {
                    other.begin_column
                } else {
                    self.begin_column
                }
            } else {
                self.begin_column
            },
            end_line: if other.end_line >= self.end_line {
                other.end_line
            } else {
                self.end_line
            },
            end_column: if other.end_line > self.end_line {
                other.end_column
            } else if other.end_line == self.end_line {
                if other.end_column >= self.end_column {
                    other.end_column
                } else {
                    self.end_column
                }
            } else {
                self.end_column
            },
        }
    }

    /// Renders the span as `L.C,L.C`.
    pub fn render(&self) -> (r: String)
        ensures
            r@ == spec_range_str(
                Range {
                    begin: (self.begin_line, self.begin_column),
                    end: (self.end_line, self.end_column),
                },
            ),
    {
        let range = Range::new(self.begin_line, self.begin_column, self.end_line, self.end_column);
        let chars = range.render();
        chars_to_string(&chars)
    }
}

impl Default for CodeSpan {
    /// The default span is `1.1,1.1`.
    fn default() -> (r: Self)
        ensures
            r == (CodeSpan { begin_line: 1u64, begin_column: 1u64, end_line: 1u64, end_column: 1u64 }),
    {
        Self { begin_line: 1, begin_column: 1, end_line: 1, end_column: 1 }
    }
}

/// The lexicographically smaller of two positions.
pub open spec fn spec_pos_min(a: (u64, u64), b: (u64, u64)) -> (u64, u64) {
    if b.0 < a.0 || (b.0 == a.0 && b.1 <= a.1) {
        b
    } else {
        a
    }
}

/// The lexicographically larger of two positions.
pub open spec fn spec_pos_max(a: (u64, u64), b: (u64, u64)) -> (u64, u64) {
    if b.0 > a.0 || (b.0 == a.0 && b.1 >= a.1) {
        b
    } else {
        a
    }
}

} // verus!
