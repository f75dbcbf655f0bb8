//! Byte ranges in source text.

use vstd::prelude::*;
use crate::text::{decimal_text, push_decimal, push_str_chars};

verus! {

/// A half-open range of byte offsets `start..end` into a source text.
#[derive(Debug, Clone, Copy, PartialEq, Eq, Structural, Hash, Default)]
pub struct Span {
    /// Byte offset of the first character.
    pub start: usize,
    /// Byte offset one past the last character.
    pub end: usize,
}

impl Span {
    /// Creates a span from its two offsets.
    pub fn new(start: usize, end: usize) -> (s: Self)
        ensures
            s.start == start,
            s.end == end,
    {
        Span { start, end }
    }

    /// Number of bytes covered; zero when `end` lies before `start`.
    pub fn len(&self) -> (n: usize)
        ensures
            n == (if self.end >= self.start { (self.end - self.start) as usize } else { 0 }),
    {
        self.end.saturating_sub(self.start)
    }

    /// The span as text: `start..end`.
    pub fn to_string(&self) -> (r: String)
        ensures
            r@ == decimal_text(self.start as nat) + ".."@ + decimal_text(self.end as nat),
    {
        let mut s = String::new();
        push_decimal(&mut s, self.start as u64);
        push_str_chars(&mut s, "..");
        push_decimal(&mut s, self.end as u64);
        assert(s@ =~= decimal_text(self.start as nat) + ".."@ + decimal_text(self.end as nat));
        s
    }

    /// Whether the span starts where it ends.
    pub fn is_empty(&self) -> (b: bool)
        ensures
            b == (self.start == self.end),
    {
        self.start == self.end
    }
}

} // verus!
