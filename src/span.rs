use vstd::prelude::*;
use std::cmp::Ordering;
use std::ops::Range;

verus! {

/// A half-open range `[start, end)` of character offsets (not byte offsets)
/// into a source text.
#[derive(Clone, Copy, Debug, PartialEq, Eq, Structural)]
pub struct Span {
    pub start: usize,
    pub end: usize,
}

/// The smallest span that contains both `a` and `b`.
pub open spec fn merged(a: Span, b: Span) -> Span {
    Span {
        start: if a.start <= b.start { a.start } else { b.start },
        end: if a.end >= b.end { a.end } else { b.end },
    }
}

/// Spans are ordered by their start, then by their width (narrower first).
pub open spec fn span_order(a: Span, b: Span) -> Ordering {
    if a.start > b.start {
        Ordering::Greater
    } else if a.start < b.start {
        Ordering::Less
    } else if a.end - a.start > b.end - b.start {
        Ordering::Greater
    } else if a.end - a.start < b.end - b.start {
        Ordering::Less
    } else {
        Ordering::Equal
    }
}

impl Span {
    pub open spec fn wf(self) -> bool {
        self.start <= self.end
    }

    pub open spec fn spec_width(self) -> int {
        self.end - self.start
    }

    pub fn new(start: usize, end: usize) -> (r: Span)
        ensures
            r == (Span { start, end }),
    {
        Span { start, end }
    }

    /// The one-character span that begins at `start`.
    pub fn new_start(start: usize) -> (r: Span)
        requires
            start < usize::MAX,
        ensures
            r == (Span { start, end: (start + 1) as usize }),
    {
        Span { start, end: start + 1 }
    }

    /// The one-character span at the start of `self`.
    pub fn start(&self) -> (r: Span)
        requires
            self.start < usize::MAX,
        ensures
            r == (Span { start: self.start, end: (self.start + 1) as usize }),
    {
        Span { start: self.start, end: self.start + 1 }
    }

    /// The one-character span at the end of `self`.
    pub fn end(&self) -> (r: Span)
        requires
            self.end > 0,
        ensures
            r == (Span { start: (self.end - 1) as usize, end: self.end }),
    {
        Span { start: self.end - 1, end: self.end }
    }

    pub fn merge(&self, other: Span) -> (r: Span)
        ensures
            r == merged(*self, other),
    {
        Span {
            start: if self.start <= other.start { self.start } else { other.start },
            end: if self.end >= other.end { self.end } else { other.end },
        }
    }

    pub fn width(&self) -> (r: usize)
        requires
            self.wf(),
        ensures
            r == self.spec_width(),
    {
        self.end - self.start
    }

    /// The span of `width` characters that begins where `self` begins.
    pub fn with_width(&self, width: usize) -> (r: Span)
        requires
            self.wf(),
            width <= self.spec_width(),
        ensures
            r == (Span { start: self.start, end: (self.start + width) as usize }),
    {
        Span { start: self.start, end: self.start + width }
    }

    pub fn contains(&self, other: Span) -> (r: bool)
        ensures
            r == (self.start <= other.start && self.end >= other.end),
    {
        self.start <= other.start && self.end >= other.end
    }

    pub fn into_range(self) -> (r: Range<usize>)
        ensures
            r.start == self.start,
            r.end == self.end,
    {
        Range { start: self.start, end: self.end }
    }

    pub fn cmp(&self, other: &Span) -> (r: Ordering)
        requires
            self.wf(),
            other.wf(),
        ensures
            r == span_order(*self, *other),
    {
        if self.start > other.start {
            Ordering::Greater
        } else if self.start < other.start {
            Ordering::Less
        } else if self.width() > other.width() {
            Ordering::Greater
        } else if self.width() < other.width() {
            Ordering::Less
        } else {
            Ordering::Equal
        }
    }
}

} // verus!
