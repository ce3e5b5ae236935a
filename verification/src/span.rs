//! Source-aware spans: a half-open byte range inside one named source file,
//! and helpers for values tagged with such a range.

use vstd::prelude::*;

verus! {

/// Opaque handle naming one source file within a session.
///
/// The source store that assigns these handles is an external collaborator;
/// here the handle is only carried through and compared for equality.
pub type SourceId = usize;

/// A half-open byte range `[start, end)` within the source named by `src`.
#[derive(Debug, Clone, Copy, PartialEq, Eq, Structural)]
pub struct Span {
    pub src: SourceId,
    pub start: usize,
    pub end: usize,
}

impl Default for Span {
    fn default() -> (s: Self)
        ensures
            s == (Span { src: 0, start: 0, end: 0 }),
    {
        Span { src: 0, start: 0, end: 0 }
    }
}

impl Span {
    pub fn new(src: SourceId, range: core::ops::Range<usize>) -> (s: Self)
        ensures
            s.src == src,
            s.start == range.start,
            s.end == range.end,
    {
        Span { src, start: range.start, end: range.end }
    }

    pub fn start(&self) -> (n: usize)
        ensures
            n == self.start,
    {
        self.start
    }

    pub fn end(&self) -> (n: usize)
        ensures
            n == self.end,
    {
        self.end
    }

    pub fn len(&self) -> (n: usize)
        requires
            self.start <= self.end,
        ensures
            n == self.end - self.start,
    {
        self.end - self.start
    }

    pub fn is_empty(&self) -> (b: bool)
        ensures
            b == (self.start >= self.end),
    {
        self.start >= self.end
    }

    /// What `merge` returns: the span from the smaller start to the larger
    /// end, in the same source.
    pub open spec fn spec_merge(self, other: Self) -> Self {
        Span {
            src: self.src,
            start: if self.start <= other.start {
                self.start
            } else {
                other.start
            },
            end: if self.end >= other.end {
                self.end
            } else {
                other.end
            },
        }
    }

    /// Merge two spans that originate from the same source: the result runs
    /// from the smaller start to the larger end.
    pub fn merge(self, other: Self) -> (s: Self)
        requires
            self.src == other.src,
        ensures
            s == self.spec_merge(other),
            s.src == self.src,
            s.start == if self.start <= other.start {
                self.start
            } else {
                other.start
            },
            s.end == if self.end >= other.end {
                self.end
            } else {
                other.end
            },
    {
        Span {
            src: self.src,
            start: if self.start <= other.start {
                self.start
            } else {
                other.start
            },
            end: if self.end >= other.end {
                self.end
            } else {
                other.end
            },
        }
    }
}

/// A value paired with the span it came from.
pub type Spanned<T> = (T, Span);

pub trait SpannedExt {
    spec fn spec_span(&self) -> Span;

    fn span(&self) -> (s: Span)
        ensures
            s == self.spec_span(),
    ;
}

impl<T> SpannedExt for (T, Span) {
    open spec fn spec_span(&self) -> Span {
        self.1
    }

    fn span(&self) -> (s: Span) {
        self.1
    }
}

} // verus!
