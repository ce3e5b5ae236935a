//! Compact source locations: a half-open byte range and a value tagged with one.

use vstd::prelude::*;

verus! {

/// A half-open byte range `[start, end)` within a single source.
#[derive(Debug, Clone, Copy, PartialEq, Eq, Hash, Structural)]
pub struct Span {
    pub start: u32,
    pub end: u32,
}

impl Span {
    /// Builds a span from its bounds; an inverted range is not a span.
    pub fn new(start: u32, end: u32) -> (s: Self)
        requires
            start <= end,
        ensures
            s.start == start,
            s.end == end,
    {
        Self { start, end }
    }

    /// The smallest span containing both `self` and `other`.
    pub fn merge(self, other: Span) -> (s: Span)
        ensures
            s.start == if self.start <= other.start {
                self.start
            } else {
                other.start
            },
            s.end == if self.end >= other.end {
                self.end
            } else {
                other.end
            },
    {
        Span {
            start: if self.start <= other.start {
                self.start
            } else {
                other.start
            },
            end: if self.end >= other.end {
                self.end
            } else {
                other.end
            },
        }
    }
}

/// A value paired with the span it came from.
#[derive(Debug, Clone, Copy)]
pub struct Spanned<T> {
    pub inner: T,
    pub span: Span,
}

impl<T> Spanned<T> {
    pub fn new(inner: T, span: Span) -> (s: Self)
        ensures
            s.inner == inner,
            s.span == span,
    {
        Self { inner, span }
    }

    /// Replaces the value while keeping the span.
    pub fn map<U, F: FnOnce(T) -> U>(self, f: F) -> (s: Spanned<U>)
        requires
            f.requires((self.inner,)),
        ensures
            s.span == self.span,
            f.ensures((self.inner,), s.inner),
    {
        let span = self.span;
        Spanned { inner: f(self.inner), span }
    }

    /// Borrows the value while keeping the span.
    pub fn as_ref(&self) -> (s: Spanned<&T>)
        ensures
            s.inner == &self.inner,
            s.span == self.span,
    {
        Spanned { inner: &self.inner, span: self.span }
    }

    /// Replaces the span while keeping the value.
    pub fn with_span(self, span: Span) -> (s: Self)
        ensures
            s.inner == self.inner,
            s.span == span,
    {
        Spanned { inner: self.inner, span }
    }
}

} // verus!
