//! Byte-offset source spans, shared by every stage from lexing through
//! diagnostics. Line and column information is derived on demand from the
//! offsets plus the source text, so nothing here tracks lines.

use vstd::prelude::*;

verus! {

/// A half-open byte range `[start, end)` into a [`crate::source::Source`]'s text.
#[derive(Debug, Clone, Copy, PartialEq, Eq, Hash, Default, Structural)]
pub struct Span {
    pub start: u32,
    pub end: u32,
}

impl Span {
    /// A span is well formed when it does not run backwards.
    pub open spec fn wf(self) -> bool {
        self.start <= self.end
    }

    pub fn new(start: u32, end: u32) -> (s: Self)
        requires
            start <= end,
        ensures
            s.start == start,
            s.end == end,
    {
        Span { start, end }
    }

    /// A zero-width span at `pos`, used for "expected X here" diagnostics.
    pub fn at(pos: u32) -> (s: Self)
        ensures
            s.start == pos,
            s.end == pos,
    {
        Span { start: pos, end: pos }
    }

    /// The smallest span covering both `self` and `other`.
    pub fn join(self, other: Span) -> (s: Span)
        ensures
            s.start == (if self.start <= other.start { self.start } else { other.start }),
            s.end == (if self.end >= other.end { self.end } else { other.end }),
    {
        let start = if self.start <= other.start { self.start } else { other.start };
        let end = if self.end >= other.end { self.end } else { other.end };
        Span { start, end }
    }

    pub fn len(self) -> (n: u32)
        requires
            self.wf(),
        ensures
            n == self.end - self.start,
    {
        self.end - self.start
    }

    pub fn is_empty(self) -> (b: bool)
        ensures
            b == (self.start == self.end),
    {
        self.start == self.end
    }

    pub fn as_range(self) -> (r: std::ops::Range<usize>)
        ensures
            r.start == self.start as usize,
            r.end == self.end as usize,
    {
        std::ops::Range { start: self.start as usize, end: self.end as usize }
    }
}

/// The span that [`Span::join`] returns, as a spec function.
pub open spec fn spec_join(a: Span, b: Span) -> Span {
    Span {
        start: if a.start <= b.start { a.start } else { b.start },
        end: if a.end >= b.end { a.end } else { b.end },
    }
}

/// Joining is commutative, associative and idempotent, and the joined span
/// covers both inputs: joining spans never loses source text, whichever
/// order a parser combines them in.
pub proof fn lemma_join_laws(a: Span, b: Span, c: Span)
    ensures
        spec_join(a, b) == spec_join(b, a),
        spec_join(spec_join(a, b), c) == spec_join(a, spec_join(b, c)),
        spec_join(a, a) == a,
        spec_join(a, b).start <= a.start && spec_join(a, b).start <= b.start,
        spec_join(a, b).end >= a.end && spec_join(a, b).end >= b.end,
        a.wf() ==> spec_join(a, b).wf(),
{
}

/// A node paired with the span of source text it was parsed from.
#[derive(Debug, Clone, Copy, PartialEq, Eq, Hash)]
pub struct Spanned<T> {
    pub node: T,
    pub span: Span,
}

impl<T> Spanned<T> {
    pub fn new(node: T, span: Span) -> (s: Self)
        ensures
            s.node == node,
            s.span == span,
    {
        Spanned { node, span }
    }
}

} // verus!
