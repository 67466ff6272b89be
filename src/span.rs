//! Spans: ranges of byte offsets into the source text, for diagnostics.

use vstd::prelude::*;

verus! {

/// An inclusive range `[start, end]` of byte offsets into the source.
#[derive(Clone, Copy, Debug, PartialEq, Eq, Structural)]
pub struct Span {
    /// The offset of the first byte.
    pub start: usize,
    /// The offset of the last byte.
    pub end: usize,
}

/// A value together with the span of source text that it came from.
#[derive(Clone, Debug, PartialEq, Eq)]
pub struct WithSpan<T> {
    /// Where the value came from.
    pub span: Span,
    /// The value itself.
    pub value: T,
}

impl Span {
    /// A span is well formed when it does not end before it starts.
    pub open spec fn wf(self) -> bool {
        self.start <= self.end
    }

    /// The smallest span that covers both spans.
    pub open spec fn spec_union(self, other: Span) -> Span {
        Span {
            start: if self.start <= other.start { self.start } else { other.start },
            end: if self.end >= other.end { self.end } else { other.end },
        }
    }

    /// The smallest span that covers both spans.
    pub fn union(&self, other: &Span) -> (r: Span)
        ensures
            r == self.spec_union(*other),
    {
        Span {
            start: if self.start <= other.start { self.start } else { other.start },
            end: if self.end >= other.end { self.end } else { other.end },
        }
    }

    /// Grow this span to also cover the other one.
    pub fn mut_union(&mut self, other: &Span)
        ensures
            *final(self) == old(self).spec_union(*other),
    {
        *self = self.union(other);
    }
}

/// The union of spans is commutative.
pub proof fn lemma_union_commutative(a: Span, b: Span)
    ensures
        a.spec_union(b) == b.spec_union(a),
{
}

/// The union of spans is associative.
pub proof fn lemma_union_associative(a: Span, b: Span, c: Span)
    ensures
        a.spec_union(b).spec_union(c) == a.spec_union(b.spec_union(c)),
{
}

/// The union of well-formed spans is well formed, and covers both.
pub proof fn lemma_union_well_formed(a: Span, b: Span)
    requires
        a.wf(),
        b.wf(),
    ensures
        a.spec_union(b).wf(),
        a.spec_union(b).start <= a.start,
        a.spec_union(b).start <= b.start,
        a.spec_union(b).end >= a.end,
        a.spec_union(b).end >= b.end,
{
}

} // verus!
