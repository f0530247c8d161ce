//! Byte-based source spans and CST node identity.
use vstd::prelude::*;

verus! {

/// Byte-based source span; `u32` matches the LSP position representation.
#[derive(Debug, Clone, Copy, PartialEq, Eq, Structural, Hash)]
pub struct Span {
    pub start: u32,
    pub end: u32,
}

/// The span that runs from the start of `a` to the end of `b`.
pub open spec fn spec_merge(a: Span, b: Span) -> Span {
    Span { start: a.start, end: b.end }
}

/// `inner` lies within `outer`.
pub open spec fn span_covers(outer: Span, inner: Span) -> bool {
    outer.start <= inner.start && inner.end <= outer.end
}

impl Span {
    /// Build a span from its two offsets.
    pub fn new(start: u32, end: u32) -> (s: Self)
        ensures
            s.start == start,
            s.end == end,
    {
        Span { start, end }
    }

    /// Number of bytes the span covers. The span must not end before it starts.
    pub fn length(&self) -> (n: u32)
        requires
            self.start <= self.end,
        ensures
            n == self.end - self.start,
    {
        self.end - self.start
    }

    /// Create a span from `usize` offsets, truncating each to `u32`.
    pub fn from_usize(start: usize, end: usize) -> (s: Self)
        ensures
            s.start == start as u32,
            s.end == end as u32,
    {
        Span { start: start as u32, end: end as u32 }
    }

    /// Merge two spans: from the start of this one to the end of `other`.
    pub fn merge(self, other: Span) -> (s: Self)
        ensures
            s == spec_merge(self, other),
    {
        Span { start: self.start, end: other.end }
    }
}

/// Merging is associative.
pub proof fn lemma_merge_associative(a: Span, b: Span, c: Span)
    ensures
        spec_merge(spec_merge(a, b), c) == spec_merge(a, spec_merge(b, c)),
{
}

/// Merging a span with itself gives the span back.
pub proof fn lemma_merge_idempotent(a: Span)
    ensures
        spec_merge(a, a) == a,
{
}

/// Merging a span with a later one covers both: it runs from the start of
/// the first to the end of the second.
pub proof fn lemma_merge_covers(a: Span, b: Span)
    requires
        a.start <= a.end,
        b.start <= b.end,
        a.start <= b.start,
        a.end <= b.end,
    ensures
        span_covers(spec_merge(a, b), a),
        span_covers(spec_merge(a, b), b),
        spec_merge(a, b).start <= spec_merge(a, b).end,
{
}

/// Unique identifier for a CST node; it persists through lowering.
#[derive(Debug, Clone, Copy, PartialEq, Eq, Structural, Hash)]
pub struct CstId(pub u32);

impl CstId {
    /// Create a new CST ID.
    pub fn new(id: u32) -> (r: Self)
        ensures
            r.0 == id,
    {
        CstId(id)
    }

    /// Get the underlying ID value.
    pub fn as_u32(self) -> (r: u32)
        ensures
            r == self.0,
    {
        self.0
    }
}

/// Generator for unique CST node IDs, counting up from 0.
#[derive(Debug, Clone, Copy)]
pub struct CstIdGenerator {
    next_id: u32,
}

impl CstIdGenerator {
    /// The ID the generator hands out next.
    pub closed spec fn counter(self) -> u32 {
        self.next_id
    }

    /// Create a new ID generator starting at 0.
    pub fn new() -> (g: Self)
        ensures
            g.counter() == 0,
    {
        CstIdGenerator { next_id: 0 }
    }

    /// Generate the next unique CST ID. The counter must not be at `u32::MAX`.
    pub fn next(&mut self) -> (id: CstId)
        requires
            old(self).counter() < u32::MAX,
        ensures
            id.0 == old(self).counter(),
            final(self).counter() == old(self).counter() + 1,
    {
        let id = self.next_id;
        self.next_id = id + 1;
        CstId(id)
    }

    /// Reset the generator to 0.
    pub fn reset(&mut self)
        ensures
            final(self).counter() == 0,
    {
        self.next_id = 0;
    }
}

impl Default for CstIdGenerator {
    fn default() -> (g: Self)
        ensures
            g.counter() == 0,
    {
        Self::new()
    }
}

/// Wrapper that attaches a span and a unique ID to any node.
#[derive(Debug, Clone)]
pub struct Spanned<T> {
    /// Unique identifier for this CST node.
    pub id: CstId,
    /// Source code span.
    pub span: Span,
    /// The node data.
    pub node: T,
}

impl<T> Spanned<T> {
    /// Create a new spanned node.
    pub fn new(id: CstId, span: Span, node: T) -> (s: Self)
        ensures
            s.id == id,
            s.span == span,
            s.node == node,
    {
        Spanned { id, span, node }
    }

    /// Get the CST node ID.
    pub fn id(&self) -> (r: CstId)
        ensures
            r == self.id,
    {
        self.id
    }

    /// Extract the inner node, discarding the span.
    pub fn into_node(self) -> (r: T)
        ensures
            r == self.node,
    {
        self.node
    }

    /// Get a reference to the inner node.
    pub fn node(&self) -> (r: &T)
        ensures
            *r == self.node,
    {
        &self.node
    }

    /// Get a mutable reference to the inner node.
    pub fn node_mut(&mut self) -> (r: &mut T)
        ensures
            *r == old(self).node,
            final(self).id == old(self).id,
            final(self).span == old(self).span,
            final(self).node == *final(r),
    {
        &mut self.node
    }

    /// Get the span.
    pub fn span(&self) -> (r: Span)
        ensures
            r == self.span,
    {
        self.span
    }
}

} // verus!
