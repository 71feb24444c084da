//! Positions and spans in a source buffer.

use vstd::prelude::*;

verus! {

/// A byte offset into a source buffer, counted from 1.
///
/// For a buffer of `len` bytes the offsets `1..=len` name its bytes. Offset 0
/// stands for "before the start" and is never the position of a byte.
#[derive(Debug, Clone, Copy, PartialEq, Eq, PartialOrd, Ord, Structural)]
pub struct Pos(pub u32);

/// A half-open range `[start, end)` of positions.
#[derive(Debug, Clone, Copy, PartialEq, Eq, Structural)]
pub struct Span {
    pub start: Pos,
    pub end: Pos,
}

/// The position `offset` bytes after `base`, held at `u32::MAX` where the sum
/// does not fit.
pub open spec fn advance(base: Pos, offset: int) -> Pos {
    if base.0 + offset > u32::MAX {
        Pos(u32::MAX)
    } else {
        Pos((base.0 + offset) as u32)
    }
}

impl Pos {
    /// The position `offset` bytes after this one, saturating at `u32::MAX`.
    pub fn offset(self, offset: usize) -> (r: Pos)
        ensures
            r == advance(self, offset as int),
    {
        let room: u32 = u32::MAX - self.0;
        if offset > room as usize {
            Pos(u32::MAX)
        } else {
            Pos(self.0 + offset as u32)
        }
    }
}

impl Span {
    /// The span of the bytes `from..to` of the text that this span covers.
    pub open spec fn spec_sub_span(self, from: int, to: int) -> Span {
        Span { start: advance(self.start, from), end: advance(self.start, to) }
    }

    /// The span of the bytes from `from` to the end of the text that this span
    /// covers.
    pub open spec fn spec_sub_span_from(self, from: int) -> Span {
        Span { start: advance(self.start, from), end: self.end }
    }

    /// The span of the first `to` bytes of the text that this span covers.
    pub open spec fn spec_sub_span_to(self, to: int) -> Span {
        Span { start: self.start, end: advance(self.start, to) }
    }

    /// True if the span covers exactly `len` bytes.
    pub open spec fn covers(self, len: int) -> bool {
        self.start.0 + len == self.end.0
    }

    /// Narrows the span to the bytes `from..to` of its text.
    pub fn sub_span(&self, from: usize, to: usize) -> (r: Span)
        ensures
            r == self.spec_sub_span(from as int, to as int),
    {
        Span { start: self.start.offset(from), end: self.start.offset(to) }
    }

    /// Narrows the span to the bytes from `from` on.
    pub fn sub_span_from(&self, from: usize) -> (r: Span)
        ensures
            r == self.spec_sub_span_from(from as int),
    {
        Span { start: self.start.offset(from), end: self.end }
    }

    /// Narrows the span to its first `to` bytes.
    pub fn sub_span_to(&self, to: usize) -> (r: Span)
        ensures
            r == self.spec_sub_span_to(to as int),
    {
        Span { start: self.start, end: self.start.offset(to) }
    }
}

/// A sub-span of a span that covers its text is exact: byte `i` of the text
/// lies at position `start + i`, and the sub-span stays inside the span.
pub proof fn lemma_sub_span_exact(span: Span, len: int, from: int, to: int)
    requires
        span.covers(len),
        0 <= from <= to <= len,
    ensures
        span.spec_sub_span(from, to).start.0 == span.start.0 + from,
        span.spec_sub_span(from, to).end.0 == span.start.0 + to,
        span.spec_sub_span_from(from).start.0 == span.start.0 + from,
        span.spec_sub_span_to(to).end.0 == span.start.0 + to,
        span.spec_sub_span(from, to).end.0 <= span.end.0,
{
}

} // verus!
