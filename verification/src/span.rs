use vstd::prelude::*;

verus! {

/// Byte range within one registered source, together with the line on which
/// the spanned text starts and the id of the source that owns it.
#[derive(Clone, Copy, Debug, PartialEq, Eq, Structural)]
pub struct CodeSpan {
    pub line: usize,

    pub src_id: usize,
    pub start: usize,
    pub end: usize,
}

impl CodeSpan {
    /// Span that `merge` yields: `self`'s source, line and start, ending at
    /// `other`'s end.  Composite node spans assume left-to-right textual
    /// order of the merged parts.
    pub open spec fn spec_merge(self, other: Self) -> Self {
        CodeSpan { src_id: self.src_id, line: self.line, start: self.start, end: other.end }
    }

    /// Combine two spans into the span of a composite construct.
    pub fn merge(self, other: Self) -> (r: Self)
        ensures
            r == self.spec_merge(other),
    {
        CodeSpan { src_id: self.src_id, line: self.line, start: self.start, end: other.end }
    }

    /// A span is well formed when it does not end before it starts.
    pub open spec fn wf(self) -> bool {
        self.start <= self.end
    }

    /// `other` lies within `self` and belongs to the same source.
    pub open spec fn contains(self, other: Self) -> bool {
        self.src_id == other.src_id && self.start <= other.start && other.end <= self.end
    }

    /// The zero span: source 0, line 0, bytes `0..0`.
    pub open spec fn spec_zero() -> Self {
        CodeSpan { line: 0, src_id: 0, start: 0, end: 0 }
    }

    /// The zero span, as a starting point before any token has been seen.
    pub fn zero() -> (r: Self)
        ensures
            r == Self::spec_zero(),
    {
        CodeSpan { line: 0, src_id: 0, start: 0, end: 0 }
    }
}

impl Default for CodeSpan {
    /// The default span is the zero span.
    fn default() -> (r: Self)
        ensures
            r == Self::spec_zero(),
    {
        CodeSpan::zero()
    }
}

} // verus!
