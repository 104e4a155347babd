use vstd::prelude::*;
use vstd::slice::slice_subrange;
use crate::text::string_from_chars;

verus! {

/// A half-open range `[start, end)` of character offsets into a text.
#[derive(Clone, Copy, Debug, PartialEq, Eq, Structural)]
pub struct Span {
    pub start: usize,
    pub end: usize,
}

impl Span {
    /// The range does not run backwards.
    pub open spec fn wf(self) -> bool {
        self.start <= self.end
    }

    /// The range is well formed and lies inside a text of `len` characters.
    pub open spec fn within(self, len: nat) -> bool {
        self.start <= self.end <= len
    }

    /// Two ranges overlap when they share at least one position between
    /// their bounds: ranges that only touch at a boundary do not overlap.
    pub open spec fn spec_overlaps_with(self, other: Span) -> bool {
        !(self.end <= other.start || other.end <= self.start)
    }

    /// The characters of `source` that the range selects.
    pub open spec fn content(self, source: Seq<char>) -> Seq<char> {
        source.subrange(self.start as int, self.end as int)
    }

    /// Builds the range `[start, end)`. A range that runs backwards is a
    /// programming error, so callers must show `start <= end`.
    pub fn new(start: usize, end: usize) -> (span: Span)
        requires
            start <= end,
        ensures
            span.start == start,
            span.end == end,
            span.wf(),
    {
        Span { start, end }
    }

    /// Number of characters in the range.
    pub fn len(&self) -> (n: usize)
        requires
            self.wf(),
        ensures
            n == self.end - self.start,
    {
        self.end - self.start
    }

    /// Whether the range selects no character.
    pub fn is_empty(&self) -> (b: bool)
        ensures
            b == (self.start >= self.end),
    {
        self.start >= self.end
    }

    /// Whether the two ranges intersect.
    pub fn overlaps_with(&self, other: Span) -> (b: bool)
        ensures
            b == self.spec_overlaps_with(other),
    {
        !(self.end <= other.start || other.end <= self.start)
    }

    /// The selected characters of `source`.
    pub fn get_content<'a>(&self, source: &'a [char]) -> (chars: &'a [char])
        requires
            self.within(source@.len()),
        ensures
            chars@ == self.content(source@),
    {
        slice_subrange(source, self.start, self.end)
    }

    /// The selected characters of `source`, as a string.
    pub fn get_content_string(&self, source: &[char]) -> (s: String)
        requires
            self.within(source@.len()),
        ensures
            s@ == self.content(source@),
    {
        string_from_chars(self.get_content(source))
    }
}

/// Ranges that touch at a boundary, or lie apart, never overlap; all other
/// pairs do, and the relation is symmetric.
pub proof fn lemma_overlap_laws(a: Span, b: Span)
    ensures
        a.end <= b.start || b.end <= a.start ==> !a.spec_overlaps_with(b),
        !(a.end <= b.start || b.end <= a.start) ==> a.spec_overlaps_with(b),
        a.spec_overlaps_with(b) == b.spec_overlaps_with(a),
{
}

} // verus!
