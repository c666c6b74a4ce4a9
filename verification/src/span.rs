use vstd::prelude::*;

verus! {

/// Mathematical picture of a [`Span`]: a start offset and a length, both
/// counted in characters of the source text.
pub struct SpanView {
    pub start: nat,
    pub len: nat,
}

impl SpanView {
    /// One past the last character covered.
    pub open spec fn end(self) -> nat {
        self.start + self.len
    }

    /// The offsets a well-formed span covers fit in a machine word.
    pub open spec fn wf(self) -> bool {
        self.start + self.len <= usize::MAX
    }

    /// Smallest span covering both `self` and `other`.
    pub open spec fn join(self, other: SpanView) -> SpanView {
        let start = if self.start <= other.start {
            self.start
        } else {
            other.start
        };
        let end = if self.end() >= other.end() {
            self.end()
        } else {
            other.end()
        };
        SpanView { start, len: (end - start) as nat }
    }
}

/// Describes a part of a string: a start offset and a length, counted in
/// characters.
#[derive(Clone, Copy, Debug, PartialEq, Eq, Hash, Structural)]
pub struct Span {
    pub start: usize,
    pub length: usize,
}

impl View for Span {
    type V = SpanView;

    open spec fn view(&self) -> SpanView {
        SpanView { start: self.start as nat, len: self.length as nat }
    }
}

impl DeepView for Span {
    type V = SpanView;

    open spec fn deep_view(&self) -> SpanView {
        self.view()
    }
}

impl Span {
    /// The offsets a well-formed span covers fit in a machine word.
    pub open spec fn wf(self) -> bool {
        self@.wf()
    }

    /// Creates a new [`Span`].
    pub fn new(start: usize, length: usize) -> (r: Self)
        requires
            start + length <= usize::MAX,
        ensures
            r@ == (SpanView { start: start as nat, len: length as nat }),
            r.wf(),
    {
        Self { start, length }
    }

    /// Start of the [`Span`].
    pub fn start(&self) -> (r: usize)
        ensures
            r == self@.start,
    {
        self.start
    }

    /// Length of the [`Span`].
    pub fn length(&self) -> (r: usize)
        ensures
            r == self@.len,
    {
        self.length
    }

    /// Returns the end.
    ///
    /// This is same as `self.start() + self.length()`.
    pub fn end(&self) -> (r: usize)
        requires
            self.wf(),
        ensures
            r == self@.end(),
    {
        self.start + self.length
    }

    /// Returns the range.
    pub fn range(&self) -> (r: core::ops::Range<usize>)
        requires
            self.wf(),
        ensures
            r.start == self@.start,
            r.end == self@.end(),
    {
        self.start..self.end()
    }

    /// The smallest [`Span`] that contains both `self` and `other`.
    pub fn join(self, other: Span) -> (r: Span)
        requires
            self.wf(),
            other.wf(),
        ensures
            r@ == self@.join(other@),
            r.wf(),
    {
        let start = if self.start <= other.start {
            self.start
        } else {
            other.start
        };
        let this_end = self.start + self.length;
        let other_end = other.start + other.length;
        let end = if this_end >= other_end {
            this_end
        } else {
            other_end
        };
        Span { start, length: end - start }
    }
}

} // verus!
