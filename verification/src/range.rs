use vstd::prelude::*;

verus! {

/// A source span: half-open byte offsets `[start, end)` into the source text.
#[derive(Clone, Copy, Debug, PartialEq, Eq, Structural)]
pub struct TextRange {
    pub start: usize,
    pub end: usize,
}

impl TextRange {
    /// True when the span selects no text at all.
    pub open spec fn is_degenerate(self) -> bool {
        self.start == self.end
    }

    /// True when `self` lies entirely inside `outer`.
    pub open spec fn is_within(self, outer: TextRange) -> bool {
        outer.start <= self.start && self.end <= outer.end
    }
}

impl Default for TextRange {
    /// The empty span at offset zero.
    fn default() -> (r: Self)
        ensures
            r == (TextRange { start: 0, end: 0 }),
    {
        TextRange { start: 0, end: 0 }
    }
}

/// Model of `box_range`: a degenerate span is recorded as absent.
pub open spec fn spec_box_range(r: TextRange) -> Option<TextRange> {
    if r.is_degenerate() {
        None
    } else {
        Some(r)
    }
}

/// A node stores its span only when the span selects some text; an absent
/// span never stands for position zero.
pub fn box_range(r: TextRange) -> (o: Option<TextRange>)
    ensures
        o == spec_box_range(r),
{
    if r.start == r.end {
        None
    } else {
        Some(r)
    }
}

/// Containment between optional spans: only two present spans constrain
/// each other.
pub open spec fn opt_range_within(inner: Option<TextRange>, outer: Option<TextRange>) -> bool {
    match (inner, outer) {
        (Some(i), Some(o)) => i.is_within(o),
        _ => true,
    }
}

} // verus!
