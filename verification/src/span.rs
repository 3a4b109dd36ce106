//! Half-open spans of timecode labels.

use vstd::prelude::*;
use crate::timecode::TimeCode;

verus! {

/// Label order: by frame index, then by rate numerator, then denominator.
pub open spec fn label_lt(a: TimeCode, b: TimeCode) -> bool {
    let (fa, na, da) = (a.frame_index(), a.rate().0, a.rate().1);
    let (fb, nb, db) = (b.frame_index(), b.rate().0, b.rate().1);
    fa < fb || (fa == fb && (na < nb || (na == nb && da < db)))
}

/// A half-open time span `[start, end)` on the timeline.
#[derive(Debug, Clone, Copy, PartialEq, Eq, Structural)]
pub struct Span {
    /// Inclusive start.
    pub start: TimeCode,
    /// Exclusive end.
    pub end: TimeCode,
}

/// `a` precedes `b` in label order.
fn key_lt(a: (u64, u32, u32), b: (u64, u32, u32)) -> (r: bool)
    ensures
        r == (a.0 < b.0 || (a.0 == b.0 && (a.1 < b.1 || (a.1 == b.1 && a.2 < b.2)))),
{
    a.0 < b.0 || (a.0 == b.0 && (a.1 < b.1 || (a.1 == b.1 && a.2 < b.2)))
}

impl Span {
    /// Whether `t` falls within `[start, end)`.
    pub fn contains(&self, t: TimeCode) -> (r: bool)
        ensures
            r == (!label_lt(t, self.start) && label_lt(t, self.end)),
    {
        let s = self.start.key();
        let e = self.end.key();
        let k = t.key();
        !key_lt(k, s) && key_lt(k, e)
    }
}

} // verus!
