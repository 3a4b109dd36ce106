//! A single clip placed on a track.

use vstd::prelude::*;
use crate::arith::{fits_i64, frac_add, frac_sub, value_lt};
use crate::time::Time;

verus! {

/// A reference to a span of source media, placed at a position on a track.
///
/// The clip shows `[source_in, source_in + duration)` of its media, positioned
/// at `[timeline_start, timeline_start + duration)` on the sequence. All four
/// quantities are exact [`Time`] values, so edit math never drifts.
#[derive(Debug, Clone, Copy, PartialEq, Eq, Structural)]
pub struct Clip {
    /// Index into the owning sequence's media pool.
    pub media: usize,
    /// Where the clip begins on the sequence timeline.
    pub timeline_start: Time,
    /// In-point within the source media.
    pub source_in: Time,
    /// Length of the clip on the timeline (and of the media span shown).
    pub duration: Time,
}

/// The (exclusive) end of `c` on the timeline, in seconds.
pub open spec fn clip_end(c: Clip) -> (int, int) {
    frac_add(c.timeline_start@, c.duration@)
}

/// Whether `c` covers the instant `t`: `start <= t < end`.
pub open spec fn clip_covers(c: Clip, t: (int, int)) -> bool {
    !value_lt(t, c.timeline_start@) && value_lt(t, clip_end(c))
}

/// The source instant shown by `c` at timeline instant `t`.
pub open spec fn clip_source_time(c: Clip, t: (int, int)) -> (int, int) {
    frac_add(c.source_in@, frac_sub(t, c.timeline_start@))
}

impl Clip {
    /// Creates a clip.
    pub fn new(media: usize, timeline_start: Time, source_in: Time, duration: Time) -> (c: Clip)
        ensures
            c == (Clip { media, timeline_start, source_in, duration }),
    {
        Clip { media, timeline_start, source_in, duration }
    }

    /// The (exclusive) end of the clip on the timeline.
    pub fn end(&self) -> (r: Time)
        requires
            fits_i64(clip_end(*self)),
        ensures
            r@ == clip_end(*self),
    {
        self.timeline_start + self.duration
    }

    /// Whether the clip covers timeline time `t` (half-open `[start, end)`).
    pub fn covers(&self, t: Time) -> (r: bool)
        requires
            fits_i64(clip_end(*self)),
        ensures
            r == clip_covers(*self, t@),
    {
        self.timeline_start <= t && t < self.end()
    }

    /// The source time corresponding to timeline time `t` (meaningful when the
    /// clip covers `t`).
    pub fn source_time_at(&self, t: Time) -> (r: Time)
        requires
            self.timeline_start@.0 != i64::MIN,
            fits_i64(frac_sub(t@, self.timeline_start@)),
            fits_i64(clip_source_time(*self, t@)),
        ensures
            r@ == clip_source_time(*self, t@),
    {
        self.source_in + (t - self.timeline_start)
    }
}

} // verus!
