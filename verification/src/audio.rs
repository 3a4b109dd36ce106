//! Audio engine entry points.

use vstd::prelude::*;
use crate::timecode::TimeCode;

verus! {

/// The playhead position the audio engine renders from: frame zero at 48 kHz.
pub fn playhead_default() -> (tc: TimeCode)
    ensures
        tc.frame_index() == 0,
        tc.rate() == (48_000u32, 1u32),
{
    TimeCode::new(0, 48_000, 1)
}

} // verus!
