//! Export pipeline entry points.

use vstd::prelude::*;
use crate::audio::playhead_default;
use crate::render::info;

verus! {

/// Default container/codec label for the export path.
pub fn default_target() -> (s: &'static str)
    ensures
        s@ == "mp4/h264 (hardware, pending M6)"@,
{
    let _render = info();
    let _audio = playhead_default();
    "mp4/h264 (hardware, pending M6)"
}

} // verus!
