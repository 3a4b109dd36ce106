//! Rendering entry points.

use vstd::prelude::*;
use crate::decode::backend_name;

verus! {

/// One-line description of the render backend, including its decode source.
pub fn info() -> (s: String)
    ensures
        s@ == "wgpu render (pending M1) over "@ + "ffmpeg-next (pending M1)"@,
{
    let mut s = String::from_str("wgpu render (pending M1) over ");
    s.append(backend_name());
    s
}

} // verus!
