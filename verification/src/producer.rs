//! Time-addressed frame production.

use vstd::prelude::*;
use std::sync::Arc;
use crate::frame::Frame;
use crate::source::SourceError;
use crate::time::Time;

verus! {

/// A source of frames addressed by **timeline time**, in contrast to
/// [`FrameSource`](crate::source::FrameSource) which is addressed by frame
/// index.
///
/// This is the abstraction the preview reads. A timeline `Sequence`
/// implements it by resolving the time to a clip and the clip to a source
/// frame; the result is `None` where nothing is present (a gap).
pub trait FrameProducer {
    /// Whether the exact arithmetic needed to resolve `time` stays
    /// representable for this producer.
    spec fn resolvable(&self, time: Time) -> bool;

    /// Total covered length; times in `[0, duration)` may yield a frame.
    fn duration(&self) -> Time;

    /// The frame visible at `time`, or `None` for a gap.
    ///
    /// Propagates a [`SourceError`] from the underlying media.
    fn frame_at(&mut self, time: Time) -> Result<Option<Arc<Frame>>, SourceError>
        requires
            old(self).resolvable(time),
    ;
}

} // verus!
