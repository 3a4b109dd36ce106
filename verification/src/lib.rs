//! Exact editing core of the V1000 non-linear video editor.
//!
//! Timeline positions are exact rational seconds ([`Time`]) so edit math never
//! drifts; frame rates are exact fractions ([`Rational`]). Tracks keep their
//! clips back to back from time zero through every ripple edit; a sequence
//! resolves a timeline instant to the frame of the topmost clip under it.
//! Frames are plain RGBA8 buffers, recycled through a bounded [`FramePool`]
//! and shared through an LRU [`FrameCache`].

pub mod arith;
pub mod audio;
pub mod cache;
pub mod clip;
pub mod decode;
pub mod effects;
pub mod export;
pub mod frame;
pub mod gui;
pub mod laws;
pub mod order;
pub mod pool;
pub mod producer;
pub mod render;
pub mod sequence;
pub mod source;
pub mod span;
pub mod text;
pub mod time;
pub mod timecode;
pub mod track;

pub use audio::playhead_default;
pub use cache::FrameCache;
pub use clip::Clip;
pub use decode::{
    backend_name, pack_rows, rate_or_default, DecodeCursor, Fetch, FrameFetch, Lookup, PacketRead,
    PacketStep, Pulled, Taken,
};
pub use effects::builtin_count;
pub use export::default_target;
pub use frame::Frame;
pub use gui::V1000App;
pub use pool::FramePool;
pub use producer::FrameProducer;
pub use render::info;
pub use sequence::Sequence;
pub use source::{FrameSource, SourceError, TestPatternSource};
pub use span::Span;
pub use time::{Rational, Time};
pub use timecode::TimeCode;
pub use track::Track;
