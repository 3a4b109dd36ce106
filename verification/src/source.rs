//! The frame-source abstraction every decoder (and synthetic generator)
//! implements, plus a built-in animated test pattern.

use vstd::prelude::*;
use std::sync::Arc;
use vstd::arithmetic::div_mod::lemma_fundamental_div_mod_converse;
use crate::frame::{rgba_len, Frame};
use crate::text::{decimal, push_decimal};

verus! {

/// Errors a [`FrameSource`] can return.
#[derive(Debug)]
pub enum SourceError {
    /// The requested frame index is past the end of the source.
    OutOfRange { index: u64, count: u64 },
    /// The underlying media could not be opened or read.
    Media(String),
}

/// The message a [`SourceError`] displays.
pub open spec fn source_error_text(e: SourceError) -> Seq<char> {
    match e {
        SourceError::OutOfRange { index, count } => "frame index "@ + decimal(index as nat)
            + " out of range (0.."@ + decimal(count as nat) + ")"@,
        SourceError::Media(m) => "media error: "@ + m@,
    }
}

impl SourceError {
    /// The human-readable message for this error.
    pub fn to_string(&self) -> (s: String)
        ensures
            s@ == source_error_text(*self),
    {
        let mut out = String::new();
        match self {
            SourceError::OutOfRange { index, count } => {
                out.append("frame index ");
                push_decimal(&mut out, *index);
                out.append(" out of range (0..");
                push_decimal(&mut out, *count);
                out.append(")");
            },
            SourceError::Media(m) => {
                out.append("media error: ");
                out.append(m.as_str());
            },
        }
        out
    }
}

/// A source of decoded RGBA8 frames addressed by frame index.
///
/// Implemented by real decoders (the FFmpeg-backed file decoder) and by
/// synthetic generators like [`TestPatternSource`]. The preview engine treats
/// them uniformly, so playback, scrubbing, and caching are decoder-agnostic.
pub trait FrameSource {
    /// The rate `fps` reports.
    spec fn rate(&self) -> (u32, u32);

    /// The length `frame_count` reports.
    spec fn length(&self) -> u64;

    /// The size `dimensions` reports.
    spec fn extent(&self) -> (u32, u32);

    /// Frame rate as `(numerator, denominator)`.
    fn fps(&self) -> (r: (u32, u32))
        ensures
            r == self.rate(),
    ;

    /// Total number of frames in the source.
    fn frame_count(&self) -> (r: u64)
        ensures
            r == self.length(),
    ;

    /// Pixel dimensions as `(width, height)`.
    fn dimensions(&self) -> (r: (u32, u32))
        ensures
            r == self.extent(),
    ;

    /// Whether this source says what its frames hold: when it does, a
    /// successful `frame(i)` always yields [`content(i)`](Self::content).
    /// A source that says nothing keeps the default.
    open spec fn has_content(&self) -> bool {
        false
    }

    /// Width, height and pixel bytes of frame `index`, for a source with
    /// [`has_content`](Self::has_content).
    open spec fn content(&self, index: u64) -> (u32, u32, Seq<u8>) {
        (0, 0, Seq::empty())
    }

    /// Whether `frame(index)` is sure to succeed when `index` is below the
    /// length (a decoder reading media promises nothing by default).
    open spec fn reliable(&self, index: u64) -> bool {
        false
    }

    /// Whether `r` is an outcome `frame(index)` may have. By default every
    /// outcome is allowed; a source whose outcomes are known says which.
    open spec fn permits(&self, index: u64, r: Result<Arc<Frame>, SourceError>) -> bool {
        true
    }

    /// Produces the frame at `index`, returning a shared handle.
    ///
    /// Returns [`SourceError::OutOfRange`] if `index >= frame_count()`, or
    /// [`SourceError::Media`] if decoding fails.
    fn frame(&mut self, index: u64) -> (r: Result<Arc<Frame>, SourceError>)
        ensures
            old(self).permits(index, r),
            index >= old(self).length() ==> r == Err::<Arc<Frame>, SourceError>(
                SourceError::OutOfRange { index, count: old(self).length() },
            ),
            index < old(self).length() && old(self).reliable(index) ==> r is Ok,
            old(self).has_content() ==> (r matches Ok(f) ==> (f.spec_width(), f.spec_height(), f.bytes())
                == old(self).content(index)),
            final(self).rate() == old(self).rate(),
            final(self).length() == old(self).length(),
            final(self).extent() == old(self).extent(),
            final(self).has_content() == old(self).has_content(),
            forall|k: u64| #[trigger] final(self).content(k) == old(self).content(k),
            forall|k: u64| #[trigger] final(self).reliable(k) == old(self).reliable(k),
            forall|k: u64, x: Result<Arc<Frame>, SourceError>| #[trigger] final(self).permits(k, x)
                == old(self).permits(k, x),
    ;
}

/// The RGBA color of color bar `i` (gray, yellow, cyan, green, magenta, red,
/// blue, near-black).
pub open spec fn bar_rgba(i: int) -> Seq<u8> {
    if i == 0 {
        seq![192u8, 192u8, 192u8, 255u8]
    } else if i == 1 {
        seq![255u8, 255u8, 0u8, 255u8]
    } else if i == 2 {
        seq![0u8, 255u8, 255u8, 255u8]
    } else if i == 3 {
        seq![0u8, 255u8, 0u8, 255u8]
    } else if i == 4 {
        seq![255u8, 0u8, 255u8, 255u8]
    } else if i == 5 {
        seq![255u8, 0u8, 0u8, 255u8]
    } else if i == 6 {
        seq![0u8, 0u8, 255u8, 255u8]
    } else {
        seq![16u8, 16u8, 16u8, 255u8]
    }
}

/// Opaque white, the color of the sweep bar.
pub open spec fn white_rgba() -> Seq<u8> {
    seq![255u8, 255u8, 255u8, 255u8]
}

/// The color of column `x` in frame `index` of a pattern `w` pixels wide:
/// eight equal bars, with a white bar `max(w / 80, 1)` pixels either side of a
/// sweep column that advances 4 pixels per frame and wraps.
pub open spec fn pattern_rgba(w: nat, index: nat, x: nat) -> Seq<u8> {
    let bar_w: nat = if w / 8 >= 1 { w / 8 } else { 1 };
    let sweep: int = ((index * 4) % w) as int;
    let half: int = if w / 80 >= 1 { (w / 80) as int } else { 1 };
    let dist: int = if x >= sweep { x - sweep } else { sweep - x };
    if dist <= half {
        white_rgba()
    } else {
        bar_rgba(if x / bar_w <= 7 { (x / bar_w) as int } else { 7 })
    }
}

/// The pixel bytes of frame `index` of a `w`×`h` pattern.
pub open spec fn pattern_bytes(w: nat, h: nat, index: nat) -> Seq<u8> {
    Seq::new(w * h * 4, |k: int| pattern_rgba(w, index, ((k / 4) % (w as int)) as nat)[k % 4])
}

/// An animated SMPTE-style color-bar generator.
///
/// Procedural and deterministic: the same index always yields the same pixels,
/// with a bright vertical bar sweeping left-to-right so motion is visible
/// during playback. Used as the default preview source until a file is opened.
pub struct TestPatternSource {
    width: u32,
    height: u32,
    fps_num: u32,
    fps_den: u32,
    frame_count: u64,
}

/// The RGBA color of bar `i`.
fn bar(i: usize) -> (c: [u8; 4])
    requires
        i < 8,
    ensures
        c@ == bar_rgba(i as int),
{
    let c = if i == 0 {
        [192, 192, 192, 255]
    } else if i == 1 {
        [255, 255, 0, 255]
    } else if i == 2 {
        [0, 255, 255, 255]
    } else if i == 3 {
        [0, 255, 0, 255]
    } else if i == 4 {
        [255, 0, 255, 255]
    } else if i == 5 {
        [255, 0, 0, 255]
    } else if i == 6 {
        [0, 0, 255, 255]
    } else {
        [16, 16, 16, 255]
    };
    assert(c@ =~= bar_rgba(i as int));
    c
}

/// Byte `k` of a tightly packed image lies in column `(k / 4) % w`.
proof fn lemma_byte_column(w: int, y: int, x: int, c: int)
    requires
        w > 0,
        0 <= x < w,
        y >= 0,
        0 <= c < 4,
    ensures
        ((4 * (y * w + x) + c) / 4) % w == x,
        (4 * (y * w + x) + c) % 4 == c,
{
    lemma_fundamental_div_mod_converse(4 * (y * w + x) + c, 4, y * w + x, c);
    lemma_fundamental_div_mod_converse(y * w + x, w, y, x);
}

impl TestPatternSource {
    /// Dimensions and rate are non-zero and a frame's bytes fit in memory.
    #[verifier::type_invariant]
    pub closed spec fn well_formed(&self) -> bool {
        &&& self.width != 0
        &&& self.height != 0
        &&& self.fps_num != 0
        &&& self.fps_den != 0
        &&& rgba_len(self.width, self.height) <= usize::MAX
    }

    /// Creates a generator of the given size, rate, and length.
    pub fn new(width: u32, height: u32, fps_num: u32, fps_den: u32, frame_count: u64) -> (s:
        TestPatternSource)
        requires
            width != 0 && height != 0,
            fps_num != 0 && fps_den != 0,
            rgba_len(width, height) <= usize::MAX,
        ensures
            s.well_formed(),
            s.rate() == (fps_num, fps_den),
            s.length() == frame_count,
            s.extent() == (width, height),
    {
        TestPatternSource { width, height, fps_num, fps_den, frame_count }
    }

    /// A 640×360, 30 fps, 10-second default pattern.
    pub fn default_preview() -> (s: TestPatternSource)
        ensures
            s.well_formed(),
            s.rate() == (30u32, 1u32),
            s.length() == 300,
            s.extent() == (640u32, 360u32),
    {
        Self::new(640, 360, 30, 1, 300)
    }

    /// Renders frame `index` of the pattern.
    fn render(&self, index: u64) -> (f: Frame)
        requires
            self.well_formed(),
        ensures
            f.spec_width() == self.width,
            f.spec_height() == self.height,
            f.bytes() == pattern_bytes(self.width as nat, self.height as nat, index as nat),
    {
        let w = self.width as usize;
        let h = self.height as usize;
        let n = Frame::byte_len(self.width, self.height);
        let bar_w: usize = if w / 8 >= 1 {
            w / 8
        } else {
            1
        };
        // The sweep column advances 4 px per frame and wraps.
        let sweep: usize = (((index % (w as u64)) * 4) % (w as u64)) as usize;
        let sweep_half: usize = if w / 80 >= 1 {
            w / 80
        } else {
            1
        };
        proof {
            assert((((index as int % w as int) * 4) % w as int) == ((index as int * 4) % w as int))
                by {
                vstd::arithmetic::div_mod::lemma_mul_mod_noop_left(index as int, 4, w as int);
            }
        }
        let ghost spec_pixels = pattern_bytes(w as nat, h as nat, index as nat);
        let mut px: Vec<u8> = Vec::new();
        let mut y: usize = 0;
        while y < h
            invariant
                w == self.width,
                h == self.height,
                n == w * h * 4,
                n <= usize::MAX,
                w > 0,
                bar_w == (if w / 8 >= 1 { w / 8 } else { 1 }),
                sweep == ((index as int * 4) % (w as int)),
                sweep_half == (if w / 80 >= 1 { w / 80 } else { 1 }),
                y <= h,
                px.len() == 4 * (y * w),
                forall|k: int|
                    0 <= k < px.len() ==> px@[k] == pattern_rgba(
                        w as nat,
                        index as nat,
                        ((k / 4) % (w as int)) as nat,
                    )[k % 4],
            decreases h - y,
        {
            let mut x: usize = 0;
            proof {
                assert(4 * (y * w) + 4 * w <= n) by (nonlinear_arith)
                    requires
                        y < h,
                        n == w * h * 4,
                ;
            }
            while x < w
                invariant
                    w == self.width,
                    h == self.height,
                    n == w * h * 4,
                    n <= usize::MAX,
                    w > 0,
                    bar_w == (if w / 8 >= 1 { w / 8 } else { 1 }),
                    sweep == ((index as int * 4) % (w as int)),
                    sweep_half == (if w / 80 >= 1 { w / 80 } else { 1 }),
                    y < h,
                    x <= w,
                    4 * (y * w) + 4 * w <= n,
                    px.len() == 4 * (y * w + x),
                    forall|k: int|
                        0 <= k < px.len() ==> px@[k] == pattern_rgba(
                            w as nat,
                            index as nat,
                            ((k / 4) % (w as int)) as nat,
                        )[k % 4],
                decreases w - x,
            {
                let dist = if x >= sweep {
                    x - sweep
                } else {
                    sweep - x
                };
                let color: [u8; 4] = if dist <= sweep_half {
                    [255, 255, 255, 255]
                } else {
                    let b = x / bar_w;
                    bar(if b <= 7 {
                        b
                    } else {
                        7
                    })
                };
                proof {
                    assert(color@ =~= pattern_rgba(w as nat, index as nat, x as nat));
                }
                let ghost before = px@;
                let ghost p = y * w + x;
                px.push(color[0]);
                px.push(color[1]);
                px.push(color[2]);
                px.push(color[3]);
                proof {
                    assert forall|k: int| 0 <= k < px.len() implies px@[k] == pattern_rgba(
                        w as nat,
                        index as nat,
                        ((k / 4) % (w as int)) as nat,
                    )[k % 4] by {
                        if k >= before.len() {
                            let c = k - before.len();
                            lemma_byte_column(w as int, y as int, x as int, c);
                            assert(px@[k] == color@[c]);
                        } else {
                            assert(px@[k] == before[k]);
                        }
                    }
                    assert(4 * (y * w + x) + 4 == 4 * (y * w + (x + 1)));
                }
                x = x + 1;
            }
            proof {
                assert(y * w + w == (y + 1) * w) by (nonlinear_arith);
            }
            y = y + 1;
        }
        proof {
            assert(4 * (h * w) == (w as nat) * (h as nat) * 4) by (nonlinear_arith);
            assert(px@.len() == spec_pixels.len());
            assert forall|k: int| 0 <= k < px@.len() implies px@[k] == spec_pixels[k] by {}
            assert(px@ =~= spec_pixels);
        }
        Frame::from_pixels(self.width, self.height, px)
    }
}

impl FrameSource for TestPatternSource {
    closed spec fn rate(&self) -> (u32, u32) {
        (self.fps_num, self.fps_den)
    }

    closed spec fn length(&self) -> u64 {
        self.frame_count
    }

    closed spec fn extent(&self) -> (u32, u32) {
        (self.width, self.height)
    }

    open spec fn has_content(&self) -> bool {
        true
    }

    /// The pattern frame: `pattern_bytes` at the source's size.
    open spec fn content(&self, index: u64) -> (u32, u32, Seq<u8>) {
        (
            self.extent().0,
            self.extent().1,
            pattern_bytes(self.extent().0 as nat, self.extent().1 as nat, index as nat),
        )
    }

    open spec fn reliable(&self, index: u64) -> bool {
        true
    }

    /// Out of range past the length; otherwise the pattern frame.
    open spec fn permits(&self, index: u64, r: Result<Arc<Frame>, SourceError>) -> bool {
        if index >= self.length() {
            r == Err::<Arc<Frame>, SourceError>(
                SourceError::OutOfRange { index, count: self.length() },
            )
        } else {
            r matches Ok(f) && (f.spec_width(), f.spec_height(), f.bytes()) == self.content(index)
        }
    }

    fn fps(&self) -> (r: (u32, u32)) {
        (self.fps_num, self.fps_den)
    }

    fn frame_count(&self) -> (r: u64) {
        self.frame_count
    }

    fn dimensions(&self) -> (r: (u32, u32)) {
        (self.width, self.height)
    }

    fn frame(&mut self, index: u64) -> (r: Result<Arc<Frame>, SourceError>)
        ensures
            *final(self) == *old(self),
            index >= old(self).length() ==> r == Err::<Arc<Frame>, SourceError>(
                SourceError::OutOfRange { index, count: old(self).length() },
            ),
            index < old(self).length() ==> (r matches Ok(f) && f.spec_width()
                == old(self).extent().0 && f.spec_height() == old(self).extent().1 && f.bytes()
                == pattern_bytes(
                old(self).extent().0 as nat,
                old(self).extent().1 as nat,
                index as nat,
            )),
            index < old(self).length() ==> (r matches Ok(f) && (f.spec_width(), f.spec_height(), f.bytes())
                == old(self).content(index)),
    {
        proof {
            use_type_invariant(&*self);
        }
        if index >= self.frame_count {
            return Err(SourceError::OutOfRange { index, count: self.frame_count });
        }
        Ok(Arc::new(self.render(index)))
    }
}

} // verus!
