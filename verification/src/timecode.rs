//! SMPTE-style display timecodes.

use vstd::prelude::*;
use crate::arith::{fits_i64, frac_mul, nearest_int};
use crate::text::{decimal2, push_decimal2};
use crate::time::{Rational, Time};

verus! {

/// A SMPTE-style timecode (`HH:MM:SS:FF`) for **display only**.
///
/// This is a labeled frame index at a specific rate, not a comparable instant:
/// two timecodes at different rates that name the same moment are different
/// labels. For ordering and edit math use [`Time`], which is rate-agnostic and
/// exact; build a `TimeCode` with [`TimeCode::from_time`] only when rendering
/// a position to the screen.
#[derive(Debug, Clone, Copy, PartialEq, Eq, Structural, Hash)]
pub struct TimeCode {
    frames: u64,
    fps_num: u32,
    fps_den: u32,
}

/// Whole frames per second used to split a frame index into `:FF`: the rate
/// rounded to nearest (ties up), at least one. A zero denominator stands for
/// an unbounded rate.
pub open spec fn nominal_rate(num: nat, den: nat) -> nat {
    if den == 0 {
        if num == 0 {
            1
        } else {
            u64::MAX as nat
        }
    } else {
        let r = (2 * num + den) / (2 * den);
        if r == 0 {
            1
        } else {
            r
        }
    }
}

/// The `HH:MM:SS:FF` label of `frames` at `fps` whole frames per second.
pub open spec fn smpte(frames: nat, fps: nat) -> Seq<char> {
    let ff = frames % fps;
    let total = frames / fps;
    decimal2(total / 3600) + seq![':'] + decimal2((total / 60) % 60) + seq![':'] + decimal2(
        total % 60,
    ) + seq![':'] + decimal2(ff)
}

impl TimeCode {
    /// The frame index this label carries.
    pub closed spec fn frame_index(self) -> u64 {
        self.frames
    }

    /// The rate the label was made for, as `(numerator, denominator)`.
    pub closed spec fn rate(self) -> (u32, u32) {
        (self.fps_num, self.fps_den)
    }

    /// Creates a timecode at `frames` for the rate `fps_num / fps_den`.
    pub fn new(frames: u64, fps_num: u32, fps_den: u32) -> (tc: TimeCode)
        requires
            fps_num != 0,
            fps_den != 0,
        ensures
            tc.frame_index() == frames,
            tc.rate() == (fps_num, fps_den),
    {
        TimeCode { frames, fps_num, fps_den }
    }

    /// The timecode label for an instant at the display rate `fps`.
    ///
    /// Negative instants clamp to zero (the timeline starts at zero). The rate
    /// components are narrowed to `u32` as they are stored.
    pub fn from_time(time: Time, fps: Rational) -> (tc: TimeCode)
        requires
            fps@.0 > 0,
            fits_i64(frac_mul(time@, fps@)),
        ensures
            tc.frame_index() as int == (if nearest_int(frac_mul(time@, fps@)) < 0 {
                0
            } else {
                nearest_int(frac_mul(time@, fps@))
            }),
            tc.rate() == (fps@.0 as u32, fps@.1 as u32),
    {
        let f = time.to_frame(fps);
        let frames: u64 = if f < 0 {
            0
        } else {
            f as u64
        };
        let fps_num = #[verifier::truncate] (fps.numerator() as u32);
        let fps_den = #[verifier::truncate] (fps.denominator() as u32);
        TimeCode { frames, fps_num, fps_den }
    }

    /// The frame index this label carries.
    #[verifier::when_used_as_spec(frame_index)]
    pub fn frames(self) -> (r: u64)
        ensures
            r == self.frame_index(),
    {
        self.frames
    }

    /// `(frames, fps_num, fps_den)`, the order in which labels are compared.
    pub(crate) fn key(self) -> (r: (u64, u32, u32))
        ensures
            r == (self.frame_index(), self.rate().0, self.rate().1),
    {
        (self.frames, self.fps_num, self.fps_den)
    }

    /// Nominal whole-frame rate used to split frames into the `:FF` field.
    fn nominal_fps(self) -> (r: u64)
        ensures
            r as nat == nominal_rate(self.fps_num as nat, self.fps_den as nat),
            r >= 1,
    {
        if self.fps_den == 0 {
            if self.fps_num == 0 {
                1
            } else {
                u64::MAX
            }
        } else {
            let num = self.fps_num as u64;
            let den = self.fps_den as u64;
            let r = (2 * num + den) / (2 * den);
            if r == 0 {
                1
            } else {
                r
            }
        }
    }

    /// Renders the label as `HH:MM:SS:FF`, each field zero-padded to two
    /// digits (hours may grow wider).
    pub fn to_string(&self) -> (s: String)
        ensures
            s@ == smpte(
                self.frame_index() as nat,
                nominal_rate(self.rate().0 as nat, self.rate().1 as nat),
            ),
    {
        let fps = self.nominal_fps();
        let ff = self.frames % fps;
        let total_secs = self.frames / fps;
        let ss = total_secs % 60;
        let mm = (total_secs / 60) % 60;
        let hh = total_secs / 3600;
        let mut out = String::new();
        push_decimal2(&mut out, hh);
        out.append(":");
        push_decimal2(&mut out, mm);
        out.append(":");
        push_decimal2(&mut out, ss);
        out.append(":");
        push_decimal2(&mut out, ff);
        proof {
            reveal_strlit(":");
        }
        out
    }
}

} // verus!
