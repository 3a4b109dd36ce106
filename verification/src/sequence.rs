//! A sequence: the editable composition the preview reads from.

use vstd::prelude::*;
use std::sync::Arc;
use crate::arith::{
    fits_i64, frac_add, frac_div, frac_mul, frac_sub, is_normal, lemma_reduce, nearest_int,
    reduce, value_lt,
};
use crate::clip::{clip_source_time, Clip};
use crate::frame::Frame;
use crate::producer::FrameProducer;
use crate::source::{FrameSource, SourceError};
use crate::time::{Rational, Time};
use crate::track::{first_cover, row_end, Track};

verus! {

/// The first clip covering `t` on the topmost of the first `n` tracks that
/// has one.
pub open spec fn topmost_hit(tracks: Seq<Track>, t: (int, int), n: int) -> Option<Clip>
    decreases n,
{
    if n <= 0 {
        None
    } else {
        match first_cover(tracks[n - 1].spec_clips(), t) {
            Some(i) => Some(tracks[n - 1].spec_clips()[i]),
            None => topmost_hit(tracks, t, n - 1),
        }
    }
}

/// The latest track end among the first `n` tracks (zero when there are none).
pub open spec fn latest_end(tracks: Seq<Track>, n: int) -> (int, int)
    decreases n,
{
    if n <= 0 {
        (0, 1)
    } else if n == 1 {
        row_end(tracks[0].spec_clips())
    } else {
        let m = latest_end(tracks, n - 1);
        let e = row_end(tracks[n - 1].spec_clips());
        if value_lt(e, m) {
            m
        } else {
            e
        }
    }
}

/// A frame rate `(num, den)` as a fraction in lowest terms.
pub open spec fn rate_value(r: (u32, u32)) -> (int, int) {
    reduce(r.0 as int, r.1 as int)
}

/// A composition of tracks over a shared media pool, rendered at a fixed
/// timebase and resolution.
///
/// Tracks are ordered bottom-to-top; the topmost track with a clip under the
/// playhead wins. The sequence owns its media sources so several clips can
/// reference the same source by index. The sources share one type `S`, by
/// default any boxed [`FrameSource`].
pub struct Sequence<S: FrameSource + ?Sized = dyn FrameSource> {
    /// Display name.
    pub name: String,
    timebase: Rational,
    width: u32,
    height: u32,
    media: Vec<Box<S>>,
    tracks: Vec<Track>,
}

impl<S: FrameSource + ?Sized> Sequence<S> {
    /// The display name.
    pub closed spec fn spec_name(&self) -> String {
        self.name
    }

    /// The render/display rate.
    pub closed spec fn spec_timebase(&self) -> Rational {
        self.timebase
    }

    /// Render dimensions.
    pub closed spec fn spec_size(&self) -> (u32, u32) {
        (self.width, self.height)
    }

    /// Number of media sources in the pool.
    pub closed spec fn media_count(&self) -> nat {
        self.media@.len()
    }

    /// The rate media source `i` reports.
    pub closed spec fn rate_of(&self, i: int) -> (u32, u32) {
        self.media@[i].rate()
    }

    /// The frame count media source `i` reports.
    pub closed spec fn length_of(&self, i: int) -> u64 {
        self.media@[i].length()
    }

    /// The dimensions media source `i` reports.
    pub closed spec fn extent_of(&self, i: int) -> (u32, u32) {
        self.media@[i].extent()
    }

    /// Whether media source `i` says what its frames hold.
    pub closed spec fn content_known(&self, i: int) -> bool {
        self.media@[i].has_content()
    }

    /// Width, height and bytes of frame `k` of media source `i`.
    pub closed spec fn content_of(&self, i: int, k: u64) -> (u32, u32, Seq<u8>) {
        self.media@[i].content(k)
    }

    /// Whether media source `i` is sure to yield its frame `k`.
    pub closed spec fn reliable_at(&self, i: int, k: u64) -> bool {
        self.media@[i].reliable(k)
    }

    /// Whether `r` is an outcome frame `k` of media source `i` may have.
    pub closed spec fn permits_at(&self, i: int, k: u64, r: Result<Arc<Frame>, SourceError>) -> bool {
        self.media@[i].permits(k, r)
    }

    /// `self` and `other` hold media sources that report the same rates,
    /// lengths, sizes and frames.
    pub open spec fn same_media(&self, other: &Self) -> bool {
        &&& self.media_count() == other.media_count()
        &&& forall|i: int|
            0 <= i < self.media_count() ==> #[trigger] self.rate_of(i) == other.rate_of(i)
        &&& forall|i: int|
            0 <= i < self.media_count() ==> #[trigger] self.length_of(i) == other.length_of(i)
        &&& forall|i: int|
            0 <= i < self.media_count() ==> #[trigger] self.extent_of(i) == other.extent_of(i)
        &&& forall|i: int|
            0 <= i < self.media_count() ==> #[trigger] self.content_known(i)
                == other.content_known(i)
        &&& forall|i: int, k: u64|
            0 <= i < self.media_count() ==> #[trigger] self.content_of(i, k) == other.content_of(
                i,
                k,
            )
        &&& forall|i: int, k: u64|
            0 <= i < self.media_count() ==> #[trigger] self.reliable_at(i, k) == other.reliable_at(
                i,
                k,
            )
        &&& forall|i: int, k: u64, x: Result<Arc<Frame>, SourceError>|
            0 <= i < self.media_count() ==> #[trigger] self.permits_at(i, k, x)
                == other.permits_at(i, k, x)
    }

    /// The tracks, bottom-to-top.
    pub closed spec fn spec_tracks(&self) -> Seq<Track> {
        self.tracks@
    }

    /// The clip under `t` on the topmost track that has one.
    pub open spec fn hit(&self, t: (int, int)) -> Option<Clip> {
        topmost_hit(self.spec_tracks(), t, self.spec_tracks().len() as int)
    }

    /// The exact arithmetic of resolving `t` is representable: the hit clip
    /// names an existing media source with a usable rate, and its source time
    /// and source frame position fit.
    pub open spec fn resolves(&self, t: (int, int)) -> bool {
        match self.hit(t) {
            None => true,
            Some(c) => {
                &&& c.media < self.media_count()
                &&& self.rate_of(c.media as int).1 != 0
                &&& c.timeline_start@.0 != i64::MIN
                &&& fits_i64(frac_sub(t, c.timeline_start@))
                &&& fits_i64(clip_source_time(c, t))
                &&& fits_i64(
                    frac_mul(
                        clip_source_time(c, t),
                        rate_value(self.rate_of(c.media as int)),
                    ),
                )
            },
        }
    }

    /// The source frame shown at `t`: the media index and frame index, or
    /// `None` for a gap or a position outside the source.
    pub open spec fn source_frame(&self, t: (int, int)) -> Option<(usize, u64)> {
        match self.hit(t) {
            None => None,
            Some(c) => {
                let idx = nearest_int(
                    frac_mul(clip_source_time(c, t), rate_value(self.rate_of(c.media as int))),
                );
                if idx < 0 || idx >= self.length_of(c.media as int) {
                    None
                } else {
                    Some((c.media, idx as u64))
                }
            },
        }
    }

    /// Creates an empty sequence with one video track.
    pub fn new<N: Into<String>>(name: N, timebase: Rational, width: u32, height: u32) -> (s:
        Sequence<S>)
        requires
            timebase@.0 > 0,
            width != 0 && height != 0,
        ensures
            call_ensures(<N as Into<String>>::into, (name,), s.spec_name()),
            s.spec_timebase() == timebase,
            s.spec_size() == (width, height),
            s.media_count() == 0,
            s.spec_tracks().len() == 1,
            s.spec_tracks()[0].spec_clips().len() == 0,
    {
        let mut tracks: Vec<Track> = Vec::new();
        tracks.push(Track::new());
        Sequence { name: name.into(), timebase, width, height, media: Vec::new(), tracks }
    }

    /// Builds a sequence that plays a single source full-length on one track,
    /// adopting the source's rate and dimensions as the sequence settings.
    pub fn single(source: Box<S>) -> (s: Sequence<S>)
        requires
            source.rate().0 != 0 && source.rate().1 != 0,
            source.extent().0 != 0 && source.extent().1 != 0,
            fits_i64(
                frac_div(
                    (#[verifier::truncate] (source.length() as i64) as int, 1int),
                    rate_value(source.rate()),
                ),
            ),
        ensures
            s.spec_timebase()@ == rate_value(source.rate()),
            s.spec_size() == source.extent(),
            s.media_count() == 1,
            s.rate_of(0) == source.rate(),
            s.length_of(0) == source.length(),
            s.extent_of(0) == source.extent(),
            s.content_known(0) == source.has_content(),
            forall|k: u64| #[trigger] s.content_of(0, k) == source.content(k),
            forall|k: u64| #[trigger] s.reliable_at(0, k) == source.reliable(k),
            forall|k: u64, x: Result<Arc<Frame>, SourceError>| #[trigger] s.permits_at(0, k, x)
                == source.permits(k, x),
            s.spec_tracks().len() == 1,
            s.spec_tracks()[0].spec_clips().len() == 1,
            s.spec_tracks()[0].spec_clips()[0].media == 0,
            s.spec_tracks()[0].spec_clips()[0].timeline_start@ == (0int, 1int),
            s.spec_tracks()[0].spec_clips()[0].source_in@ == (0int, 1int),
            s.spec_tracks()[0].spec_clips()[0].duration@ == frac_div(
                (#[verifier::truncate] (source.length() as i64) as int, 1int),
                rate_value(source.rate()),
            ),
    {
        let (width, height) = source.dimensions();
        let (num, den) = source.fps();
        proof {
            crate::arith::lemma_reduce_bounds(num as int, den as int);
        }
        let timebase = Rational::new(num as i64, den as i64);
        let duration = Time::from_frame(#[verifier::truncate] (source.frame_count() as i64), timebase);
        let mut seq = Self::new("Sequence", timebase, width, height);
        let id = seq.add_media(source);
        let ghost media = seq.media@;
        assert forall|k: u64| #[trigger] media[0].content(k) == source.content(k) by {
            assert(seq.content_of(0, k) == source.content(k));
        }
        assert forall|k: u64| #[trigger] media[0].reliable(k) == source.reliable(k) by {
            assert(seq.reliable_at(0, k) == source.reliable(k));
        }
        assert forall|k: u64, x: Result<Arc<Frame>, SourceError>| #[trigger] media[0].permits(k, x)
            == source.permits(k, x) by {
            assert(seq.permits_at(0, k, x) == source.permits(k, x));
        }
        let mut track = Track::new();
        std::mem::swap(&mut track, &mut seq.tracks[0]);
        duration.lowest_terms();
        proof {
            assert(frac_add((0int, 1int), duration@) == duration@) by {
                crate::arith::lemma_reduce_normal(duration@);
                assert(0 * duration@.1 + duration@.0 * 1 == duration@.0);
                assert(1 * duration@.1 == duration@.1);
            }
        }
        track.append(id, Time::zero(), duration);
        seq.tracks.set(0, track);
        assert(seq.media@ == media);
        seq
    }

    /// Adds a media source to the pool and returns its id (for [`Clip::media`]).
    pub fn add_media(&mut self, source: Box<S>) -> (id: usize)
        requires
            old(self).media_count() < usize::MAX,
        ensures
            id == old(self).media_count(),
            final(self).media_count() == old(self).media_count() + 1,
            final(self).rate_of(id as int) == source.rate(),
            final(self).length_of(id as int) == source.length(),
            final(self).extent_of(id as int) == source.extent(),
            final(self).content_known(id as int) == source.has_content(),
            forall|k: u64| #[trigger] final(self).content_of(id as int, k) == source.content(k),
            forall|k: u64| #[trigger] final(self).reliable_at(id as int, k) == source.reliable(k),
            forall|k: u64, x: Result<Arc<Frame>, SourceError>| #[trigger] final(self).permits_at(
                id as int,
                k,
                x,
            ) == source.permits(k, x),
            forall|i: int, k: u64, x: Result<Arc<Frame>, SourceError>|
                0 <= i < old(self).media_count() ==> #[trigger] final(self).permits_at(i, k, x)
                    == old(self).permits_at(i, k, x),
            forall|i: int|
                0 <= i < old(self).media_count() ==> #[trigger] final(self).rate_of(i) == old(self).rate_of(i),
            forall|i: int|
                0 <= i < old(self).media_count() ==> #[trigger] final(self).length_of(i) == old(self).length_of(i),
            forall|i: int|
                0 <= i < old(self).media_count() ==> #[trigger] final(self).extent_of(i) == old(self).extent_of(i),
            forall|i: int|
                0 <= i < old(self).media_count() ==> #[trigger] final(self).content_known(i) == old(self).content_known(i),
            forall|i: int, k: u64|
                0 <= i < old(self).media_count() ==> #[trigger] final(self).content_of(i, k) == old(self).content_of(i, k),
            forall|i: int, k: u64|
                0 <= i < old(self).media_count() ==> #[trigger] final(self).reliable_at(i, k) == old(self).reliable_at(i, k),
            final(self).spec_tracks() == old(self).spec_tracks(),
            final(self).spec_timebase() == old(self).spec_timebase(),
            final(self).spec_size() == old(self).spec_size(),
            final(self).spec_name() == old(self).spec_name(),
    {
        self.media.push(source);
        self.media.len() - 1
    }

    /// The render/display rate.
    pub fn timebase(&self) -> (r: Rational)
        ensures
            r == self.spec_timebase(),
    {
        self.timebase
    }

    /// Render dimensions as `(width, height)`.
    pub fn size(&self) -> (r: (u32, u32))
        ensures
            r == self.spec_size(),
    {
        (self.width, self.height)
    }

    /// All tracks, bottom-to-top.
    pub fn tracks(&self) -> (r: &[Track])
        ensures
            r@ == self.spec_tracks(),
    {
        self.tracks.as_slice()
    }

    /// Mutable access to track `index`.
    pub fn track_mut(&mut self, index: usize) -> (r: &mut Track)
        requires
            index < old(self).spec_tracks().len(),
        ensures
            *r == old(self).spec_tracks()[index as int],
            final(self).spec_tracks() == old(self).spec_tracks().update(index as int, *final(r)),
            final(self).same_media(&*old(self)),
            final(self).spec_name() == old(self).spec_name(),
            final(self).spec_timebase() == old(self).spec_timebase(),
            final(self).spec_size() == old(self).spec_size(),
    {
        &mut self.tracks[index]
    }

    /// Adds an empty track on top and returns its index.
    pub fn add_track(&mut self) -> (idx: usize)
        requires
            old(self).spec_tracks().len() < usize::MAX,
        ensures
            idx == old(self).spec_tracks().len(),
            final(self).spec_tracks().len() == old(self).spec_tracks().len() + 1,
            final(self).spec_tracks().subrange(0, idx as int) == old(self).spec_tracks(),
            final(self).spec_tracks()[idx as int].spec_clips().len() == 0,
            final(self).same_media(&*old(self)),
            final(self).spec_timebase() == old(self).spec_timebase(),
            final(self).spec_size() == old(self).spec_size(),
            final(self).spec_name() == old(self).spec_name(),
    {
        self.tracks.push(Track::new());
        proof {
            assert(self.tracks@.subrange(0, old(self).tracks@.len() as int) =~= old(self).tracks@);
        }
        self.tracks.len() - 1
    }

    /// The frame rate of `media`, as a [`Rational`].
    fn media_rate(media: &S) -> (r: Rational)
        requires
            media.rate().1 != 0,
        ensures
            r@ == rate_value(media.rate()),
    {
        let (num, den) = media.fps();
        proof {
            crate::arith::lemma_reduce_bounds(num as int, den as int);
        }
        Rational::new(num as i64, den as i64)
    }

    /// Resolves timeline time `t` to the hit clip's media and source time,
    /// searching tracks topmost first.
    fn locate(&self, t: Time) -> (r: Option<(usize, Time)>)
        requires
            self.resolves(t@),
        ensures
            r matches Some((m, st)) ==> self.hit(t@) matches Some(c) && m == c.media && st@
                == clip_source_time(c, t@),
            r is None ==> self.hit(t@) is None,
    {
        let n = self.tracks.len();
        let mut k = n;
        while k > 0
            invariant
                n == self.tracks@.len(),
                k <= n,
                self.resolves(t@),
                topmost_hit(self.tracks@, t@, n as int) == topmost_hit(self.tracks@, t@, k as int),
            decreases k,
        {
            match self.tracks[k - 1].clip_at(t) {
                Some(c) => {
                    return Some((c.media, c.source_time_at(t)));
                },
                None => {},
            }
            k = k - 1;
        }
        None
    }

    /// Which source frame `t` shows: the media index and frame index, or
    /// `None` for a gap or a position outside the source.
    pub fn source_frame_at(&self, t: Time) -> (r: Option<(usize, u64)>)
        requires
            self.resolves(t@),
        ensures
            r == self.source_frame(t@),
    {
        let hit = self.locate(t);
        match hit {
            None => None,
            Some((media_id, source_time)) => {
                let source = &self.media[media_id];
                let index = source_time.to_frame(Self::media_rate(&**source));
                if index < 0 || index as u64 >= source.frame_count() {
                    None
                } else {
                    Some((media_id, index as u64))
                }
            },
        }
    }
}

impl<S: FrameSource + ?Sized> FrameProducer for Sequence<S> {
    open spec fn resolvable(&self, time: Time) -> bool {
        self.resolves(time@)
    }

    fn duration(&self) -> (r: Time)
        ensures
            r@ == latest_end(self.spec_tracks(), self.spec_tracks().len() as int),
    {
        let n = self.tracks.len();
        if n == 0 {
            return Time::zero();
        }
        let mut best = self.tracks[0].end();
        let mut k: usize = 1;
        while k < n
            invariant
                n == self.tracks@.len(),
                1 <= k <= n,
                best@ == latest_end(self.tracks@, k as int),
            decreases n - k,
        {
            let e = self.tracks[k].end();
            if !e.earlier_than(best) {
                best = e;
            }
            k = k + 1;
        }
        best
    }

    fn frame_at(&mut self, time: Time) -> (r: Result<Option<Arc<Frame>>, SourceError>)
        ensures
            old(self).source_frame(time@) is None ==> r matches Ok(None),
            old(self).source_frame(time@) is Some ==> !(r matches Ok(None)),
            old(self).source_frame(time@) matches Some((m, k)) ==> {
                &&& r matches Ok(Some(f)) ==> old(self).permits_at(
                    m as int,
                    k,
                    Ok::<Arc<Frame>, SourceError>(f),
                )
                &&& r matches Err(e) ==> old(self).permits_at(
                    m as int,
                    k,
                    Err::<Arc<Frame>, SourceError>(e),
                )
                &&& old(self).reliable_at(m as int, k) ==> r is Ok
                &&& old(self).content_known(m as int) ==> (r matches Ok(Some(f)) ==> (
                f.spec_width(),
                f.spec_height(),
                f.bytes(),
            ) == old(self).content_of(m as int, k))
            },
            final(self).spec_tracks() == old(self).spec_tracks(),
            final(self).same_media(&*old(self)),
            final(self).spec_timebase() == old(self).spec_timebase(),
            final(self).spec_size() == old(self).spec_size(),
            final(self).spec_name() == old(self).spec_name(),
    {
        match self.source_frame_at(time) {
            None => Ok(None),
            Some((media_id, index)) => {
                let got = self.media[media_id].frame(index);
                match got {
                    Ok(frame) => Ok(Some(frame)),
                    Err(e) => Err(e),
                }
            },
        }
    }
}

} // verus!
