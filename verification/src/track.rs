//! A track: a gap-free row of clips starting at zero.

use vstd::prelude::*;
use crate::arith::{
    fits_i64, frac_add, frac_sub, is_normal, lemma_add_delta, lemma_add_sub_assoc,
    lemma_add_sub_cancel, lemma_add_sub_normal, lemma_add_swap, lemma_sub_add_swap,
    lemma_int_normal, value_lt,
};
use crate::clip::{clip_covers, clip_end, Clip};
use crate::time::Time;

verus! {

/// Where clip `i` must start: zero for the first clip, else where clip `i - 1` ends.
pub open spec fn start_slot(c: Seq<Clip>, i: int) -> (int, int) {
    if i == 0 {
        (0, 1)
    } else {
        clip_end(c[i - 1])
    }
}

/// Clips sit back to back from time zero, with no gaps.
pub open spec fn gap_free(c: Seq<Clip>) -> bool {
    forall|i: int| 0 <= i < c.len() ==> #[trigger] c[i].timeline_start@ == start_slot(c, i)
}

/// Every clip time is in lowest terms and every clip end is representable.
pub open spec fn clips_valid(c: Seq<Clip>) -> bool {
    forall|i: int|
        0 <= i < c.len() ==> {
            &&& is_normal(#[trigger] c[i].timeline_start@)
            &&& is_normal(c[i].duration@)
            &&& is_normal(c[i].source_in@)
            &&& fits_i64(clip_end(c[i]))
        }
}

/// The end of the last clip, or zero for an empty row.
pub open spec fn row_end(c: Seq<Clip>) -> (int, int) {
    if c.len() == 0 {
        (0, 1)
    } else {
        clip_end(c[c.len() - 1])
    }
}

/// Index `i` is the first clip of `c` covering the instant `t`.
pub open spec fn first_cover_at(c: Seq<Clip>, t: (int, int), i: int) -> bool {
    &&& 0 <= i < c.len()
    &&& clip_covers(c[i], t)
    &&& forall|j: int| 0 <= j < i ==> !clip_covers(#[trigger] c[j], t)
}

/// The index of the first clip of `c` covering `t`, if any.
pub open spec fn first_cover(c: Seq<Clip>, t: (int, int)) -> Option<int> {
    if exists|i: int| first_cover_at(c, t, i) {
        Some(choose|i: int| first_cover_at(c, t, i))
    } else {
        None
    }
}

/// At most one index is the first to cover an instant.
proof fn lemma_first_cover_unique(c: Seq<Clip>, t: (int, int), i: int)
    requires
        first_cover_at(c, t, i),
    ensures
        first_cover(c, t) == Some(i),
{
    let k = choose|k: int| first_cover_at(c, t, k);
    assert(first_cover_at(c, t, k));
    if k < i {
        assert(!clip_covers(c[k], t));
    } else if i < k {
        assert(!clip_covers(c[i], t));
    }
}

/// `b` is `a` with the clips from `from` on moved to start at `shift` of
/// their old start, everything else unchanged.
pub open spec fn moved_from(
    a: Seq<Clip>,
    b: Seq<Clip>,
    from: int,
    shift: spec_fn((int, int)) -> (int, int),
) -> bool {
    &&& b.len() == a.len()
    &&& forall|j: int| 0 <= j < from && j < a.len() ==> #[trigger] b[j] == a[j]
    &&& forall|j: int|
        from <= j < a.len() ==> {
            &&& #[trigger] b[j].timeline_start@ == shift(a[j].timeline_start@)
            &&& b[j].media == a[j].media
            &&& b[j].source_in == a[j].source_in
            &&& b[j].duration == a[j].duration
        }
}


/// Within `c`, each clip from `from + 1` on starts where its predecessor ends.
pub open spec fn chained_from(c: Seq<Clip>, from: int) -> bool {
    forall|j: int| from < j < c.len() ==> #[trigger] c[j].timeline_start@ == clip_end(c[j - 1])
}

/// Every clip time in `c` is in lowest terms.
pub open spec fn times_normal(c: Seq<Clip>) -> bool {
    forall|i: int|
        0 <= i < c.len() ==> {
            &&& is_normal(#[trigger] c[i].timeline_start@)
            &&& is_normal(c[i].duration@)
            &&& is_normal(c[i].source_in@)
        }
}

/// Moving a chained tail back by `d` keeps it chained and moves each end back by `d`.
proof fn lemma_tail_back(pre: Seq<Clip>, post: Seq<Clip>, from: int, d: (int, int))
    requires
        0 <= from,
        times_normal(pre),
        chained_from(pre, from),
        moved_from(pre, post, from, |v: (int, int)| frac_sub(v, d)),
        is_normal(d),
    ensures
        chained_from(post, from),
        forall|j: int|
            from <= j < post.len() ==> #[trigger] clip_end(post[j]) == frac_sub(clip_end(pre[j]), d),
        forall|j: int| from <= j < post.len() ==> is_normal(#[trigger] post[j].timeline_start@),
{
    assert forall|j: int| from <= j < post.len() implies #[trigger] clip_end(post[j]) == frac_sub(
        clip_end(pre[j]),
        d,
    ) && is_normal(post[j].timeline_start@) by {
        lemma_sub_add_swap(pre[j].timeline_start@, pre[j].duration@, d);
        lemma_add_sub_normal(pre[j].timeline_start@, d);
    }
    assert forall|j: int| from <= j < post.len() implies is_normal(
        #[trigger] post[j].timeline_start@,
    ) by {
        lemma_add_sub_normal(pre[j].timeline_start@, d);
    }
    assert forall|j: int| from < j < post.len() implies #[trigger] post[j].timeline_start@
        == clip_end(post[j - 1]) by {
        assert(clip_end(post[j - 1]) == frac_sub(clip_end(pre[j - 1]), d));
    }
}

/// Moving a chained tail forward by `d` keeps it chained and moves each end by `d`.
proof fn lemma_tail_forward(pre: Seq<Clip>, post: Seq<Clip>, from: int, d: (int, int))
    requires
        0 <= from,
        times_normal(pre),
        chained_from(pre, from),
        moved_from(pre, post, from, |v: (int, int)| frac_add(v, d)),
        is_normal(d),
    ensures
        chained_from(post, from),
        forall|j: int|
            from <= j < post.len() ==> #[trigger] clip_end(post[j]) == frac_add(clip_end(pre[j]), d),
        forall|j: int| from <= j < post.len() ==> is_normal(#[trigger] post[j].timeline_start@),
{
    assert forall|j: int| from <= j < post.len() implies #[trigger] clip_end(post[j]) == frac_add(
        clip_end(pre[j]),
        d,
    ) && is_normal(post[j].timeline_start@) by {
        lemma_add_swap(pre[j].timeline_start@, pre[j].duration@, d);
        lemma_add_sub_normal(pre[j].timeline_start@, d);
    }
    assert forall|j: int| from <= j < post.len() implies is_normal(
        #[trigger] post[j].timeline_start@,
    ) by {
        lemma_add_sub_normal(pre[j].timeline_start@, d);
    }
    assert forall|j: int| from < j < post.len() implies #[trigger] post[j].timeline_start@
        == clip_end(post[j - 1]) by {
        assert(clip_end(post[j - 1]) == frac_add(clip_end(pre[j - 1]), d));
    }
}

/// Moves every clip from `from` on back by `d`.
fn shift_tail_back(clips: &mut Vec<Clip>, from: usize, d: Time)
    requires
        from <= old(clips)@.len(),
        d@.0 != i64::MIN,
        forall|j: int|
            from <= j < old(clips)@.len() ==> fits_i64(
                frac_sub(#[trigger] old(clips)@[j].timeline_start@, d@),
            ),
    ensures
        moved_from(old(clips)@, final(clips)@, from as int, |v: (int, int)| frac_sub(v, d@)),
{
    let n = clips.len();
    let mut j = from;
    while j < n
        invariant
            n == clips@.len(),
            from <= j <= n,
            d@.0 != i64::MIN,
            forall|k: int|
                from <= k < n ==> fits_i64(frac_sub(#[trigger] old(clips)@[k].timeline_start@, d@)),
            clips@.len() == old(clips)@.len(),
            forall|k: int| 0 <= k < from ==> #[trigger] clips@[k] == old(clips)@[k],
            forall|k: int| j <= k < n ==> #[trigger] clips@[k] == old(clips)@[k],
            forall|k: int|
                from <= k < j ==> {
                    &&& #[trigger] clips@[k].timeline_start@ == frac_sub(
                        old(clips)@[k].timeline_start@,
                        d@,
                    )
                    &&& clips@[k].media == old(clips)@[k].media
                    &&& clips@[k].source_in == old(clips)@[k].source_in
                    &&& clips@[k].duration == old(clips)@[k].duration
                },
        decreases n - j,
    {
        let mut c = clips[j];
        c.timeline_start = c.timeline_start - d;
        clips.set(j, c);
        j = j + 1;
    }
}

/// Moves every clip from `from` on forward by `d`.
fn shift_tail_forward(clips: &mut Vec<Clip>, from: usize, d: Time)
    requires
        from <= old(clips)@.len(),
        forall|j: int|
            from <= j < old(clips)@.len() ==> fits_i64(
                frac_add(#[trigger] old(clips)@[j].timeline_start@, d@),
            ),
    ensures
        moved_from(old(clips)@, final(clips)@, from as int, |v: (int, int)| frac_add(v, d@)),
{
    let n = clips.len();
    let mut j = from;
    while j < n
        invariant
            n == clips@.len(),
            from <= j <= n,
            forall|k: int|
                from <= k < n ==> fits_i64(frac_add(#[trigger] old(clips)@[k].timeline_start@, d@)),
            clips@.len() == old(clips)@.len(),
            forall|k: int| 0 <= k < from ==> #[trigger] clips@[k] == old(clips)@[k],
            forall|k: int| j <= k < n ==> #[trigger] clips@[k] == old(clips)@[k],
            forall|k: int|
                from <= k < j ==> {
                    &&& #[trigger] clips@[k].timeline_start@ == frac_add(
                        old(clips)@[k].timeline_start@,
                        d@,
                    )
                    &&& clips@[k].media == old(clips)@[k].media
                    &&& clips@[k].source_in == old(clips)@[k].source_in
                    &&& clips@[k].duration == old(clips)@[k].duration
                },
        decreases n - j,
    {
        let mut c = clips[j];
        c.timeline_start = c.timeline_start + d;
        clips.set(j, c);
        j = j + 1;
    }
}

/// A horizontal row of clips, back to back from time zero.
///
/// Edit operations keep the row gap-free: appending places a clip at the
/// current end, ripple-delete and ripple trims shift every later clip by the
/// change. With positive durations the clips are therefore sorted by start
/// time and do not overlap.
#[derive(Debug)]
pub struct Track {
    clips: Vec<Clip>,
}

impl Track {
    #[verifier::type_invariant]
    closed spec fn well_formed(self) -> bool {
        gap_free(self.clips@) && clips_valid(self.clips@)
    }

    /// The clips on this track, in timeline order.
    pub closed spec fn spec_clips(&self) -> Seq<Clip> {
        self.clips@
    }

    /// The clips are gap-free from zero and their times are valid.
    pub fn lemma_well_formed(&self)
        ensures
            gap_free(self.spec_clips()),
            clips_valid(self.spec_clips()),
    {
        proof {
            use_type_invariant(self);
        }
    }

    /// An empty track.
    pub fn new() -> (t: Track)
        ensures
            t.spec_clips() == Seq::<Clip>::empty(),
    {
        Track { clips: Vec::new() }
    }

    /// The clips on this track, in timeline order.
    pub fn clips(&self) -> (r: &[Clip])
        ensures
            r@ == self.spec_clips(),
    {
        self.clips.as_slice()
    }

    /// Whether the track has no clips.
    pub fn is_empty(&self) -> (r: bool)
        ensures
            r == (self.spec_clips().len() == 0),
    {
        self.clips.len() == 0
    }

    /// The (exclusive) end of the last clip, or zero if empty.
    pub fn end(&self) -> (r: Time)
        ensures
            r@ == row_end(self.spec_clips()),
            is_normal(r@),
    {
        proof {
            use_type_invariant(self);
        }
        let n = self.clips.len();
        if n == 0 {
            proof {
                lemma_int_normal(0);
            }
            Time::zero()
        } else {
            let r = self.clips[n - 1].end();
            r.lowest_terms();
            r
        }
    }

    /// Appends a clip of `media[source_in..source_in+duration]` directly after
    /// the current last clip (no gap) and returns its index.
    pub fn append(&mut self, media: usize, source_in: Time, duration: Time) -> (idx: usize)
        requires
            fits_i64(frac_add(row_end(old(self).spec_clips()), duration@)),
        ensures
            idx == old(self).spec_clips().len(),
            final(self).spec_clips().len() == old(self).spec_clips().len() + 1,
            final(self).spec_clips().subrange(0, idx as int) == old(self).spec_clips(),
            final(self).spec_clips()[idx as int].media == media,
            final(self).spec_clips()[idx as int].source_in == source_in,
            final(self).spec_clips()[idx as int].duration == duration,
            final(self).spec_clips()[idx as int].timeline_start@ == row_end(old(self).spec_clips()),
    {
        proof {
            use_type_invariant(&*self);
        }
        let start = self.end();
        source_in.lowest_terms();
        duration.lowest_terms();
        let mut clips: Vec<Clip> = Vec::new();
        std::mem::swap(&mut clips, &mut self.clips);
        let ghost before = clips@;
        clips.push(Clip::new(media, start, source_in, duration));
        proof {
            assert forall|i: int| 0 <= i < clips@.len() implies #[trigger] clips@[i].timeline_start@
                == start_slot(clips@, i) by {
                if i < before.len() {
                    assert(clips@[i] == before[i]);
                    if i > 0 {
                        assert(clips@[i - 1] == before[i - 1]);
                    }
                }
            }
            assert forall|i: int| 0 <= i < clips@.len() implies {
                &&& is_normal(#[trigger] clips@[i].timeline_start@)
                &&& is_normal(clips@[i].duration@)
                &&& is_normal(clips@[i].source_in@)
                &&& fits_i64(clip_end(clips@[i]))
            } by {
                if i < before.len() {
                    assert(clips@[i] == before[i]);
                }
            }
            assert(clips@.subrange(0, before.len() as int) =~= before);
        }
        self.clips = clips;
        self.clips.len() - 1
    }

    /// The index of the first clip covering timeline time `t`, if any.
    pub fn clip_index_at(&self, t: Time) -> (r: Option<usize>)
        ensures
            r matches Some(i) ==> i < self.spec_clips().len() && clip_covers(
                self.spec_clips()[i as int],
                t@,
            ) && forall|j: int| 0 <= j < i ==> !clip_covers(#[trigger] self.spec_clips()[j], t@),
            r is None ==> forall|j: int|
                0 <= j < self.spec_clips().len() ==> !clip_covers(
                    #[trigger] self.spec_clips()[j],
                    t@,
                ),
            r matches Some(i) ==> first_cover(self.spec_clips(), t@) == Some(i as int),
            r is None ==> first_cover(self.spec_clips(), t@) is None,
    {
        proof {
            use_type_invariant(self);
        }
        let n = self.clips.len();
        let mut i: usize = 0;
        while i < n
            invariant
                n == self.clips@.len(),
                i <= n,
                clips_valid(self.clips@),
                forall|j: int| 0 <= j < i ==> !clip_covers(#[trigger] self.clips@[j], t@),
            decreases n - i,
        {
            if self.clips[i].covers(t) {
                proof {
                    lemma_first_cover_unique(self.clips@, t@, i as int);
                }
                return Some(i);
            }
            i = i + 1;
        }
        proof {
            if exists|k: int| first_cover_at(self.clips@, t@, k) {
                let k = choose|k: int| first_cover_at(self.clips@, t@, k);
                assert(!clip_covers(self.clips@[k], t@));
            }
        }
        None
    }

    /// The first clip covering timeline time `t`, if any.
    pub fn clip_at(&self, t: Time) -> (r: Option<&Clip>)
        ensures
            r matches Some(c) ==> first_cover(self.spec_clips(), t@) matches Some(i) && *c
                == self.spec_clips()[i],
            r is None ==> first_cover(self.spec_clips(), t@) is None,
            r matches Some(c) ==> exists|i: int|
                0 <= i < self.spec_clips().len() && *c == self.spec_clips()[i] && clip_covers(
                    *c,
                    t@,
                ) && forall|j: int| 0 <= j < i ==> !clip_covers(#[trigger] self.spec_clips()[j], t@),
            r is None ==> forall|j: int|
                0 <= j < self.spec_clips().len() ==> !clip_covers(
                    #[trigger] self.spec_clips()[j],
                    t@,
                ),
    {
        match self.clip_index_at(t) {
            Some(i) => Some(&self.clips[i]),
            None => None,
        }
    }

    /// Removes the clip at `index` and shifts every later clip left by its
    /// duration, closing the gap. Returns the removed clip.
    pub fn ripple_delete(&mut self, index: usize) -> (removed: Clip)
        requires
            index < old(self).spec_clips().len(),
            old(self).spec_clips()[index as int].duration@.0 != i64::MIN,
            forall|j: int|
                index < j < old(self).spec_clips().len() ==> fits_i64(
                    frac_sub(
                        #[trigger] old(self).spec_clips()[j].timeline_start@,
                        old(self).spec_clips()[index as int].duration@,
                    ),
                ) && fits_i64(
                    frac_sub(
                        clip_end(old(self).spec_clips()[j]),
                        old(self).spec_clips()[index as int].duration@,
                    ),
                ),
        ensures
            removed == old(self).spec_clips()[index as int],
            moved_from(
                old(self).spec_clips().remove(index as int),
                final(self).spec_clips(),
                index as int,
                |v: (int, int)| frac_sub(v, removed.duration@),
            ),
    {
        proof {
            use_type_invariant(&*self);
        }
        let mut clips: Vec<Clip> = Vec::new();
        std::mem::swap(&mut clips, &mut self.clips);
        let ghost pre = clips@;
        let removed = clips.remove(index);
        let ghost mid = clips@;
        let ghost d = removed.duration@;
        proof {
            assert(is_normal(pre[index as int].timeline_start@));
            assert(mid =~= pre.remove(index as int));
            assert forall|j: int| index <= j < mid.len() implies fits_i64(
                frac_sub(#[trigger] mid[j].timeline_start@, d),
            ) by {
                assert(mid[j] == pre[j + 1]);
            }
        }
        shift_tail_back(&mut clips, index, removed.duration);
        proof {
            let post = clips@;
            assert(times_normal(mid)) by {
                assert forall|i: int| 0 <= i < mid.len() implies {
                    &&& is_normal(#[trigger] mid[i].timeline_start@)
                    &&& is_normal(mid[i].duration@)
                    &&& is_normal(mid[i].source_in@)
                } by {
                    if i < index {
                        assert(mid[i] == pre[i]);
                    } else {
                        assert(mid[i] == pre[i + 1]);
                    }
                }
            }
            assert(chained_from(mid, index as int)) by {
                assert forall|j: int| index < j < mid.len() implies #[trigger] mid[j].timeline_start@
                    == clip_end(mid[j - 1]) by {
                    assert(mid[j] == pre[j + 1]);
                    assert(mid[j - 1] == pre[j]);
                    assert(pre[j + 1].timeline_start@ == start_slot(pre, j + 1));
                }
            }
            lemma_tail_back(mid, post, index as int, d);
            assert forall|i: int| 0 <= i < post.len() implies #[trigger] post[i].timeline_start@
                == start_slot(post, i) by {
                if i < index {
                    assert(post[i] == pre[i]);
                    assert(pre[i].timeline_start@ == start_slot(pre, i));
                    if i > 0 {
                        assert(post[i - 1] == pre[i - 1]);
                    }
                } else if i == index {
                    assert(mid[i] == pre[i + 1]);
                    assert(pre[i + 1].timeline_start@ == start_slot(pre, i + 1));
                    lemma_add_sub_cancel(pre[i].timeline_start@, d);
                    assert(pre[i].timeline_start@ == start_slot(pre, i));
                    if i > 0 {
                        assert(post[i - 1] == pre[i - 1]);
                    }
                }
            }
            assert forall|i: int| 0 <= i < post.len() implies {
                &&& is_normal(#[trigger] post[i].timeline_start@)
                &&& is_normal(post[i].duration@)
                &&& is_normal(post[i].source_in@)
                &&& fits_i64(clip_end(post[i]))
            } by {
                if i < index {
                    assert(post[i] == pre[i]);
                    assert(is_normal(pre[i].timeline_start@));
                } else {
                    assert(mid[i] == pre[i + 1]);
                    assert(is_normal(pre[i + 1].timeline_start@));
                    assert(is_normal(mid[i].timeline_start@));
                    assert(clip_end(post[i]) == frac_sub(clip_end(mid[i]), d));
                }
            }
        }
        self.clips = clips;
        removed
    }

    /// Trims the tail of clip `index` to `new_duration`, rippling all later
    /// clips by the change so the track stays gap-free.
    pub fn trim_out(&mut self, index: usize, new_duration: Time)
        requires
            index < old(self).spec_clips().len(),
            value_lt((0, 1), new_duration@),
            old(self).spec_clips()[index as int].duration@.0 != i64::MIN,
            fits_i64(frac_sub(new_duration@, old(self).spec_clips()[index as int].duration@)),
            fits_i64(frac_add(old(self).spec_clips()[index as int].timeline_start@, new_duration@)),
            forall|j: int|
                index < j < old(self).spec_clips().len() ==> fits_i64(
                    frac_add(
                        #[trigger] old(self).spec_clips()[j].timeline_start@,
                        frac_sub(new_duration@, old(self).spec_clips()[index as int].duration@),
                    ),
                ) && fits_i64(
                    frac_add(
                        clip_end(old(self).spec_clips()[j]),
                        frac_sub(new_duration@, old(self).spec_clips()[index as int].duration@),
                    ),
                ),
        ensures
            moved_from(
                old(self).spec_clips().update(
                    index as int,
                    Clip { duration: new_duration, ..old(self).spec_clips()[index as int] },
                ),
                final(self).spec_clips(),
                index + 1,
                |v: (int, int)|
                    frac_add(
                        v,
                        frac_sub(new_duration@, old(self).spec_clips()[index as int].duration@),
                    ),
            ),
    {
        proof {
            use_type_invariant(&*self);
        }
        new_duration.lowest_terms();
        let mut clips: Vec<Clip> = Vec::new();
        std::mem::swap(&mut clips, &mut self.clips);
        let ghost pre = clips@;
        let delta = new_duration - clips[index].duration;
        let mut c = clips[index];
        c.duration = new_duration;
        clips.set(index, c);
        let ghost mid = clips@;
        let ghost dl = delta@;
        proof {
            lemma_add_sub_normal(new_duration@, pre[index as int].duration@);
            assert forall|j: int| index + 1 <= j < mid.len() implies fits_i64(
                frac_add(#[trigger] mid[j].timeline_start@, dl),
            ) by {
                assert(mid[j] == pre[j]);
            }
        }
        assert(index < clips.len());
        shift_tail_forward(&mut clips, index + 1, delta);
        proof {
            let post = clips@;
            let k = index as int;
            assert(times_normal(mid)) by {
                assert forall|i: int| 0 <= i < mid.len() implies {
                    &&& is_normal(#[trigger] mid[i].timeline_start@)
                    &&& is_normal(mid[i].duration@)
                    &&& is_normal(mid[i].source_in@)
                } by {
                    if i != k {
                        assert(mid[i] == pre[i]);
                    }
                }
            }
            assert(chained_from(mid, k + 1)) by {
                assert forall|j: int| k + 1 < j < mid.len() implies #[trigger] mid[j].timeline_start@
                    == clip_end(mid[j - 1]) by {
                    assert(mid[j] == pre[j]);
                    assert(mid[j - 1] == pre[j - 1]);
                    assert(pre[j].timeline_start@ == start_slot(pre, j));
                }
            }
            lemma_tail_forward(mid, post, k + 1, dl);
            assert forall|i: int| 0 <= i < post.len() implies #[trigger] post[i].timeline_start@
                == start_slot(post, i) by {
                if i <= k {
                    assert(post[i] == mid[i]);
                    assert(pre[i].timeline_start@ == start_slot(pre, i));
                    if i > 0 {
                        assert(post[i - 1] == pre[i - 1]);
                    }
                } else if i == k + 1 {
                    assert(mid[i] == pre[i]);
                    assert(pre[i].timeline_start@ == start_slot(pre, i));
                    lemma_add_delta(
                        pre[k].timeline_start@,
                        pre[k].duration@,
                        new_duration@,
                    );
                    assert(post[i - 1] == mid[k]);
                }
            }
            assert forall|i: int| 0 <= i < post.len() implies {
                &&& is_normal(#[trigger] post[i].timeline_start@)
                &&& is_normal(post[i].duration@)
                &&& is_normal(post[i].source_in@)
                &&& fits_i64(clip_end(post[i]))
            } by {
                assert(is_normal(pre[i].timeline_start@));
                if i < k {
                    assert(post[i] == pre[i]);
                } else if i == k {
                    assert(post[i] == mid[i]);
                } else {
                    assert(mid[i] == pre[i]);
                    assert(is_normal(mid[i].timeline_start@));
                    assert(clip_end(post[i]) == frac_add(clip_end(mid[i]), dl));
                }
            }
            assert(mid =~= pre.update(k, Clip { duration: new_duration, ..pre[k] }));
        }
        self.clips = clips;
    }

    /// Trims the head of clip `index` by `amount` (advancing its in-point and
    /// shortening it), rippling all later clips so the track stays gap-free.
    ///
    /// `amount` may be negative to extend the head back toward the media start,
    /// bounded by the available source head: the in-point never moves before
    /// the start of the media.
    pub fn trim_in(&mut self, index: usize, amount: Time)
        requires
            index < old(self).spec_clips().len(),
            !value_lt(frac_add(old(self).spec_clips()[index as int].source_in@, amount@), (0, 1)),
            amount@.0 != i64::MIN,
            fits_i64(frac_sub(old(self).spec_clips()[index as int].duration@, amount@)),
            value_lt((0, 1), frac_sub(old(self).spec_clips()[index as int].duration@, amount@)),
            fits_i64(frac_add(old(self).spec_clips()[index as int].source_in@, amount@)),
            forall|j: int|
                index <= j < old(self).spec_clips().len() ==> fits_i64(
                    frac_sub(clip_end(#[trigger] old(self).spec_clips()[j]), amount@),
                ),
            forall|j: int|
                index < j < old(self).spec_clips().len() ==> fits_i64(
                    frac_sub(#[trigger] old(self).spec_clips()[j].timeline_start@, amount@),
                ),
        ensures
            final(self).spec_clips().len() == old(self).spec_clips().len(),
            final(self).spec_clips()[index as int].media == old(
                self,
            ).spec_clips()[index as int].media,
            final(self).spec_clips()[index as int].timeline_start == old(
                self,
            ).spec_clips()[index as int].timeline_start,
            final(self).spec_clips()[index as int].source_in@ == frac_add(
                old(self).spec_clips()[index as int].source_in@,
                amount@,
            ),
            !value_lt(final(self).spec_clips()[index as int].source_in@, (0, 1)),
            final(self).spec_clips()[index as int].duration@ == frac_sub(
                old(self).spec_clips()[index as int].duration@,
                amount@,
            ),
            moved_from(
                old(self).spec_clips().update(
                    index as int,
                    final(self).spec_clips()[index as int],
                ),
                final(self).spec_clips(),
                index + 1,
                |v: (int, int)| frac_sub(v, amount@),
            ),
    {
        proof {
            use_type_invariant(&*self);
        }
        amount.lowest_terms();
        let mut clips: Vec<Clip> = Vec::new();
        std::mem::swap(&mut clips, &mut self.clips);
        let ghost pre = clips@;
        let clip = clips[index];
        let new_duration = clip.duration - amount;
        let mut c = clip;
        c.source_in = clip.source_in + amount;
        c.duration = new_duration;
        clips.set(index, c);
        let ghost mid = clips@;
        let ghost a = amount@;
        proof {
            lemma_add_sub_normal(clip.source_in@, a);
            lemma_add_sub_normal(clip.duration@, a);
            assert forall|j: int| index + 1 <= j < mid.len() implies fits_i64(
                frac_sub(#[trigger] mid[j].timeline_start@, a),
            ) by {
                assert(mid[j] == pre[j]);
            }
        }
        assert(index < clips.len());
        shift_tail_back(&mut clips, index + 1, amount);
        proof {
            let post = clips@;
            let k = index as int;
            assert(times_normal(mid)) by {
                assert forall|i: int| 0 <= i < mid.len() implies {
                    &&& is_normal(#[trigger] mid[i].timeline_start@)
                    &&& is_normal(mid[i].duration@)
                    &&& is_normal(mid[i].source_in@)
                } by {
                    if i != k {
                        assert(mid[i] == pre[i]);
                    }
                }
            }
            assert(chained_from(mid, k + 1)) by {
                assert forall|j: int| k + 1 < j < mid.len() implies #[trigger] mid[j].timeline_start@
                    == clip_end(mid[j - 1]) by {
                    assert(mid[j] == pre[j]);
                    assert(mid[j - 1] == pre[j - 1]);
                    assert(pre[j].timeline_start@ == start_slot(pre, j));
                }
            }
            lemma_tail_back(mid, post, k + 1, a);
            lemma_add_sub_assoc(pre[k].timeline_start@, pre[k].duration@, a);
            assert forall|i: int| 0 <= i < post.len() implies #[trigger] post[i].timeline_start@
                == start_slot(post, i) by {
                if i <= k {
                    assert(post[i] == mid[i]);
                    assert(pre[i].timeline_start@ == start_slot(pre, i));
                    if i > 0 {
                        assert(post[i - 1] == pre[i - 1]);
                    }
                } else if i == k + 1 {
                    assert(mid[i] == pre[i]);
                    assert(pre[i].timeline_start@ == start_slot(pre, i));
                    assert(post[i - 1] == mid[k]);
                }
            }
            assert forall|i: int| 0 <= i < post.len() implies {
                &&& is_normal(#[trigger] post[i].timeline_start@)
                &&& is_normal(post[i].duration@)
                &&& is_normal(post[i].source_in@)
                &&& fits_i64(clip_end(post[i]))
            } by {
                assert(is_normal(pre[i].timeline_start@));
                if i < k {
                    assert(post[i] == pre[i]);
                } else if i == k {
                    assert(post[i] == mid[i]);
                } else {
                    assert(mid[i] == pre[i]);
                    assert(is_normal(mid[i].timeline_start@));
                    assert(clip_end(post[i]) == frac_sub(clip_end(mid[i]), a));
                }
            }
            assert(mid =~= pre.update(k, post[k]));
        }
        self.clips = clips;
    }
}

impl Clone for Track {
    /// A copy of the track with the same clips.
    fn clone(&self) -> (t: Track)
        ensures
            t.spec_clips() == self.spec_clips(),
    {
        proof {
            use_type_invariant(self);
        }
        let mut clips: Vec<Clip> = Vec::new();
        let n = self.clips.len();
        let mut i: usize = 0;
        while i < n
            invariant
                n == self.clips@.len(),
                i <= n,
                clips@ == self.clips@.subrange(0, i as int),
            decreases n - i,
        {
            clips.push(self.clips[i]);
            i = i + 1;
            proof {
                assert(clips@ =~= self.clips@.subrange(0, i as int));
            }
        }
        proof {
            assert(clips@ =~= self.clips@);
        }
        Track { clips }
    }
}

impl Default for Track {
    /// An empty track.
    fn default() -> (t: Track)
        ensures
            t.spec_clips() == Seq::<Clip>::empty(),
    {
        Track::new()
    }
}

} // verus!
