//! Properties of the library as a whole, stated over the models its
//! functions' contracts use.

use vstd::prelude::*;
use vstd::arithmetic::div_mod::lemma_fundamental_div_mod_converse;
use crate::cache::{
    after_get, after_put, distinct_keys, has_key, key_index, lemma_after_get_wf,
    lemma_after_put_wf,
};
use crate::clip::{clip_covers, clip_end, Clip};
use crate::frame::Frame;
use crate::decode::packed_rows;
use crate::text::decimal2;
use crate::timecode::{nominal_rate, smpte};
use crate::pool::{acquire_outcome, capacity_choice};
use crate::sequence::{latest_end, topmost_hit, Sequence};
use crate::source::{pattern_bytes, FrameSource};
use crate::time::Time;
use crate::track::{
    clips_valid, first_cover, first_cover_at, gap_free, moved_from, row_end, start_slot, Track,
};
use crate::arith::{
    abs_nat, gcd_spec,
    frac_add, frac_div, frac_mul, frac_sub, is_normal, lemma_add_delta, lemma_add_sub_cancel,
    lemma_int_normal, lemma_normal_unique, lemma_reduce, lemma_reduce_normal, lemma_reduce_pos,
    lemma_reduce_same, lemma_sub_add_cancel, lemma_add_swap, lemma_sub_add_swap, lemma_add_sub_assoc, nearest_int, lemma_add_sub_normal, reduce, same_value, value_lt,
};

verus! {

/// Two normalized times (or rationals) are identical exactly when they name
/// the same number: `24 frames @ 24 fps` and `30 frames @ 30 fps` are the same
/// instant and compare equal.
pub proof fn law_equal_iff_same_instant(a: (int, int), b: (int, int))
    requires
        is_normal(a),
        is_normal(b),
    ensures
        a == b <==> same_value(a, b),
{
    if same_value(a, b) {
        lemma_normal_unique(a, b);
    }
}

/// Construction reduces to lowest terms: `n/d` and `(n*k)/(d*k)` build the
/// same rational, and the result has a positive denominator.
pub proof fn law_rational_canonical(n: int, d: int, k: int)
    requires
        d != 0,
        k != 0,
    ensures
        reduce(n * k, d * k) == reduce(n, d),
        is_normal(reduce(n, d)),
{
    assert(d * k != 0) by (nonlinear_arith)
        requires
            d != 0,
            k != 0,
    ;
    assert((n * k) * d == n * (d * k)) by (nonlinear_arith);
    lemma_reduce_same(n * k, d * k, n, d);
    lemma_reduce(n, d);
}

/// Converting a frame index to time and back at the same (non-zero) rate gives
/// the index back.
pub proof fn law_frame_round_trip(n: int, fps: (int, int))
    requires
        is_normal(fps),
        fps.0 != 0,
    ensures
        nearest_int(frac_mul(frac_div((n, 1), fps), fps)) == n,
{
    let x = frac_div((n, 1), fps);
    assert(n * fps.1 == n * fps.1 && 1 * fps.0 == fps.0);
    lemma_reduce(n * fps.1, fps.0);
    assert(x == reduce(n * fps.1, 1 * fps.0));
    assert(x.0 * fps.0 == (n * fps.1) * x.1);
    assert(x.1 * fps.1 > 0) by (nonlinear_arith)
        requires
            x.1 > 0,
            fps.1 > 0,
    ;
    assert((x.0 * fps.0) * 1 == n * (x.1 * fps.1)) by (nonlinear_arith)
        requires
            x.0 * fps.0 == (n * fps.1) * x.1,
    ;
    lemma_reduce_same(x.0 * fps.0, x.1 * fps.1, n, 1);
    lemma_int_normal(n);
    lemma_reduce_normal((n, 1));
    assert(frac_mul(x, fps) == (n, 1int));
    lemma_fundamental_div_mod_converse(2 * n + 1, 2, n, 1);
}

/// Exact arithmetic: adding then subtracting a duration gives back the start,
/// and so does subtracting then adding; a time minus itself is exactly zero.
pub proof fn law_add_sub_inverse(a: (int, int), b: (int, int))
    requires
        is_normal(a),
        is_normal(b),
    ensures
        frac_sub(frac_add(a, b), b) == a,
        frac_add(frac_sub(a, b), b) == a,
        frac_sub(a, a) == (0int, 1int),
{
    let d = a.1 * a.1;
    assert(d > 0) by (nonlinear_arith)
        requires
            a.1 > 0,
            d == a.1 * a.1,
    ;
    assert(a.0 * a.1 - a.0 * a.1 == 0);
    assert(gcd_spec(abs_nat(0), abs_nat(d)) == d) by {
        reveal_with_fuel(gcd_spec, 2);
    }
    assert(0int / d == 0 && d / d == 1) by (nonlinear_arith)
        requires
            d > 0,
    ;
    lemma_add_sub_cancel(a, b);
    lemma_sub_add_cancel(a, b);
}

/// Instants are totally ordered: exactly one of `a < b`, `a == b`, `b < a`
/// holds for normalized values.
pub proof fn law_order_total(a: (int, int), b: (int, int))
    requires
        is_normal(a),
        is_normal(b),
    ensures
        value_lt(a, b) || a == b || value_lt(b, a),
        !(value_lt(a, b) && value_lt(b, a)),
        a == b ==> !value_lt(a, b),
{
    if !value_lt(a, b) && !value_lt(b, a) {
        lemma_normal_unique(a, b);
    }
}

/// The order on instants is transitive.
pub proof fn law_order_transitive(a: (int, int), b: (int, int), c: (int, int))
    requires
        a.1 > 0,
        b.1 > 0,
        c.1 > 0,
        value_lt(a, b),
        value_lt(b, c),
    ensures
        value_lt(a, c),
{
    assert(a.0 * b.1 * c.1 < b.0 * a.1 * c.1) by (nonlinear_arith)
        requires
            a.0 * b.1 < b.0 * a.1,
            c.1 > 0,
    ;
    assert(b.0 * c.1 * a.1 < c.0 * b.1 * a.1) by (nonlinear_arith)
        requires
            b.0 * c.1 < c.0 * b.1,
            a.1 > 0,
    ;
    assert(a.0 * c.1 * b.1 < c.0 * a.1 * b.1) by (nonlinear_arith)
        requires
            a.0 * b.1 * c.1 < b.0 * a.1 * c.1,
            b.0 * c.1 * a.1 < c.0 * b.1 * a.1,
    ;
    assert(a.0 * c.1 < c.0 * a.1) by (nonlinear_arith)
        requires
            a.0 * c.1 * b.1 < c.0 * a.1 * b.1,
            b.1 > 0,
    ;
}

/// Rounding to the nearest frame: the result `m` satisfies
/// `m - 1/2 <= v < m + 1/2`, so exact halves round up.
pub proof fn law_nearest_frame(v: (int, int))
    requires
        v.1 > 0,
    ensures
        (2 * nearest_int(v) - 1) * v.1 <= 2 * v.0,
        2 * v.0 < (2 * nearest_int(v) + 1) * v.1,
{
    let m = nearest_int(v);
    let r = (2 * v.0 + v.1) % (2 * v.1);
    vstd::arithmetic::div_mod::lemma_fundamental_div_mod(2 * v.0 + v.1, 2 * v.1);
    assert(0 <= r < 2 * v.1);
    assert((2 * m - 1) * v.1 <= 2 * v.0 && 2 * v.0 < (2 * m + 1) * v.1) by (nonlinear_arith)
        requires
            2 * v.0 + v.1 == (2 * v.1) * m + r,
            0 <= r < 2 * v.1,
    ;
}

/// Trimming a clip's head by `a` (advancing its in-point by `a`, shortening it
/// by `a`) keeps the source out-point `source_in + duration` fixed.
pub proof fn law_trim_in_keeps_source_out(source_in: (int, int), duration: (int, int), a: (
    int,
    int,
))
    requires
        source_in.1 > 0,
        duration.1 > 0,
        a.1 > 0,
    ensures
        frac_add(frac_add(source_in, a), frac_sub(duration, a)) == frac_add(source_in, duration),
{
    lemma_add_delta(source_in, a, duration);
}

/// With distinct keys, the entry carrying `k` is found at its position.
proof fn lemma_key_at(t: Seq<(u64, Frame)>, k: u64, i: int)
    requires
        distinct_keys(t),
        0 <= i < t.len(),
        t[i].0 == k,
    ensures
        has_key(t, k),
        key_index(t, k) == i,
{
    assert(has_key(t, k));
    let j = key_index(t, k);
    if j != i {
        assert(t[j].0 != t[i].0);
    }
}

/// Read after write: once `f` is stored under `k`, `k` is cached with `f`
/// as its most recently used entry, and a lookup of `k` yields `f`.
pub proof fn law_cache_read_after_write(s: Seq<(u64, Frame)>, cap: nat, k: u64, f: Frame)
    requires
        distinct_keys(s),
        s.len() <= cap,
        cap >= 1,
    ensures
        has_key(after_put(s, cap, k, f), k),
        after_put(s, cap, k, f)[key_index(after_put(s, cap, k, f), k)].1 == f,
        after_put(s, cap, k, f).last() == (k, f),
        after_get(after_put(s, cap, k, f), k) == after_put(s, cap, k, f),
{
    let t = after_put(s, cap, k, f);
    lemma_after_put_wf(s, cap, k, f);
    assert(t.last() == (k, f));
    lemma_key_at(t, k, t.len() - 1);
    assert(t.remove(t.len() - 1).push(t[t.len() - 1]) =~= t);
}

/// Storing a new key in a full cache evicts exactly the least recently used
/// entry and keeps every other one.
pub proof fn law_cache_evicts_lru(s: Seq<(u64, Frame)>, cap: nat, k: u64, f: Frame)
    requires
        distinct_keys(s),
        s.len() == cap,
        cap >= 1,
        !has_key(s, k),
    ensures
        after_put(s, cap, k, f) == s.drop_first().push((k, f)),
        after_put(s, cap, k, f).len() == cap,
        !has_key(after_put(s, cap, k, f), s[0].0),
        forall|i: int| 1 <= i < s.len() ==> has_key(after_put(s, cap, k, f), #[trigger] s[i].0),
{
    let t = after_put(s, cap, k, f);
    assert forall|i: int| 1 <= i < s.len() implies has_key(t, #[trigger] s[i].0) by {
        assert(t[i - 1] == s[i]);
    }
    if has_key(t, s[0].0) {
        let j = choose|j: int| 0 <= j < t.len() && #[trigger] t[j].0 == s[0].0;
        if j < t.len() - 1 {
            assert(t[j] == s[j + 1]);
        } else {
            assert(t[j].0 == k);
            assert(s[0].0 == k);
        }
    }
}

/// A lookup hit makes the entry the most recently used and changes nothing
/// else: same length, same keys.
pub proof fn law_cache_get_refreshes(s: Seq<(u64, Frame)>, k: u64)
    requires
        distinct_keys(s),
        has_key(s, k),
    ensures
        after_get(s, k).last() == s[key_index(s, k)],
        after_get(s, k).len() == s.len(),
        distinct_keys(after_get(s, k)),
        forall|i: int| 0 <= i < s.len() ==> has_key(after_get(s, k), #[trigger] s[i].0),
{
    lemma_after_get_wf(s, k);
    let t = after_get(s, k);
    let p = key_index(s, k);
    assert forall|i: int| 0 <= i < s.len() implies has_key(t, #[trigger] s[i].0) by {
        if i < p {
            assert(t[i] == s[i]);
        } else if i == p {
            assert(t[t.len() - 1] == s[p]);
        } else {
            assert(t[i - 1] == s[i]);
        }
    }
}

/// Adding a positive duration moves strictly later.
proof fn lemma_lt_after_add(s: (int, int), d: (int, int))
    requires
        s.1 > 0,
        d.1 > 0,
        d.0 > 0,
    ensures
        value_lt(s, frac_add(s, d)),
        frac_add(s, d).1 > 0,
{
    let n = s.0 * d.1 + d.0 * s.1;
    let dd = s.1 * d.1;
    assert(dd > 0) by (nonlinear_arith)
        requires
            s.1 > 0,
            d.1 > 0,
            dd == s.1 * d.1,
    ;
    lemma_reduce_pos(n, dd);
    let r = frac_add(s, d);
    assert(r.0 * dd == n * r.1);
    assert(s.0 * r.1 * d.1 < r.0 * s.1 * d.1) by (nonlinear_arith)
        requires
            r.0 * dd == n * r.1,
            n == s.0 * d.1 + d.0 * s.1,
            dd == s.1 * d.1,
            d.0 > 0,
            s.1 > 0,
            r.1 > 0,
    ;
    assert(s.0 * r.1 < r.0 * s.1) by (nonlinear_arith)
        requires
            s.0 * r.1 * d.1 < r.0 * s.1 * d.1,
            d.1 > 0,
    ;
}

/// `a <= b` and `b <= c` give `a <= c` (positive denominators).
proof fn lemma_le_trans(a: (int, int), b: (int, int), c: (int, int))
    requires
        a.1 > 0,
        b.1 > 0,
        c.1 > 0,
        !value_lt(b, a),
        !value_lt(c, b),
    ensures
        !value_lt(c, a),
{
    assert(a.0 * b.1 * c.1 <= b.0 * a.1 * c.1) by (nonlinear_arith)
        requires
            a.0 * b.1 <= b.0 * a.1,
            c.1 > 0,
    ;
    assert(b.0 * c.1 * a.1 <= c.0 * b.1 * a.1) by (nonlinear_arith)
        requires
            b.0 * c.1 <= c.0 * b.1,
            a.1 > 0,
    ;
    assert(a.0 * c.1 * b.1 <= c.0 * a.1 * b.1) by (nonlinear_arith)
        requires
            a.0 * b.1 * c.1 <= b.0 * a.1 * c.1,
            b.0 * c.1 * a.1 <= c.0 * b.1 * a.1,
    ;
    assert(a.0 * c.1 <= c.0 * a.1) by (nonlinear_arith)
        requires
            a.0 * c.1 * b.1 <= c.0 * a.1 * b.1,
            b.1 > 0,
    ;
}

/// In a gap-free row of positive-length clips, clip `i` ends no later than
/// any later clip `j` starts.
proof fn lemma_ends_before(c: Seq<Clip>, i: int, j: int)
    requires
        gap_free(c),
        clips_valid(c),
        forall|k: int| 0 <= k < c.len() ==> value_lt((0, 1), #[trigger] c[k].duration@),
        0 <= i < j < c.len(),
    ensures
        !value_lt(c[j].timeline_start@, clip_end(c[i])),
    decreases j - i,
{
    assert(c[j].timeline_start@ == start_slot(c, j));
    assert(is_normal(c[i].timeline_start@));
    lemma_add_sub_normal(c[i].timeline_start@, c[i].duration@);
    if j > i + 1 {
        lemma_ends_before(c, i, j - 1);
        assert(is_normal(c[j - 1].timeline_start@));
        assert(value_lt((0, 1), c[j - 1].duration@));
        assert(c[j - 1].duration@.0 > 0) by (nonlinear_arith)
            requires
                0 * c[j - 1].duration@.1 < c[j - 1].duration@.0 * 1,
        ;
        lemma_lt_after_add(c[j - 1].timeline_start@, c[j - 1].duration@);
        lemma_le_trans(clip_end(c[i]), c[j - 1].timeline_start@, c[j].timeline_start@);
    }
}

/// A gap-free row of clips with positive durations is sorted by start time
/// and its clips do not overlap: no instant is covered by two clips.
pub proof fn law_track_sorted_non_overlapping(c: Seq<Clip>)
    requires
        gap_free(c),
        clips_valid(c),
        forall|k: int| 0 <= k < c.len() ==> value_lt((0, 1), #[trigger] c[k].duration@),
    ensures
        forall|i: int, j: int|
            0 <= i < j < c.len() ==> value_lt(
                #[trigger] c[i].timeline_start@,
                #[trigger] c[j].timeline_start@,
            ),
        forall|i: int, j: int, t: (int, int)|
            0 <= i < j < c.len() && t.1 > 0 ==> !(#[trigger] clip_covers(c[i], t)
                && #[trigger] clip_covers(c[j], t)),
{
    assert forall|i: int, j: int| 0 <= i < j < c.len() implies value_lt(
        #[trigger] c[i].timeline_start@,
        #[trigger] c[j].timeline_start@,
    ) by {
        lemma_ends_before(c, i, j);
        assert(is_normal(c[i].timeline_start@));
        assert(is_normal(c[j].timeline_start@));
        assert(value_lt((0, 1), c[i].duration@));
        assert(c[i].duration@.0 > 0) by (nonlinear_arith)
            requires
                0 * c[i].duration@.1 < c[i].duration@.0 * 1,
        ;
        lemma_lt_after_add(c[i].timeline_start@, c[i].duration@);
        assert(value_lt(c[i].timeline_start@, clip_end(c[i])));
        let a = c[i].timeline_start@;
        let b = clip_end(c[i]);
        let d = c[j].timeline_start@;
        assert(a.0 * d.1 < d.0 * a.1) by (nonlinear_arith)
            requires
                a.0 * b.1 < b.0 * a.1,
                b.0 * d.1 <= d.0 * b.1,
                a.1 > 0,
                b.1 > 0,
                d.1 > 0,
        ;
    }
    assert forall|i: int, j: int, t: (int, int)|
        0 <= i < j < c.len() && t.1 > 0 implies !(#[trigger] clip_covers(c[i], t)
        && #[trigger] clip_covers(c[j], t)) by {
        if clip_covers(c[i], t) && clip_covers(c[j], t) {
            lemma_ends_before(c, i, j);
            assert(is_normal(c[i].timeline_start@));
            assert(is_normal(c[j].timeline_start@));
            lemma_add_sub_normal(c[i].timeline_start@, c[i].duration@);
            let b = clip_end(c[i]);
            let d = c[j].timeline_start@;
            assert(t.0 * d.1 < d.0 * t.1) by (nonlinear_arith)
                requires
                    t.0 * b.1 < b.0 * t.1,
                    b.0 * d.1 <= d.0 * b.1,
                    t.1 > 0,
                    b.1 > 0,
                    d.1 > 0,
            ;
        }
    }
}


/// Adding a non-negative duration never moves earlier.
proof fn lemma_le_after_add(s: (int, int), d: (int, int))
    requires
        s.1 > 0,
        d.1 > 0,
        d.0 >= 0,
    ensures
        !value_lt(frac_add(s, d), s),
        frac_add(s, d).1 > 0,
{
    let n = s.0 * d.1 + d.0 * s.1;
    let dd = s.1 * d.1;
    assert(dd > 0) by (nonlinear_arith)
        requires
            s.1 > 0,
            d.1 > 0,
            dd == s.1 * d.1,
    ;
    lemma_reduce_pos(n, dd);
    let r = frac_add(s, d);
    assert(r.0 * dd == n * r.1);
    assert(s.0 * r.1 * d.1 <= r.0 * s.1 * d.1) by (nonlinear_arith)
        requires
            r.0 * dd == n * r.1,
            n == s.0 * d.1 + d.0 * s.1,
            dd == s.1 * d.1,
            d.0 >= 0,
            s.1 > 0,
            r.1 > 0,
    ;
    assert(s.0 * r.1 <= r.0 * s.1) by (nonlinear_arith)
        requires
            s.0 * r.1 * d.1 <= r.0 * s.1 * d.1,
            d.1 > 0,
    ;
}

/// `a < b` and `b <= c` give `a < c` (positive denominators).
proof fn lemma_lt_le_trans(a: (int, int), b: (int, int), c: (int, int))
    requires
        a.1 > 0,
        b.1 > 0,
        c.1 > 0,
        value_lt(a, b),
        !value_lt(c, b),
    ensures
        value_lt(a, c),
{
    assert(a.0 * c.1 * b.1 < c.0 * a.1 * b.1) by (nonlinear_arith)
        requires
            a.0 * b.1 < b.0 * a.1,
            b.0 * c.1 <= c.0 * b.1,
            a.1 > 0,
            b.1 > 0,
            c.1 > 0,
    ;
    assert(a.0 * c.1 < c.0 * a.1) by (nonlinear_arith)
        requires
            a.0 * c.1 * b.1 < c.0 * a.1 * b.1,
            b.1 > 0,
    ;
}

/// No clip of `c` has a negative duration.
pub open spec fn no_negative_durations(c: Seq<Clip>) -> bool {
    forall|i: int| 0 <= i < c.len() ==> !value_lt(#[trigger] c[i].duration@, (0, 1))
}

/// In a gap-free row without negative durations, clip `i` ends no later than
/// the row does.
proof fn lemma_ends_by_row_end(c: Seq<Clip>, i: int)
    requires
        gap_free(c),
        clips_valid(c),
        no_negative_durations(c),
        0 <= i < c.len(),
    ensures
        !value_lt(row_end(c), clip_end(c[i])),
        clip_end(c[i]).1 > 0,
        row_end(c).1 > 0,
    decreases c.len() - i,
{
    assert(is_normal(c[i].timeline_start@));
    assert(!value_lt(c[i].duration@, (0, 1)));
    lemma_le_after_add(c[i].timeline_start@, c[i].duration@);
    if i + 1 < c.len() {
        lemma_ends_by_row_end(c, i + 1);
        assert(c[i + 1].timeline_start@ == start_slot(c, i + 1));
        assert(is_normal(c[i + 1].timeline_start@));
        assert(!value_lt(c[i + 1].duration@, (0, 1)));
        lemma_le_after_add(c[i + 1].timeline_start@, c[i + 1].duration@);
        lemma_le_trans(clip_end(c[i]), clip_end(c[i + 1]), row_end(c));
    }
}

/// At or after the end of a gap-free row without negative durations, no clip
/// covers the instant.
proof fn lemma_no_cover_past_row_end(c: Seq<Clip>, t: (int, int))
    requires
        gap_free(c),
        clips_valid(c),
        no_negative_durations(c),
        t.1 > 0,
        !value_lt(t, row_end(c)),
    ensures
        first_cover(c, t) is None,
        row_end(c).1 > 0,
{
    assert forall|i: int| 0 <= i < c.len() implies !clip_covers(#[trigger] c[i], t) by {
        lemma_ends_by_row_end(c, i);
        if value_lt(t, clip_end(c[i])) {
            lemma_lt_le_trans(t, clip_end(c[i]), row_end(c));
        }
    }
    if c.len() > 0 {
        lemma_ends_by_row_end(c, 0);
    }
    assert(!exists|i: int| first_cover_at(c, t, i));
}

/// The latest end among the first `n` tracks is at or after each of their ends.
proof fn lemma_latest_end_bounds(tracks: Seq<Track>, n: int, k: int)
    requires
        0 <= k < n <= tracks.len(),
        forall|j: int| 0 <= j < n ==> (#[trigger] row_end(tracks[j].spec_clips())).1 > 0,
    ensures
        !value_lt(latest_end(tracks, n), row_end(tracks[k].spec_clips())),
        latest_end(tracks, n).1 > 0,
    decreases n,
{
    let e = row_end(tracks[n - 1].spec_clips());
    assert(e.1 > 0);
    if n == 1 {
        assert(row_end(tracks[0].spec_clips()).1 > 0);
    } else {
        let m = latest_end(tracks, n - 1);
        if k < n - 1 {
            lemma_latest_end_bounds(tracks, n - 1, k);
            if !value_lt(e, m) {
                lemma_le_trans(row_end(tracks[k].spec_clips()), m, e);
            }
        } else {
            lemma_latest_end_bounds(tracks, n - 1, 0);
        }
    }
}

/// With no track offering a clip under `t`, the topmost hit is empty.
proof fn lemma_topmost_none(tracks: Seq<Track>, t: (int, int), n: int)
    requires
        0 <= n <= tracks.len(),
        forall|k: int| 0 <= k < n ==> (#[trigger] first_cover(tracks[k].spec_clips(), t)) is None,
    ensures
        topmost_hit(tracks, t, n) is None,
    decreases n,
{
    if n > 0 {
        assert(first_cover(tracks[n - 1].spec_clips(), t) is None);
        lemma_topmost_none(tracks, t, n - 1);
    }
}

/// Past the end is a gap: when no clip has a negative duration, an instant at
/// or after the sequence's duration lies under no clip on any track, so the
/// sequence shows no frame there.
pub proof fn law_past_end_is_gap<S: FrameSource + ?Sized>(s: Sequence<S>, t: (int, int))
    requires
        t.1 > 0,
        forall|k: int|
            0 <= k < s.spec_tracks().len() ==> gap_free(#[trigger] s.spec_tracks()[k].spec_clips())
                && clips_valid(s.spec_tracks()[k].spec_clips())
                && no_negative_durations(s.spec_tracks()[k].spec_clips()),
        !value_lt(t, latest_end(s.spec_tracks(), s.spec_tracks().len() as int)),
    ensures
        s.hit(t) is None,
        s.source_frame(t) is None,
{
    let tracks = s.spec_tracks();
    let n = tracks.len() as int;
    assert forall|j: int| 0 <= j < n implies (#[trigger] row_end(tracks[j].spec_clips())).1 > 0 by {
        let c = tracks[j].spec_clips();
        if c.len() > 0 {
            lemma_ends_by_row_end(c, 0);
        }
    }
    assert forall|k: int| 0 <= k < n implies (#[trigger] first_cover(
        tracks[k].spec_clips(),
        t,
    )) is None by {
        lemma_latest_end_bounds(tracks, n, k);
        let r = row_end(tracks[k].spec_clips());
        if value_lt(t, r) {
            lemma_lt_le_trans(t, r, latest_end(tracks, n));
        }
        lemma_no_cover_past_row_end(tracks[k].spec_clips(), t);
    }
    lemma_topmost_none(tracks, t, n);
}

/// Ripple delete closes the gap: the track ends earlier by exactly the
/// removed clip's duration.
pub proof fn law_ripple_delete_end(pre: Seq<Clip>, post: Seq<Clip>, i: int)
    requires
        gap_free(pre),
        clips_valid(pre),
        0 <= i < pre.len(),
        moved_from(pre.remove(i), post, i, |v: (int, int)| frac_sub(v, pre[i].duration@)),
    ensures
        row_end(post) == frac_sub(row_end(pre), pre[i].duration@),
{
    let d = pre[i].duration@;
    let n = pre.len() as int;
    assert(is_normal(pre[i].timeline_start@));
    if i < n - 1 {
        let last = pre[n - 1];
        assert(pre.remove(i)[n - 2] == last);
        assert(post[n - 2].timeline_start@ == frac_sub(last.timeline_start@, d));
        assert(post[n - 2].duration == last.duration);
        assert(is_normal(last.timeline_start@));
        lemma_sub_add_swap(last.timeline_start@, last.duration@, d);
    } else if n > 1 {
        assert(pre.remove(i)[n - 2] == pre[n - 2]);
        assert(post[n - 2] == pre[n - 2]);
        assert(pre[n - 1].timeline_start@ == start_slot(pre, n - 1));
        assert(is_normal(pre[n - 1].timeline_start@));
        lemma_add_sub_cancel(pre[n - 1].timeline_start@, d);
    } else {
        assert(pre[0].timeline_start@ == start_slot(pre, 0));
        lemma_int_normal(0);
        lemma_add_sub_cancel((0, 1), d);
    }
}

/// A tail trim ripples: the track's end moves by exactly the change in the
/// trimmed clip's duration.
pub proof fn law_trim_out_end(pre: Seq<Clip>, post: Seq<Clip>, i: int, new_duration: Time)
    requires
        clips_valid(pre),
        0 <= i < pre.len(),
        new_duration@.1 > 0,
        moved_from(
            pre.update(i, Clip { duration: new_duration, ..pre[i] }),
            post,
            i + 1,
            |v: (int, int)| frac_add(v, frac_sub(new_duration@, pre[i].duration@)),
        ),
    ensures
        row_end(post) == frac_add(row_end(pre), frac_sub(new_duration@, pre[i].duration@)),
{
    let old_d = pre[i].duration@;
    let delta = frac_sub(new_duration@, old_d);
    let n = pre.len() as int;
    assert(is_normal(pre[i].timeline_start@));
    lemma_add_sub_normal(new_duration@, old_d);
    let last = pre[n - 1];
    assert(is_normal(last.timeline_start@));
    assert(is_normal(last.duration@));
    if i < n - 1 {
        assert(post[n - 1].timeline_start@ == frac_add(last.timeline_start@, delta));
        assert(post[n - 1].duration == last.duration);
        lemma_add_swap(last.timeline_start@, last.duration@, delta);
    } else {
        assert(post[n - 1] == Clip { duration: new_duration, ..last });
        lemma_add_delta(last.timeline_start@, old_d, new_duration@);
    }
}

/// A head trim ripples: the track's end moves back by exactly the trimmed
/// amount (forward for a negative amount).
pub proof fn law_trim_in_end(pre: Seq<Clip>, post: Seq<Clip>, i: int, amount: Time)
    requires
        clips_valid(pre),
        0 <= i < pre.len(),
        amount@.1 > 0,
        post.len() == pre.len(),
        post[i].timeline_start == pre[i].timeline_start,
        post[i].duration@ == frac_sub(pre[i].duration@, amount@),
        moved_from(pre.update(i, post[i]), post, i + 1, |v: (int, int)| frac_sub(v, amount@)),
    ensures
        row_end(post) == frac_sub(row_end(pre), amount@),
{
    let n = pre.len() as int;
    let last = pre[n - 1];
    assert(is_normal(last.timeline_start@));
    assert(is_normal(last.duration@));
    if i < n - 1 {
        assert(post[n - 1].timeline_start@ == frac_sub(last.timeline_start@, amount@));
        assert(post[n - 1].duration == last.duration);
        lemma_sub_add_swap(last.timeline_start@, last.duration@, amount@);
    } else {
        lemma_add_sub_assoc(last.timeline_start@, last.duration@, amount@);
    }
}

/// A pool holding a buffer at least as long as a request reuses a buffer:
/// acquiring takes one out instead of allocating. In particular, releasing a
/// frame into a pool below its limit and acquiring a frame of the same size
/// leaves the pool holding as many buffers as before the release.
pub proof fn law_pool_reuses_long_enough(
    pre: Seq<Seq<u8>>,
    post: Seq<Seq<u8>>,
    needed: int,
    j: int,
)
    requires
        acquire_outcome(pre, post, needed),
        0 <= j < pre.len(),
        pre[j].len() >= needed,
    ensures
        post.len() + 1 == pre.len(),
{
    if post == pre && forall|k: int| 0 <= k < pre.len() ==> #[trigger] pre[k].len() < needed {
        assert(pre[j].len() < needed);
    }
}

/// Acquiring never adds a buffer to the pool: it keeps as many buffers or
/// takes one out. Together with `release`, which adds one only below the
/// pool's limit, the pool never holds more buffers than its limit.
pub proof fn law_pool_acquire_never_grows(pre: Seq<Seq<u8>>, post: Seq<Seq<u8>>, needed: int)
    requires
        acquire_outcome(pre, post, needed),
    ensures
        post.len() == pre.len() || post.len() + 1 == pre.len(),
{
}

/// All clips of `c` have positive durations.
pub open spec fn positive_durations(c: Seq<Clip>) -> bool {
    forall|k: int| 0 <= k < c.len() ==> value_lt((0, 1), #[trigger] c[k].duration@)
}

/// Ripple delete keeps a track of positive-length clips sorted and free of
/// overlaps: the remaining clips keep their positive lengths, and the track
/// stays gap-free.
pub proof fn law_ripple_delete_keeps_order(pre: Seq<Clip>, post: Seq<Clip>, i: int)
    requires
        positive_durations(pre),
        0 <= i < pre.len(),
        moved_from(pre.remove(i), post, i, |v: (int, int)| frac_sub(v, pre[i].duration@)),
        gap_free(post),
        clips_valid(post),
    ensures
        positive_durations(post),
        forall|a: int, b: int|
            0 <= a < b < post.len() ==> value_lt(
                #[trigger] post[a].timeline_start@,
                #[trigger] post[b].timeline_start@,
            ),
        forall|a: int, b: int, t: (int, int)|
            0 <= a < b < post.len() && t.1 > 0 ==> !(#[trigger] clip_covers(post[a], t)
                && #[trigger] clip_covers(post[b], t)),
{
    let mid = pre.remove(i);
    assert forall|k: int| 0 <= k < post.len() implies value_lt(
        (0, 1),
        #[trigger] post[k].duration@,
    ) by {
        if k < i {
            assert(post[k] == mid[k]);
        } else {
            let _start = post[k].timeline_start@;
            assert(post[k].duration == mid[k].duration);
        }
        assert(mid[k] == pre[if k < i { k } else { k + 1 }]);
    }
    law_track_sorted_non_overlapping(post);
}

/// A tail trim to a positive length keeps a track of positive-length clips
/// sorted and free of overlaps.
pub proof fn law_trim_out_keeps_order(pre: Seq<Clip>, post: Seq<Clip>, i: int, new_duration: Time)
    requires
        positive_durations(pre),
        0 <= i < pre.len(),
        value_lt((0, 1), new_duration@),
        moved_from(
            pre.update(i, Clip { duration: new_duration, ..pre[i] }),
            post,
            i + 1,
            |v: (int, int)| frac_add(v, frac_sub(new_duration@, pre[i].duration@)),
        ),
        gap_free(post),
        clips_valid(post),
    ensures
        positive_durations(post),
        forall|a: int, b: int|
            0 <= a < b < post.len() ==> value_lt(
                #[trigger] post[a].timeline_start@,
                #[trigger] post[b].timeline_start@,
            ),
        forall|a: int, b: int, t: (int, int)|
            0 <= a < b < post.len() && t.1 > 0 ==> !(#[trigger] clip_covers(post[a], t)
                && #[trigger] clip_covers(post[b], t)),
{
    let mid = pre.update(i, Clip { duration: new_duration, ..pre[i] });
    assert forall|k: int| 0 <= k < post.len() implies value_lt(
        (0, 1),
        #[trigger] post[k].duration@,
    ) by {
        if k <= i {
            assert(post[k] == mid[k]);
        } else {
            let _start = post[k].timeline_start@;
            assert(post[k].duration == mid[k].duration);
        }
        if k != i {
            assert(mid[k] == pre[k]);
        }
    }
    law_track_sorted_non_overlapping(post);
}

/// A head trim that leaves a positive length keeps a track of positive-length
/// clips sorted and free of overlaps.
pub proof fn law_trim_in_keeps_order(pre: Seq<Clip>, post: Seq<Clip>, i: int, amount: Time)
    requires
        positive_durations(pre),
        0 <= i < pre.len(),
        post.len() == pre.len(),
        post[i].duration@ == frac_sub(pre[i].duration@, amount@),
        value_lt((0, 1), frac_sub(pre[i].duration@, amount@)),
        moved_from(pre.update(i, post[i]), post, i + 1, |v: (int, int)| frac_sub(v, amount@)),
        gap_free(post),
        clips_valid(post),
    ensures
        positive_durations(post),
        forall|a: int, b: int|
            0 <= a < b < post.len() ==> value_lt(
                #[trigger] post[a].timeline_start@,
                #[trigger] post[b].timeline_start@,
            ),
        forall|a: int, b: int, t: (int, int)|
            0 <= a < b < post.len() && t.1 > 0 ==> !(#[trigger] clip_covers(post[a], t)
                && #[trigger] clip_covers(post[b], t)),
{
    let mid = pre.update(i, post[i]);
    assert forall|k: int| 0 <= k < post.len() implies value_lt(
        (0, 1),
        #[trigger] post[k].duration@,
    ) by {
        if k != i {
            if k < i {
                assert(post[k] == mid[k]);
            } else {
                let _start = post[k].timeline_start@;
            assert(post[k].duration == mid[k].duration);
            }
            assert(mid[k] == pre[k]);
        }
    }
    law_track_sorted_non_overlapping(post);
}

/// Every frame in `taken` sits at its position of `stream`: the decoder's
/// output, in stream order, is `stream`.
pub open spec fn follows(taken: Set<(u64, Frame)>, stream: Seq<Frame>) -> bool {
    forall|p: (u64, Frame)|
        #[trigger] taken.contains(p) ==> p.0 < stream.len() && p.1 == stream[p.0 as int]
}

/// Decoding the stream's next frame keeps the record following the stream.
pub proof fn law_take_follows(
    taken: Set<(u64, Frame)>,
    stream: Seq<Frame>,
    next: u64,
    f: Frame,
)
    requires
        follows(taken, stream),
        next < stream.len(),
        f == stream[next as int],
    ensures
        follows(taken.insert((next, f)), stream),
{
}

/// Random access is transparent: while the decoder's output follows a
/// stream (each decoded frame is the stream's frame at the position it was
/// decoded at), whatever `FrameFetch` hands back for index `k`, by a cache
/// hit, by decoding forward or after a rewind, is the stream's frame `k`.
/// (`request`, `take` and `settle` each ensure that what they hand back for
/// `k` is recorded in `taken()` at `k`.)
pub proof fn law_random_access_transparent(
    taken: Set<(u64, Frame)>,
    stream: Seq<Frame>,
    k: u64,
    f: Frame,
)
    requires
        follows(taken, stream),
        taken.contains((k, f)),
    ensures
        k < stream.len(),
        f == stream[k as int],
{
}

/// A timecode label reads back the fields it was made from: the label of
/// `((h * 60 + m) * 60 + s) * r + ff` frames at `r` whole frames per second,
/// with `m`, `s` under 60 and `ff` under `r`, is `HH:MM:SS:FF` with exactly
/// `h`, `m`, `s` and `ff` in its fields.
pub proof fn law_timecode_fields(h: nat, m: nat, s: nat, ff: nat, r: nat)
    requires
        m < 60,
        s < 60,
        ff < r,
    ensures
        smpte(((h * 60 + m) * 60 + s) * r + ff, r) == decimal2(h) + seq![':'] + decimal2(m)
            + seq![':'] + decimal2(s) + seq![':'] + decimal2(ff),
{
    let secs: int = ((h * 60 + m) * 60 + s) as int;
    let mins: int = (h * 60 + m) as int;
    let f: int = secs * r + ff;
    lemma_fundamental_div_mod_converse(f, r as int, secs, ff as int);
    lemma_fundamental_div_mod_converse(secs, 60, mins, s as int);
    lemma_fundamental_div_mod_converse(mins, 60, h as int, m as int);
    assert(secs == h * 3600 + (m * 60 + s)) by (nonlinear_arith)
        requires
            secs == (h * 60 + m) * 60 + s,
    ;
    lemma_fundamental_div_mod_converse(secs, 3600, h as int, (m * 60 + s) as int);
}

/// A whole frame rate is its own nominal rate: `n / d` frames per second with
/// `d` dividing `n` splits labels at exactly `n / d` frames.
pub proof fn law_nominal_rate_whole(q: nat, d: nat)
    requires
        q >= 1,
        d >= 1,
    ensures
        nominal_rate(q * d, d) == q,
{
    assert(2 * (q * d) + d == q * (2 * d) + d) by (nonlinear_arith);
    lemma_fundamental_div_mod_converse((2 * (q * d) + d) as int, (2 * d) as int, q as int, d as int);
}

/// The test pattern's pixels: byte `c` of the pixel at column `x`, row `y`
/// of frame `index` of a `w`×`h` pattern is white (255) within
/// `max(w / 80, 1)` columns of the sweep column `(4 * index) % w`, and
/// otherwise byte `c` of color bar `min(x / max(w / 8, 1), 7)` of the list gray,
/// yellow, cyan, green, magenta, red, blue, near-black.
pub proof fn law_pattern_pixels(w: nat, h: nat, index: nat, y: nat, x: nat, c: nat)
    requires
        x < w,
        y < h,
        c < 4,
    ensures
        ({
            let px = pattern_bytes(w, h, index)[(4 * (y * w + x) + c) as int];
            let sweep = (index * 4) % w;
            let half = if w / 80 >= 1 { w / 80 } else { 1 };
            let dist = if x >= sweep { x - sweep } else { sweep - x };
            let bar_w = if w / 8 >= 1 { w / 8 } else { 1 };
            let bar = if x / bar_w <= 7 { x / bar_w } else { 7 };
            let colors = seq![
                seq![192u8, 192u8, 192u8, 255u8],
                seq![255u8, 255u8, 0u8, 255u8],
                seq![0u8, 255u8, 255u8, 255u8],
                seq![0u8, 255u8, 0u8, 255u8],
                seq![255u8, 0u8, 255u8, 255u8],
                seq![255u8, 0u8, 0u8, 255u8],
                seq![0u8, 0u8, 255u8, 255u8],
                seq![16u8, 16u8, 16u8, 255u8],
            ];
            &&& dist <= half ==> px == 255u8
            &&& dist > half ==> px == colors[bar as int][c as int]
        }),
{
    let k: int = (4 * (y * w + x) + c) as int;
    let p: int = (y * w + x) as int;
    assert(0 <= p < w * h) by (nonlinear_arith)
        requires
            p == y * w + x,
            x < w,
            y < h,
    ;
    lemma_fundamental_div_mod_converse(k, 4, p, c as int);
    lemma_fundamental_div_mod_converse(p, w as int, y as int, x as int);
    assert(k < (w * h * 4) as int) by (nonlinear_arith)
        requires
            k == 4 * p + c,
            p < w * h,
            c < 4,
    ;
}

/// Packing keeps each row's bytes in place and in order: byte `i` of packed
/// row `y` is byte `i` of source row `y`, whose rows start `stride` bytes
/// apart; the packed image holds `row * height` bytes.
pub proof fn law_packed_rows_in_place(
    src: Seq<u8>,
    stride: int,
    row: int,
    height: int,
    y: int,
    i: int,
)
    requires
        0 <= y < height,
        0 <= i < row,
    ensures
        packed_rows(src, stride, row, height).len() == row * height,
        packed_rows(src, stride, row, height)[y * row + i] == src[y * stride + i],
{
    assert(0 <= y * row + i < row * height) by (nonlinear_arith)
        requires
            0 <= y < height,
            0 <= i < row,
    ;
    lemma_fundamental_div_mod_converse(y * row + i, row, y, i);
}

/// With no row padding (`stride == row`) packing copies the source's first
/// `row * height` bytes unchanged.
pub proof fn law_packed_rows_unpadded(src: Seq<u8>, row: int, height: int)
    requires
        row > 0,
        height >= 0,
        row * height <= src.len(),
    ensures
        packed_rows(src, row, row, height) == src.subrange(0, row * height),
{
    assert(row * height >= 0) by (nonlinear_arith)
        requires
            row > 0,
            height >= 0,
    ;
    let p = packed_rows(src, row, row, height);
    assert forall|k: int| 0 <= k < row * height implies p[k] == src[k] by {
        vstd::arithmetic::div_mod::lemma_fundamental_div_mod(k, row);
        assert((k / row) * row + k % row == k) by (nonlinear_arith)
            requires
                k == row * (k / row) + k % row,
        ;
    }
    assert(p =~= src.subrange(0, row * height));
}

/// The latest end among the first `n` tracks is the end of one of them.
proof fn lemma_latest_end_attained(tracks: Seq<Track>, n: int) -> (k: int)
    requires
        0 < n <= tracks.len(),
    ensures
        0 <= k < n,
        latest_end(tracks, n) == row_end(tracks[k].spec_clips()),
    decreases n,
{
    if n == 1 {
        0
    } else {
        let j = lemma_latest_end_attained(tracks, n - 1);
        let m = latest_end(tracks, n - 1);
        let e = row_end(tracks[n - 1].spec_clips());
        if value_lt(e, m) {
            j
        } else {
            n - 1
        }
    }
}

/// A sequence's duration is the latest of its tracks' ends: zero with no
/// tracks, otherwise the end of some track, and at or after every track's end.
pub proof fn law_duration_is_latest_track_end(tracks: Seq<Track>)
    requires
        forall|j: int| 0 <= j < tracks.len() ==> (#[trigger] row_end(tracks[j].spec_clips())).1 > 0,
    ensures
        tracks.len() == 0 ==> latest_end(tracks, 0) == (0int, 1int),
        forall|k: int|
            0 <= k < tracks.len() ==> !value_lt(
                latest_end(tracks, tracks.len() as int),
                #[trigger] row_end(tracks[k].spec_clips()),
            ),
        tracks.len() > 0 ==> exists|k: int|
            0 <= k < tracks.len() && latest_end(tracks, tracks.len() as int) == #[trigger] row_end(
                tracks[k].spec_clips(),
            ),
{
    let n = tracks.len() as int;
    assert forall|k: int| 0 <= k < n implies !value_lt(
        latest_end(tracks, n),
        #[trigger] row_end(tracks[k].spec_clips()),
    ) by {
        lemma_latest_end_bounds(tracks, n, k);
    }
    if n > 0 {
        let k = lemma_latest_end_attained(tracks, n);
        assert(latest_end(tracks, n) == row_end(tracks[k].spec_clips()));
    }
}

/// The pool reuses a buffer exactly when one has the capacity for the
/// request: when none does, buffers and capacities stay as they were; when
/// one does, one buffer is taken out, and the one taken had that capacity.
pub proof fn law_pool_reuses_only_fitting(
    pre: Seq<Seq<u8>>,
    pre_caps: Seq<nat>,
    post: Seq<Seq<u8>>,
    post_caps: Seq<nat>,
    needed: int,
)
    requires
        pre.len() == pre_caps.len(),
        capacity_choice(pre, pre_caps, post, post_caps, needed),
    ensures
        (forall|j: int| 0 <= j < pre_caps.len() ==> #[trigger] pre_caps[j] < needed) ==> post == pre
            && post_caps == pre_caps,
        (exists|j: int| 0 <= j < pre_caps.len() && #[trigger] pre_caps[j] >= needed) ==> post.len()
            + 1 == pre.len(),
        post.len() != pre.len() ==> exists|j: int|
            0 <= j < pre_caps.len() && #[trigger] pre_caps[j] >= needed && post == pre.update(
                j,
                pre.last(),
            ).drop_last(),
{
    if exists|pos: int|
        #![trigger pre_caps[pos]]
        0 <= pos < pre.len() && pre_caps[pos] >= needed && (forall|j: int|
            0 <= j < pos ==> #[trigger] pre_caps[j] < needed) && post == pre.update(
            pos,
            pre.last(),
        ).drop_last() && post_caps == pre_caps.update(pos, pre_caps.last()).drop_last() {
        let pos = choose|pos: int|
            #![trigger pre_caps[pos]]
            0 <= pos < pre.len() && pre_caps[pos] >= needed && (forall|j: int|
                0 <= j < pos ==> #[trigger] pre_caps[j] < needed) && post == pre.update(
                pos,
                pre.last(),
            ).drop_last() && post_caps == pre_caps.update(pos, pre_caps.last()).drop_last();
        if forall|j: int| 0 <= j < pre_caps.len() ==> #[trigger] pre_caps[j] < needed {
            assert(pre_caps[pos] < needed);
        }
    } else {
        if exists|j: int| 0 <= j < pre_caps.len() && #[trigger] pre_caps[j] >= needed {
            let j = choose|j: int| 0 <= j < pre_caps.len() && #[trigger] pre_caps[j] >= needed;
            assert(pre_caps[j] < needed);
        }
    }
}

/// The nominal rate rounds the frame rate `num / den` to the nearest whole
/// number, halves rounding up, and is never below one: for a rate of at
/// least one half, `r - 1/2 <= num / den < r + 1/2`.
pub proof fn law_nominal_rate_nearest(num: nat, den: nat)
    requires
        den >= 1,
    ensures
        nominal_rate(num, den) >= 1,
        2 * num >= den ==> (2 * nominal_rate(num, den) - 1) * den <= 2 * num,
        2 * num >= den ==> 2 * num < (2 * nominal_rate(num, den) + 1) * den,
{
    let q = (2 * num + den) / (2 * den);
    let rem = (2 * num + den) % (2 * den);
    vstd::arithmetic::div_mod::lemma_fundamental_div_mod((2 * num + den) as int, (2 * den) as int);
    assert((2 * num + den) == (2 * den) * q + rem);
    if 2 * num >= den {
        assert(q >= 1) by (nonlinear_arith)
            requires
                2 * num + den == (2 * den) * q + rem,
                0 <= rem < 2 * den,
                2 * num >= den,
                q >= 0,
        ;
        assert((2 * q - 1) * den <= 2 * num && 2 * num < (2 * q + 1) * den) by (nonlinear_arith)
            requires
                2 * num + den == (2 * den) * q + rem,
                0 <= rem < 2 * den,
        ;
    }
}

} // verus!
