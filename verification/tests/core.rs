use std::sync::Arc;

use v1000::{Frame, FrameCache, FramePool, Rational, Time, TimeCode};

/// Microsecond approximation of `seconds`, as wall-clock input is brought in.
fn time_from_seconds_f64(seconds: f64) -> Time {
    Time::from_seconds(Rational::new((seconds * 1_000_000.0).round() as i64, 1_000_000))
}

fn seconds_f64(t: Time) -> f64 {
    let s = t.seconds();
    s.numerator() as f64 / s.denominator() as f64
}

#[test]
fn rational_reduces_and_signs() {
    let r = Rational::new(2, -4);
    assert_eq!(r.numerator(), -1);
    assert_eq!(r.denominator(), 2);
}

#[test]
fn rational_orders_across_denominators() {
    assert!(Rational::new(1, 3) < Rational::new(1, 2));
    assert_eq!(Rational::new(2, 4), Rational::new(1, 2));
}

#[test]
fn same_instant_compares_equal_across_rates() {
    // 24 frames @ 24fps and 30 frames @ 30fps are both exactly 1 second.
    let a = Time::from_frame(24, Rational::new(24, 1));
    let b = Time::from_frame(30, Rational::new(30, 1));
    assert_eq!(a, b);
    assert_eq!(seconds_f64(a), 1.0);
}

#[test]
fn ntsc_rate_is_exact() {
    let fps = Rational::new(24000, 1001);
    let t = Time::from_frame(48, fps);
    assert_eq!(t.to_frame(fps), 48);
}

#[test]
fn to_frame_rounds_to_nearest() {
    let fps = Rational::new(30, 1);
    // 1.51s -> 45.3 -> 45
    assert_eq!(time_from_seconds_f64(1.51).to_frame(fps), 45);
    // exactly 0.5 frame ties round up: 0.5/30 s -> frame 0.5 -> 1
    let half = Time::from_seconds(Rational::new(1, 60));
    assert_eq!(half.to_frame(fps), 1);
}

#[test]
fn time_arithmetic_is_exact() {
    let a = Time::from_frame(10, Rational::new(30, 1));
    let b = Time::from_frame(20, Rational::new(30, 1));
    assert_eq!(a + b, Time::from_frame(30, Rational::new(30, 1)));
    assert_eq!(b - a, a);
    assert!(Time::zero() < a);
}

#[test]
fn rational_operators_are_exact() {
    let third = Rational::new(1, 3);
    let sixth = Rational::new(1, 6);
    assert_eq!(third + sixth, Rational::new(1, 2));
    assert_eq!(third - sixth, sixth);
    assert_eq!(third * Rational::new(3, 4), Rational::new(1, 4));
    assert_eq!(third / Rational::new(2, 3), Rational::new(1, 2));
    assert_eq!(-third, Rational::new(-1, 3));
    assert_eq!(Rational::from_int(-7).numerator(), -7);
    assert_eq!(Rational::from_int(-7).denominator(), 1);
    assert_eq!(Rational::new(0, -5), Rational::from_int(0));
}

#[test]
fn to_frame_floors_negative_times_toward_nearest() {
    let fps = Rational::new(30, 1);
    // -1/60 s is frame -0.5, which rounds up to 0.
    assert_eq!(Time::from_seconds(Rational::new(-1, 60)).to_frame(fps), 0);
    // -1/40 s is frame -0.75, which rounds to -1.
    assert_eq!(Time::from_seconds(Rational::new(-1, 40)).to_frame(fps), -1);
}

#[test]
fn ordering_is_by_instant() {
    let a = Time::from_frame(1, Rational::new(24, 1));
    let b = Time::from_frame(1, Rational::new(30, 1));
    assert!(b < a);
    assert!(b <= a);
    assert!(a > b);
    assert_eq!(a.partial_cmp(&a), Some(std::cmp::Ordering::Equal));
}

#[test]
fn frame_round_trip_at_many_rates() {
    for fps in [Rational::new(24, 1), Rational::new(30000, 1001), Rational::new(25, 2)] {
        for n in [-5i64, 0, 1, 7, 1000] {
            assert_eq!(Time::from_frame(n, fps).to_frame(fps), n);
        }
    }
}

#[test]
fn timecode_formats_smpte() {
    // 1 second + 5 frames at 30 fps.
    let t = Time::from_frame(35, Rational::new(30, 1));
    let tc = TimeCode::from_time(t, Rational::new(30, 1));
    assert_eq!(tc.to_string(), "00:00:01:05");
    assert_eq!(tc.frames(), 35);
}

#[test]
fn timecode_rolls_over_minutes_and_hours() {
    let fps = Rational::new(25, 1);
    let one_hour = Time::from_frame(25 * 3600, fps);
    assert_eq!(TimeCode::from_time(one_hour, fps).to_string(), "01:00:00:00");
}

#[test]
fn timecode_clamps_negative_and_uses_nominal_rate() {
    let ntsc = Rational::new(30000, 1001);
    let before_zero = Time::from_seconds(Rational::new(-3, 1));
    assert_eq!(TimeCode::from_time(before_zero, ntsc).frames(), 0);
    // 29.97 fps labels split frames into 30s.
    assert_eq!(TimeCode::new(61, 30000, 1001).to_string(), "00:00:02:01");
    // Hours grow past two digits.
    assert_eq!(TimeCode::new(25 * 3600 * 123, 25, 1).to_string(), "123:00:00:00");
}

#[test]
fn new_is_zeroed_and_correctly_sized() {
    let f = Frame::new(4, 2);
    assert_eq!(f.pixels().len(), 4 * 2 * 4);
    assert!(f.pixels().iter().all(|&b| b == 0));
}

#[test]
fn frame_accessors_report_layout() {
    let mut f = Frame::from_pixels(2, 1, vec![1, 2, 3, 4, 5, 6, 7, 8]);
    assert_eq!(f.width(), 2);
    assert_eq!(f.height(), 1);
    assert_eq!(f.size(), [2, 1]);
    assert_eq!(Frame::byte_len(3, 5), 60);
    f.pixels_mut()[0] = 9;
    assert_eq!(f.into_pixels(), vec![9, 2, 3, 4, 5, 6, 7, 8]);
}

#[test]
fn release_then_acquire_reuses_buffer() {
    let mut pool = FramePool::with_capacity(4);
    let frame = pool.acquire(16, 16);
    let ptr = frame.pixels().as_ptr();
    pool.release(frame);
    assert_eq!(pool.available(), 1);

    let reused = pool.acquire(16, 16);
    assert_eq!(reused.pixels().as_ptr(), ptr, "should reuse the same allocation");
    assert_eq!(pool.available(), 0);
}

#[test]
fn pool_is_bounded() {
    let mut pool = FramePool::with_capacity(1);
    pool.release(Frame::new(8, 8));
    pool.release(Frame::new(8, 8));
    assert_eq!(pool.available(), 1, "excess buffers are dropped");
}

#[test]
fn larger_request_does_not_grab_a_too_small_buffer() {
    let mut pool = FramePool::with_capacity(4);
    pool.release(Frame::new(8, 8)); // small buffer pooled
    // Requesting a larger frame must not reuse (and realloc) the small one.
    let _large = pool.acquire(64, 64);
    assert_eq!(pool.available(), 1, "small buffer stays for a small request");
    // A small request reuses it.
    let _small = pool.acquire(8, 8);
    assert_eq!(pool.available(), 0);
}

#[test]
fn reused_buffer_is_zeroed() {
    let mut pool = FramePool::default();
    pool.release(Frame::new(2, 2));
    assert_eq!(pool.available(), 0, "a default pool keeps nothing");
    let mut pool = FramePool::with_capacity(2);
    pool.release(Frame::from_pixels(2, 2, vec![7; 16]));
    let f = pool.acquire(1, 2);
    assert_eq!(f.pixels(), &[0u8; 8][..]);
    assert_eq!((f.width(), f.height()), (1, 2));
}

#[test]
fn evicts_least_recently_used() {
    let mut cache = FrameCache::new(2);
    cache.insert(0, Frame::new(2, 2));
    cache.insert(1, Frame::new(2, 2));
    // Touch 0 so 1 becomes the LRU entry.
    assert!(cache.get(0).is_some());
    cache.insert(2, Frame::new(2, 2));

    assert!(cache.contains(0));
    assert!(!cache.contains(1), "frame 1 should have been evicted");
    assert!(cache.contains(2));
}

#[test]
fn insert_returns_shared_handle() {
    let mut cache = FrameCache::new(1);
    let handle = cache.insert(7, Frame::new(2, 2));
    assert_eq!(Arc::strong_count(&handle), 2, "cache + returned handle");
}

#[test]
fn cache_reads_back_what_was_written() {
    let mut cache = FrameCache::new(3);
    assert!(cache.is_empty());
    cache.insert(4, Frame::from_pixels(1, 1, vec![1, 2, 3, 4]));
    cache.insert(4, Frame::from_pixels(1, 1, vec![5, 6, 7, 8]));
    assert_eq!(cache.len(), 1);
    assert_eq!(cache.get(4).unwrap().pixels(), &[5, 6, 7, 8]);
    assert!(cache.get(5).is_none());
    assert!(!cache.is_empty());
}
