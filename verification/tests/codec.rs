use v1000::{
    backend_name, pack_rows, rate_or_default, DecodeCursor, Fetch, Frame, FrameFetch, FrameSource,
    Lookup, PacketRead, PacketStep, Pulled, SourceError, Taken, TestPatternSource,
};

#[test]
fn backend_is_named() {
    assert!(backend_name().contains("ffmpeg"));
}

#[test]
fn pattern_is_deterministic() {
    let mut src = TestPatternSource::new(64, 36, 30, 1, 100);
    let a = src.frame(10).unwrap();
    let b = src.frame(10).unwrap();
    assert_eq!(a.pixels(), b.pixels());
}

#[test]
fn pattern_animates_between_frames() {
    let mut src = TestPatternSource::new(64, 36, 30, 1, 100);
    let a = src.frame(0).unwrap();
    let b = src.frame(5).unwrap();
    assert_ne!(a.pixels(), b.pixels(), "sweep should move the image");
}

#[test]
fn out_of_range_is_rejected() {
    let mut src = TestPatternSource::new(64, 36, 30, 1, 10);
    assert!(matches!(src.frame(10), Err(SourceError::OutOfRange { .. })));
}

#[test]
fn pattern_pixels_follow_bars_and_sweep() {
    let mut src = TestPatternSource::new(80, 2, 30, 1, 10);
    let f = src.frame(2).unwrap();
    let px = f.pixels();
    assert_eq!(px.len(), 80 * 2 * 4);
    // Sweep at x = 8, one pixel either side is white.
    assert_eq!(&px[7 * 4..8 * 4], &[255, 255, 255, 255]);
    assert_eq!(&px[9 * 4..10 * 4], &[255, 255, 255, 255]);
    // x = 0 is the gray bar, x = 75 the near-black one (bars are 10 px wide).
    assert_eq!(&px[0..4], &[192, 192, 192, 255]);
    assert_eq!(&px[75 * 4..76 * 4], &[16, 16, 16, 255]);
    // Second row repeats the first.
    assert_eq!(&px[80 * 4..81 * 4], &px[0..4]);
    assert_eq!(src.fps(), (30, 1));
    assert_eq!(src.frame_count(), 10);
    assert_eq!(src.dimensions(), (80, 2));
    let d = TestPatternSource::default_preview();
    assert_eq!((d.dimensions(), d.fps(), d.frame_count()), ((640, 360), (30, 1), 300));
}

#[test]
fn source_errors_render_messages() {
    let e = SourceError::OutOfRange { index: 12, count: 10 };
    assert_eq!(e.to_string(), "frame index 12 out of range (0..10)");
    assert_eq!(SourceError::Media("no video stream".into()).to_string(), "media error: no video stream");
}

#[test]
fn packing_drops_row_padding() {
    // 1-pixel-wide rows with a 6-byte stride.
    let src = [1, 2, 3, 4, 0, 0, 5, 6, 7, 8];
    assert_eq!(pack_rows(&src, 6, 1, 2), vec![1, 2, 3, 4, 5, 6, 7, 8]);
    assert_eq!(pack_rows(&src, 6, 0, 2), Vec::<u8>::new());
}

#[test]
fn invalid_stream_rate_falls_back_to_thirty() {
    assert_eq!(rate_or_default(24000, 1001), (24000, 1001));
    assert_eq!(rate_or_default(0, 1), (30, 1));
    assert_eq!(rate_or_default(25, -1), (30, 1));
}

#[test]
fn decode_cursor_rewinds_for_earlier_frames() {
    let mut c = DecodeCursor::new();
    assert_eq!(c.begin(2), Fetch::Forward);
    assert!(c.wants(2));
    assert_eq!(c.pulled(2, true), Pulled::Keep { at: 0 });
    assert_eq!(c.pulled(2, true), Pulled::Keep { at: 1 });
    assert_eq!(c.pulled(2, true), Pulled::Deliver { at: 2 });
    assert_eq!(c.cursor(), 3);
    assert!(!c.wants(2));
    assert_eq!(c.begin(1), Fetch::Rewind);
    assert_eq!(c.cursor(), 3);
    c.restart();
    assert_eq!(c.cursor(), 0);
    assert_eq!(c.pulled(1, false), Pulled::Exhausted { index: 1, count: 0 });
}

#[test]
fn packet_reads_drive_the_queue() {
    let mut c = DecodeCursor::new();
    assert!(c.needs_packets(true));
    assert!(!c.needs_packets(false));
    assert_eq!(c.on_packet(PacketRead::Packet { ours: true }), PacketStep::SendAndDrain);
    assert_eq!(c.on_packet(PacketRead::Packet { ours: false }), PacketStep::Skip);
    assert_eq!(c.on_packet(PacketRead::Failed), PacketStep::Fail);
    assert_eq!(c.on_packet(PacketRead::EndOfFile), PacketStep::FlushAndDrain);
    assert!(!c.needs_packets(true));
}

fn solid(value: u8) -> Frame {
    Frame::from_pixels(1, 1, vec![value; 4])
}

#[test]
fn fetch_decodes_forward_caches_and_rewinds() {
    let mut fetch = FrameFetch::new(8);
    assert!(matches!(fetch.request(2), Lookup::Decode(Fetch::Forward)));
    assert!(matches!(fetch.take(2, Some(solid(10))), Taken::Kept));
    assert!(matches!(fetch.take(2, Some(solid(11))), Taken::Kept));
    match fetch.take(2, Some(solid(12))) {
        Taken::Delivered(f) => assert_eq!(f.pixels(), &[12u8; 4][..]),
        _ => panic!("frame 2 should be delivered"),
    }
    assert_eq!(fetch.cursor(), 3);
    assert!(!fetch.wants(2));
    // Earlier frames were cached on the way.
    match fetch.request(1) {
        Lookup::Cached(f) => assert_eq!(f.pixels(), &[11u8; 4][..]),
        _ => panic!("frame 1 should be cached"),
    }
    assert_eq!(fetch.cursor(), 3);
    // A later frame decodes forward from the current position.
    assert!(matches!(fetch.request(5), Lookup::Decode(Fetch::Forward)));
    match fetch.take(5, None) {
        Taken::Exhausted(SourceError::OutOfRange { index, count }) => {
            assert_eq!((index, count), (5, 3));
        }
        _ => panic!("the stream ended"),
    }
}

#[test]
fn fetch_rewinds_for_an_evicted_earlier_frame() {
    let mut fetch = FrameFetch::new(1);
    assert!(matches!(fetch.request(1), Lookup::Decode(Fetch::Forward)));
    assert!(matches!(fetch.take(1, Some(solid(0))), Taken::Kept));
    assert!(matches!(fetch.take(1, Some(solid(1))), Taken::Delivered(_)));
    // Frame 0 was evicted by frame 1 in a one-frame cache.
    assert!(matches!(fetch.request(0), Lookup::Decode(Fetch::Rewind)));
    // The position moves only once the rewind has been done.
    assert_eq!(fetch.cursor(), 2);
    fetch.rewound();
    assert_eq!(fetch.cursor(), 0);
    assert!(fetch.needs_packets(true));
    assert_eq!(fetch.on_packet(PacketRead::EndOfFile), PacketStep::FlushAndDrain);
    assert!(!fetch.needs_packets(true));
    match fetch.settle(0) {
        Err(SourceError::OutOfRange { index, count }) => assert_eq!((index, count), (0, 0)),
        _ => panic!("frame 0 is not cached"),
    }
    match fetch.settle(1) {
        Ok(f) => assert_eq!(f.pixels(), &[1u8; 4][..]),
        Err(_) => panic!("frame 1 is cached"),
    }
}

fn duration_seconds(source: &dyn FrameSource) -> f64 {
    let (num, den) = source.fps();
    source.frame_count() as f64 * den as f64 / num as f64
}

#[test]
fn duration_matches_count_and_rate() {
    let src = TestPatternSource::new(64, 36, 30, 1, 90);
    assert!((duration_seconds(&src) - 3.0).abs() < 1e-9);
}
