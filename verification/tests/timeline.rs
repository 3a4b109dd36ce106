use v1000::{
    Clip, FrameProducer, FrameSource, Rational, Sequence, Span, TestPatternSource, Time, TimeCode,
    Track,
};

fn fps30() -> Rational {
    Rational::from_int(30)
}

fn t(frames: i64) -> Time {
    Time::from_frame(frames, fps30())
}

/// Track with three 10-frame clips back to back: [0,10) [10,20) [20,30).
fn three_clips() -> Track {
    let mut track = Track::default();
    track.append(0, Time::zero(), t(10));
    track.append(0, Time::zero(), t(10));
    track.append(0, Time::zero(), t(10));
    track
}

#[test]
fn span_is_half_open() {
    let span = Span { start: TimeCode::new(0, 24, 1), end: TimeCode::new(10, 24, 1) };
    assert!(span.contains(TimeCode::new(0, 24, 1)));
    assert!(span.contains(TimeCode::new(9, 24, 1)));
    assert!(!span.contains(TimeCode::new(10, 24, 1)));
}

#[test]
fn append_places_clips_back_to_back() {
    let track = three_clips();
    assert_eq!(track.clips()[1].timeline_start, t(10));
    assert_eq!(track.end(), t(30));
}

#[test]
fn clip_lookup_is_half_open() {
    let track = three_clips();
    assert_eq!(track.clip_index_at(t(0)), Some(0));
    assert_eq!(track.clip_index_at(t(10)), Some(1)); // boundary belongs to next
    assert_eq!(track.clip_index_at(t(29)), Some(2));
    assert_eq!(track.clip_index_at(t(30)), None); // past the end
}

#[test]
fn ripple_delete_closes_the_gap() {
    let mut track = three_clips();
    let removed = track.ripple_delete(1);
    assert_eq!(removed.duration, t(10));
    assert_eq!(track.clips().len(), 2);
    // The former third clip slides left into the gap: [0,10) [10,20).
    assert_eq!(track.clips()[1].timeline_start, t(10));
    assert_eq!(track.end(), t(20));
}

#[test]
fn trim_out_ripples_following_clips() {
    let mut track = three_clips();
    track.trim_out(0, t(4)); // first clip 10 -> 4 frames
    assert_eq!(track.clips()[0].duration, t(4));
    assert_eq!(track.clips()[1].timeline_start, t(4));
    assert_eq!(track.end(), t(24));
}

#[test]
fn trim_in_advances_source_and_ripples() {
    let mut track = three_clips();
    track.trim_in(0, t(3)); // drop first 3 frames of head
    assert_eq!(track.clips()[0].source_in, t(3));
    assert_eq!(track.clips()[0].duration, t(7));
    assert_eq!(track.clips()[1].timeline_start, t(7));
}

#[test]
fn trim_in_with_negative_amount_extends_the_head() {
    let mut track = Track::default();
    track.append(0, t(5), t(10));
    track.append(0, Time::zero(), t(10));
    track.trim_in(0, t(-2));
    assert_eq!(track.clips()[0].source_in, t(3));
    assert_eq!(track.clips()[0].duration, t(12));
    assert_eq!(track.clips()[1].timeline_start, t(12));
    assert_eq!(track.end(), t(22));
}

#[test]
fn clip_maps_timeline_to_source_time() {
    let clip = Clip::new(2, t(10), t(50), t(10));
    assert_eq!(clip.end(), t(20));
    assert!(clip.covers(t(10)));
    assert!(!clip.covers(t(20)));
    assert_eq!(clip.source_time_at(t(15)), t(55));
    let track = three_clips();
    assert_eq!(track.clip_at(t(25)).map(|c| c.timeline_start), Some(t(20)));
    assert!(track.clip_at(t(-1)).is_none());
    assert!(Track::default().is_empty());
    assert_eq!(Track::default().end(), Time::zero());
    assert_eq!(track.clone().clips(), track.clips());
}

#[test]
fn single_source_sequence_spans_the_media() {
    let src = TestPatternSource::new(64, 36, 30, 1, 90); // 3 seconds
    let mut seq = Sequence::single(Box::new(src));
    assert_eq!(seq.size(), (64, 36));
    assert_eq!(seq.duration(), Time::from_frame(90, Rational::new(30, 1)));
    assert!(seq.frame_at(Time::from_frame(0, Rational::new(30, 1))).unwrap().is_some());
    assert!(seq.frame_at(Time::from_frame(45, Rational::new(30, 1))).unwrap().is_some());
}

#[test]
fn gap_after_end_yields_no_frame() {
    let src = TestPatternSource::new(64, 36, 30, 1, 30); // 1 second
    let mut seq = Sequence::single(Box::new(src));
    let past_end = Time::from_frame(60, Rational::new(30, 1));
    assert!(seq.frame_at(past_end).unwrap().is_none());
}

#[test]
fn second_clip_reads_from_its_source_in_point() {
    // Two clips from the same 90-frame source; the second starts at the
    // playhead t=10f but reads from source in-point 50f.
    let src = TestPatternSource::new(64, 36, 30, 1, 90);
    let mut seq = Sequence::new("s", Rational::new(30, 1), 64, 36);
    let id = seq.add_media(Box::new(src));
    let fps = Rational::new(30, 1);
    seq.track_mut(0).append(id, Time::zero(), Time::from_frame(10, fps));
    seq.track_mut(0).append(id, Time::from_frame(50, fps), Time::from_frame(10, fps));

    // Reference: directly decode source frame 55.
    let mut probe = TestPatternSource::new(64, 36, 30, 1, 90);
    let expected = probe.frame(55).unwrap();

    // Timeline t=15f lands in clip 2, 5f past its start, source 50+5 = 55.
    let got = seq.frame_at(Time::from_frame(15, fps)).unwrap().unwrap();
    assert_eq!(got.pixels(), expected.pixels());
}

#[test]
fn topmost_track_wins_and_rates_convert() {
    let mut seq = Sequence::new("layers", Rational::new(30, 1), 64, 36);
    let low = seq.add_media(Box::new(TestPatternSource::new(64, 36, 30, 1, 300)));
    let high = seq.add_media(Box::new(TestPatternSource::new(64, 36, 24, 1, 48)));
    seq.track_mut(0).append(low, Time::zero(), t(60));
    let top = seq.add_track();
    assert_eq!(top, 1);
    assert_eq!(seq.tracks().len(), 2);
    seq.track_mut(top).append(high, Time::zero(), t(30));
    // 0.5 s on the timeline shows frame 12 of the 24 fps source.
    assert_eq!(seq.source_frame_at(t(15)), Some((high, 12)));
    // Past the top clip, the bottom track shows through.
    assert_eq!(seq.source_frame_at(t(45)), Some((low, 45)));
    assert_eq!(seq.source_frame_at(t(60)), None);
    assert_eq!(seq.duration(), t(60));
    assert_eq!(seq.timebase(), Rational::new(30, 1));
    assert_eq!(seq.name, "layers");
}

#[test]
fn track_end_follows_ripple_edits() {
    let mut track = three_clips();
    track.trim_in(1, t(3));
    assert_eq!(track.end(), t(27));
    track.trim_out(0, t(12));
    assert_eq!(track.end(), t(29));
    track.ripple_delete(2);
    assert_eq!(track.end(), t(19));
    track.ripple_delete(0);
    track.ripple_delete(0);
    assert_eq!(track.end(), Time::zero());
}

#[test]
fn the_exact_end_of_a_sequence_is_a_gap() {
    let mut seq = Sequence::new("ends", fps30(), 64, 36);
    let id = seq.add_media(Box::new(TestPatternSource::new(64, 36, 30, 1, 300)));
    seq.track_mut(0).append(id, Time::zero(), t(20));
    let top = seq.add_track();
    seq.track_mut(top).append(id, t(100), t(35));
    let end = seq.duration();
    assert_eq!(end, t(35));
    assert!(seq.frame_at(end).unwrap().is_none());
    assert!(seq.frame_at(t(34)).unwrap().is_some());
}
