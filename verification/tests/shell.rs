use v1000::{builtin_count, default_target, info, playhead_default, V1000App};

#[test]
fn playhead_starts_at_zero() {
    assert_eq!(playhead_default().frames(), 0);
}

#[test]
fn no_builtins_yet() {
    assert_eq!(builtin_count(), 0);
}

#[test]
fn has_default_target() {
    assert!(default_target().contains("mp4"));
}

#[test]
fn info_mentions_backend() {
    assert!(info().contains("ffmpeg"));
}

#[test]
fn app_state_is_empty() {
    assert_eq!(V1000App::default(), V1000App);
}
