# V1000 editing core

The exact, verified core of the V1000 non-linear video editor, written in
Verus.

- `src/` is the library. Time is exact rational seconds (`time.rs`, with the
  integer facts behind it in `arith.rs` and the order in `order.rs`); clips,
  tracks and sequences (`clip.rs`, `track.rs`, `sequence.rs`) resolve a
  timeline instant to the source frame of the topmost clip under it; frames,
  the buffer pool and the LRU frame cache live in `frame.rs`, `pool.rs` and
  `cache.rs`; `source.rs` holds the frame-source trait and the animated test
  pattern; `decode.rs` holds the decisions of the sequential-with-rewind file
  decoder; `laws.rs` states the properties that span several operations.
- `tests/` runs the library on concrete values.
- `app/` is the editor binary: the `eframe` window, the floating-point playback
  transport, and the FFmpeg-backed file decoder, which performs the I/O that
  the library's decoder bookkeeping asks for.
