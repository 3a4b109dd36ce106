//! Decisions of the sequential-with-rewind file decoder.
//!
//! The decoder reads packets, feeds them to the codec and pulls frames in
//! stream order; a request for an earlier frame that is not cached rewinds to
//! the start and decodes forward again. The I/O happens in the decoder; the
//! choices it makes at each step are made here, from its state and the event
//! it observed.

use vstd::prelude::*;
use vstd::arithmetic::div_mod::lemma_fundamental_div_mod_converse;
use std::sync::Arc;
use crate::cache::{after_get, after_put, has_key, key_index, FrameCache};
use crate::frame::Frame;
use crate::source::SourceError;

verus! {

/// Identifies the decode back end.
pub fn backend_name() -> (s: &'static str)
    ensures
        s@ == "ffmpeg-next (pending M1)"@,
{
    "ffmpeg-next (pending M1)"
}

/// The stream's average frame rate, or 30 fps when it is unknown or invalid.
pub fn rate_or_default(num: i32, den: i32) -> (r: (u32, u32))
    ensures
        num <= 0 || den <= 0 ==> r == (30u32, 1u32),
        num > 0 && den > 0 ==> r == (num as u32, den as u32),
{
    if num <= 0 || den <= 0 {
        (30, 1)
    } else {
        (num as u32, den as u32)
    }
}

/// Rows of `row` bytes taken every `stride` bytes from `src`, packed together.
pub open spec fn packed_rows(src: Seq<u8>, stride: int, row: int, height: int) -> Seq<u8> {
    Seq::new(
        (row * height) as nat,
        |k: int| src[(k / row) * stride + k % row],
    )
}

/// Byte `k` of a packed image lies in row `k / row`, column `k % row`.
proof fn lemma_row_col(row: int, y: int, i: int)
    requires
        row > 0,
        0 <= i < row,
        y >= 0,
    ensures
        (y * row + i) / row == y,
        (y * row + i) % row == i,
{
    lemma_fundamental_div_mod_converse(y * row + i, row, y, i);
}

/// Copies an RGBA image whose rows are `stride` bytes apart into a tightly
/// packed buffer of `width * 4`-byte rows, dropping any row padding.
pub fn pack_rows(src: &[u8], stride: usize, width: u32, height: u32) -> (out: Vec<u8>)
    requires
        width as int * 4 <= usize::MAX,
        width as int * height as int * 4 <= usize::MAX,
        height > 0 ==> (height - 1) * stride + width * 4 <= src@.len(),
    ensures
        out@ == packed_rows(src@, stride as int, width as int * 4, height as int),
{
    let row = width as usize * 4;
    let h = height as usize;
    let n = src.len();
    let mut out: Vec<u8> = Vec::new();
    if row == 0 {
        assert(width as int * 4 * height as int == 0);
        assert(out@ =~= packed_rows(src@, stride as int, width as int * 4, height as int));
        return out;
    }
    proof {
        assert(row * h <= usize::MAX) by (nonlinear_arith)
            requires
                row == width * 4,
                h == height,
                width as int * height as int * 4 <= usize::MAX,
        ;
    }
    let mut y: usize = 0;
    while y < h
        invariant
            row == width * 4,
            row > 0,
            h == height,
            row * h <= usize::MAX,
            height > 0 ==> (height - 1) * stride + row <= src@.len(),
            n == src@.len(),
            y <= h,
            out@.len() == y * row,
            forall|k: int|
                0 <= k < out@.len() ==> out@[k] == src@[(k / (row as int)) * stride + k % (
                row as int)],
        decreases h - y,
    {
        proof {
            assert(y * stride + row <= (h - 1) * stride + row) by (nonlinear_arith)
                requires
                    y < h,
            ;
            assert(y * stride <= usize::MAX) by (nonlinear_arith)
                requires
                    y * stride + row <= (h - 1) * stride + row,
                    (h - 1) * stride + row <= n,
                    n <= usize::MAX,
            ;
            assert((y + 1) * row <= row * h) by (nonlinear_arith)
                requires
                    y < h,
            ;
        }
        let base = y * stride;
        let mut i: usize = 0;
        while i < row
            invariant
                row == width * 4,
                row > 0,
                h == height,
                row * h <= usize::MAX,
                y < h,
                base == y * stride,
                base + row <= src@.len(),
                n == src@.len(),
                (y + 1) * row <= row * h,
                i <= row,
                out@.len() == y * row + i,
                forall|k: int|
                    0 <= k < out@.len() ==> out@[k] == src@[(k / (row as int)) * stride + k % (
                    row as int)],
            decreases row - i,
        {
            let ghost before = out@;
            out.push(src[base + i]);
            proof {
                assert forall|k: int| 0 <= k < out@.len() implies out@[k] == src@[(k / (
                row as int)) * stride + k % (row as int)] by {
                    if k < before.len() {
                        assert(out@[k] == before[k]);
                    } else {
                        lemma_row_col(row as int, y as int, i as int);
                    }
                }
                assert((y * row + i) + 1 == y * row + (i + 1));
            }
            i = i + 1;
        }
        proof {
            assert(y * row + row == (y + 1) * row) by (nonlinear_arith);
        }
        y = y + 1;
    }
    proof {
        assert(out@.len() == (width as int * 4) * (height as int)) by (nonlinear_arith)
            requires
                out@.len() == y * row,
                y == h,
                h == height,
                row == width * 4,
        ;
        assert(out@ =~= packed_rows(src@, stride as int, width as int * 4, height as int));
    }
    out
}

/// What to do first for a frame request.
#[derive(Debug, Clone, Copy, PartialEq, Eq, Structural)]
pub enum Fetch {
    /// Decode forward from the current position.
    Forward,
    /// Seek the input back to the start, flush the codec, drop queued frames,
    /// record the rewind once the seek succeeded, then decode forward.
    Rewind,
}

/// What to do with the outcome of pulling the next frame in stream order.
#[derive(Debug, Clone, Copy, PartialEq, Eq, Structural)]
pub enum Pulled {
    /// Cache the frame under `at`; it is the requested one, so return it.
    Deliver { at: u64 },
    /// Cache the frame under `at` and keep decoding.
    Keep { at: u64 },
    /// The stream ended before the requested frame.
    Exhausted { index: u64, count: u64 },
}

/// A packet-read outcome while filling the frame queue.
#[derive(Debug, Clone, Copy, PartialEq, Eq, Structural)]
pub enum PacketRead {
    /// A packet was read; `ours` tells whether it belongs to the video stream.
    Packet { ours: bool },
    /// The input is exhausted.
    EndOfFile,
    /// Reading failed.
    Failed,
}

/// What to do after a packet read.
#[derive(Debug, Clone, Copy, PartialEq, Eq, Structural)]
pub enum PacketStep {
    /// Send the packet to the codec and drain decoded frames.
    SendAndDrain,
    /// Ignore the packet (another stream).
    Skip,
    /// Signal end of stream to the codec and drain what is left.
    FlushAndDrain,
    /// Give up with the read error.
    Fail,
}

/// Position of a sequential decoder: the stream index of the next frame to
/// come out, and whether the input has been read to its end.
pub struct DecodeCursor {
    next: u64,
    eof: bool,
}

impl DecodeCursor {
    /// Stream index of the next frame the decoder yields.
    pub closed spec fn next_index(&self) -> u64 {
        self.next
    }

    /// Whether the input has been read to its end.
    pub closed spec fn input_done(&self) -> bool {
        self.eof
    }

    /// A decoder positioned at the start of the stream.
    pub fn new() -> (c: DecodeCursor)
        ensures
            c.next_index() == 0,
            !c.input_done(),
    {
        DecodeCursor { next: 0, eof: false }
    }

    /// Stream index of the next frame the decoder yields.
    pub fn cursor(&self) -> (r: u64)
        ensures
            r == self.next_index(),
    {
        self.next
    }

    /// How to start fetching frame `index` when it is not cached: a frame
    /// before the current position needs a rewind to the start.
    pub fn begin(&self, index: u64) -> (r: Fetch)
        ensures
            index < self.next_index() ==> r == Fetch::Rewind,
            index >= self.next_index() ==> r == Fetch::Forward,
    {
        if index < self.next {
            Fetch::Rewind
        } else {
            Fetch::Forward
        }
    }

    /// Records that the input was rewound to its start: the next frame out is
    /// frame zero and the input is open again.
    pub fn restart(&mut self)
        ensures
            final(self).next_index() == 0,
            !final(self).input_done(),
    {
        self.next = 0;
        self.eof = false;
    }

    /// Whether frame `index` still lies at or after the current position.
    pub fn wants(&self, index: u64) -> (r: bool)
        ensures
            r == (self.next_index() <= index),
    {
        self.next <= index
    }

    /// Accounts for pulling the next frame while seeking `index`; `got` tells
    /// whether a frame came out.
    pub fn pulled(&mut self, index: u64, got: bool) -> (r: Pulled)
        requires
            old(self).next_index() <= index,
            old(self).next_index() < u64::MAX,
        ensures
            got && old(self).next_index() == index ==> r == (Pulled::Deliver { at: index }),
            got && old(self).next_index() < index ==> r == (Pulled::Keep {
                at: old(self).next_index(),
            }),
            got ==> final(self).next_index() == old(self).next_index() + 1,
            !got ==> r == (Pulled::Exhausted { index, count: old(self).next_index() }),
            !got ==> final(self).next_index() == old(self).next_index(),
            final(self).input_done() == old(self).input_done(),
    {
        if got {
            let at = self.next;
            self.next = self.next + 1;
            if at == index {
                Pulled::Deliver { at }
            } else {
                Pulled::Keep { at }
            }
        } else {
            Pulled::Exhausted { index, count: self.next }
        }
    }

    /// Whether more packets must be read: nothing is queued and the input is
    /// not exhausted.
    pub fn needs_packets(&self, queue_empty: bool) -> (r: bool)
        ensures
            r == (queue_empty && !self.input_done()),
    {
        queue_empty && !self.eof
    }

    /// The step to take after a packet read.
    pub fn on_packet(&mut self, read: PacketRead) -> (r: PacketStep)
        ensures
            read == (PacketRead::Packet { ours: true }) ==> r == PacketStep::SendAndDrain,
            read == (PacketRead::Packet { ours: false }) ==> r == PacketStep::Skip,
            read == PacketRead::EndOfFile ==> r == PacketStep::FlushAndDrain
                && final(self).input_done(),
            read == PacketRead::Failed ==> r == PacketStep::Fail,
            read != PacketRead::EndOfFile ==> final(self).input_done() == old(self).input_done(),
            final(self).next_index() == old(self).next_index(),
    {
        match read {
            PacketRead::Packet { ours } => {
                if ours {
                    PacketStep::SendAndDrain
                } else {
                    PacketStep::Skip
                }
            },
            PacketRead::EndOfFile => {
                self.eof = true;
                PacketStep::FlushAndDrain
            },
            PacketRead::Failed => PacketStep::Fail,
        }
    }
}

/// The answer to a frame request before any decoding.
pub enum Lookup {
    /// The frame was cached; it is now the most recently used entry.
    Cached(Arc<Frame>),
    /// Not cached: decode forward, after rewinding when the plan says so.
    Decode(Fetch),
}

/// The outcome of one frame pulled while seeking a requested index.
pub enum Taken {
    /// The requested frame, now cached under its index.
    Delivered(Arc<Frame>),
    /// An earlier frame, now cached under its index; keep decoding.
    Kept,
    /// The stream ended before the requested frame.
    Exhausted(SourceError),
}

/// The bookkeeping of a sequential-with-rewind decoder: its position in the
/// stream and the cache of the frames it decoded, keyed by stream index.
pub struct FrameFetch {
    position: DecodeCursor,
    cache: FrameCache,
    /// Every `(stream index, frame)` pair decoded so far.
    taken: Ghost<Set<(u64, Frame)>>,
}

/// Every entry of `s` is in `seen`.
pub open spec fn all_seen(s: Seq<(u64, Frame)>, seen: Set<(u64, Frame)>) -> bool {
    forall|i: int| 0 <= i < s.len() ==> seen.contains(#[trigger] s[i])
}

/// A lookup only reorders entries, so they stay among those seen.
proof fn lemma_after_get_seen(s: Seq<(u64, Frame)>, k: u64, seen: Set<(u64, Frame)>)
    requires
        all_seen(s, seen),
    ensures
        all_seen(after_get(s, k), seen),
{
    if has_key(s, k) {
        let i = key_index(s, k);
        let t = after_get(s, k);
        assert forall|j: int| 0 <= j < t.len() implies seen.contains(#[trigger] t[j]) by {
            if j == t.len() - 1 {
                assert(t[j] == s[i]);
            } else if j < i {
                assert(t[j] == s[j]);
            } else {
                assert(t[j] == s[j + 1]);
            }
        }
    }
}

/// Storing `(k, f)` keeps every entry among those seen once `(k, f)` is seen.
proof fn lemma_after_put_seen(
    s: Seq<(u64, Frame)>,
    cap: nat,
    k: u64,
    f: Frame,
    seen: Set<(u64, Frame)>,
)
    requires
        all_seen(s, seen),
        s.len() <= cap,
        cap >= 1,
    ensures
        all_seen(after_put(s, cap, k, f), seen.insert((k, f))),
{
    let t = after_put(s, cap, k, f);
    let seen2 = seen.insert((k, f));
    assert forall|j: int| 0 <= j < t.len() implies seen2.contains(#[trigger] t[j]) by {
        if j == t.len() - 1 {
            assert(t[j] == (k, f));
        } else if has_key(s, k) {
            let i = key_index(s, k);
            if j < i {
                assert(t[j] == s[j]);
            } else {
                assert(t[j] == s[j + 1]);
            }
        } else if s.len() >= cap {
            assert(t[j] == s[j + 1]);
            assert(seen.contains(s[j + 1]));
        } else {
            assert(t[j] == s[j]);
            assert(seen.contains(s[j]));
        }
    }
}

impl FrameFetch {
    /// Stream index of the next frame the decoder yields.
    pub closed spec fn next_index(&self) -> u64 {
        self.position.next_index()
    }

    /// Whether the input has been read to its end.
    pub closed spec fn input_done(&self) -> bool {
        self.position.input_done()
    }

    /// The cached frames, least recently used first.
    pub closed spec fn entries(&self) -> Seq<(u64, Frame)> {
        self.cache.entries()
    }

    /// The most frames the cache keeps.
    pub closed spec fn capacity(&self) -> nat {
        self.cache.capacity()
    }

    /// Every `(stream index, frame)` pair decoded so far, over all passes.
    pub closed spec fn taken(&self) -> Set<(u64, Frame)> {
        self.taken@
    }

    /// The cache is well formed, and holds only frames decoded at the
    /// stream index they are cached under.
    pub closed spec fn wf(&self) -> bool {
        &&& self.cache.wf()
        &&& all_seen(self.cache.entries(), self.taken@)
    }

    /// A decoder at the start of its stream with an empty cache of
    /// `capacity` frames.
    pub fn new(capacity: usize) -> (f: FrameFetch)
        requires
            capacity > 0,
        ensures
            f.wf(),
            f.entries() == Seq::<(u64, Frame)>::empty(),
            f.capacity() == capacity,
            f.next_index() == 0,
            !f.input_done(),
            f.taken() == Set::<(u64, Frame)>::empty(),
    {
        FrameFetch {
            position: DecodeCursor::new(),
            cache: FrameCache::new(capacity),
            taken: Ghost(Set::empty()),
        }
    }

    /// Stream index of the next frame the decoder yields.
    pub fn cursor(&self) -> (r: u64)
        ensures
            r == self.next_index(),
    {
        self.position.cursor()
    }

    /// Starts a request for frame `index`: a cached frame is handed back;
    /// otherwise decoding starts from the current position, or from the
    /// start of the stream when `index` lies before it. The position stays
    /// where it is until [`rewound`](Self::rewound) records the rewind.
    pub fn request(&mut self, index: u64) -> (r: Lookup)
        requires
            old(self).wf(),
        ensures
            final(self).wf(),
            final(self).capacity() == old(self).capacity(),
            final(self).entries() == after_get(old(self).entries(), index),
            has_key(old(self).entries(), index) ==> (r matches Lookup::Cached(a) && *a == old(self).entries()[key_index(old(self).entries(), index)].1) && final(self).next_index()
                == old(self).next_index() && final(self).input_done() == old(self).input_done(),
            !has_key(old(self).entries(), index) && index < old(self).next_index() ==> (r matches Lookup::Decode(
                Fetch::Rewind,
            )) && final(self).next_index() == old(self).next_index() && final(self).input_done()
                == old(self).input_done(),
            !has_key(old(self).entries(), index) && index >= old(self).next_index() ==> (r matches Lookup::Decode(
                Fetch::Forward,
            )) && final(self).next_index() == old(self).next_index() && final(self).input_done()
                == old(self).input_done(),
            final(self).taken() == old(self).taken(),
            r matches Lookup::Cached(a) ==> final(self).taken().contains((index, *a)),
    {
        let ghost pre = self.cache.entries();
        proof {
            lemma_after_get_seen(pre, index, self.taken@);
            if has_key(pre, index) {
                let i = key_index(pre, index);
                assert(self.taken@.contains(pre[i]));
            }
        }
        match self.cache.get(index) {
            Some(frame) => Lookup::Cached(frame),
            None => Lookup::Decode(self.position.begin(index)),
        }
    }

    /// Records a successful rewind of the input to its start.
    pub fn rewound(&mut self)
        ensures
            final(self).next_index() == 0,
            !final(self).input_done(),
            final(self).entries() == old(self).entries(),
            final(self).capacity() == old(self).capacity(),
            final(self).taken() == old(self).taken(),
            final(self).wf() == old(self).wf(),
    {
        self.position.restart();
    }

    /// Whether frame `index` still lies at or after the current position.
    pub fn wants(&self, index: u64) -> (r: bool)
        ensures
            r == (self.next_index() <= index),
    {
        self.position.wants(index)
    }

    /// Whether more packets must be read: nothing is queued and the input is
    /// not exhausted.
    pub fn needs_packets(&self, queue_empty: bool) -> (r: bool)
        ensures
            r == (queue_empty && !self.input_done()),
    {
        self.position.needs_packets(queue_empty)
    }

    /// The step to take after a packet read.
    pub fn on_packet(&mut self, read: PacketRead) -> (r: PacketStep)
        ensures
            read == (PacketRead::Packet { ours: true }) ==> r == PacketStep::SendAndDrain,
            read == (PacketRead::Packet { ours: false }) ==> r == PacketStep::Skip,
            read == PacketRead::EndOfFile ==> r == PacketStep::FlushAndDrain
                && final(self).input_done(),
            read == PacketRead::Failed ==> r == PacketStep::Fail,
            read != PacketRead::EndOfFile ==> final(self).input_done() == old(self).input_done(),
            final(self).next_index() == old(self).next_index(),
            final(self).entries() == old(self).entries(),
            final(self).capacity() == old(self).capacity(),
            final(self).taken() == old(self).taken(),
            final(self).wf() == old(self).wf(),
    {
        self.position.on_packet(read)
    }

    /// Accounts for the next frame in stream order, pulled while seeking
    /// `index` (`None` when the stream has ended): a frame is cached under its
    /// stream index, and handed back when it is the requested one.
    pub fn take(&mut self, index: u64, frame: Option<Frame>) -> (r: Taken)
        requires
            old(self).wf(),
            old(self).next_index() <= index,
            old(self).next_index() < u64::MAX,
        ensures
            final(self).wf(),
            final(self).capacity() == old(self).capacity(),
            final(self).input_done() == old(self).input_done(),
            frame matches Some(f) ==> final(self).next_index() == old(self).next_index() + 1
                && final(self).entries() == after_put(
                old(self).entries(),
                old(self).capacity(),
                old(self).next_index(),
                f,
            ),
            frame matches Some(f) ==> (old(self).next_index() == index ==> (r matches Taken::Delivered(
                a,
            ) && *a == f)),
            frame is Some && old(self).next_index() < index ==> r is Kept,
            frame is None ==> final(self).next_index() == old(self).next_index() && final(self).entries() == old(self).entries() && (r matches Taken::Exhausted(e) && e
                == (SourceError::OutOfRange { index, count: old(self).next_index() })),
            frame matches Some(f) ==> final(self).taken() == old(self).taken().insert(
                (old(self).next_index(), f),
            ),
            frame is None ==> final(self).taken() == old(self).taken(),
            r matches Taken::Delivered(a) ==> final(self).taken().contains((index, *a)),
    {
        let ghost pre = self.cache.entries();
        let ghost at = self.position.next_index();
        proof {
            if frame is Some {
                let f = frame->0;
                lemma_after_put_seen(pre, self.cache.capacity(), at, f, self.taken@);
                self.taken = Ghost(self.taken@.insert((at, f)));
            }
        }
        let got = frame.is_some();
        let step = self.position.pulled(index, got);
        match frame {
            Some(f) => match step {
                Pulled::Deliver { at } => Taken::Delivered(self.cache.insert(at, f)),
                Pulled::Keep { at } => {
                    self.cache.insert(at, f);
                    Taken::Kept
                },
                Pulled::Exhausted { index, count } => Taken::Exhausted(
                    SourceError::OutOfRange { index, count },
                ),
            },
            None => match step {
                Pulled::Exhausted { index, count } => Taken::Exhausted(
                    SourceError::OutOfRange { index, count },
                ),
                _ => Taken::Kept,
            },
        }
    }

    /// Ends a request that decoded past `index` without delivering it: the
    /// cached frame if there is one, else out of range at the current position.
    pub fn settle(&mut self, index: u64) -> (r: Result<Arc<Frame>, SourceError>)
        requires
            old(self).wf(),
        ensures
            final(self).wf(),
            final(self).capacity() == old(self).capacity(),
            final(self).entries() == after_get(old(self).entries(), index),
            final(self).next_index() == old(self).next_index(),
            final(self).input_done() == old(self).input_done(),
            has_key(old(self).entries(), index) ==> (r matches Ok(a) && *a == old(self).entries()[key_index(old(self).entries(), index)].1),
            !has_key(old(self).entries(), index) ==> (r matches Err(e) && e == (
            SourceError::OutOfRange { index, count: old(self).next_index() })),
            final(self).taken() == old(self).taken(),
            r matches Ok(a) ==> final(self).taken().contains((index, *a)),
    {
        let ghost pre = self.cache.entries();
        proof {
            lemma_after_get_seen(pre, index, self.taken@);
            if has_key(pre, index) {
                let i = key_index(pre, index);
                assert(self.taken@.contains(pre[i]));
            }
        }
        match self.cache.get(index) {
            Some(frame) => Ok(frame),
            None => Err(SourceError::OutOfRange { index, count: self.position.cursor() }),
        }
    }
}

} // verus!
