//! Frame buffer recycling.
//!
//! Decoding allocates a new RGBA8 buffer per frame, which churns the allocator
//! during playback. [`FramePool`] recycles the backing `Vec<u8>` of dropped
//! frames so steady-state playback stops allocating.

use vstd::prelude::*;
use crate::frame::{rgba_len, zeroed, Frame};

verus! {

/// The allocation size of `buf` (`Vec::capacity`); never below its length.
#[verifier::external_body]
fn buffer_capacity(buf: &Vec<u8>) -> (cap: usize)
    ensures
        cap >= buf.len(),
{
    buf.capacity()
}

/// How taking a buffer for `needed` bytes leaves the pool `pre`: untouched
/// when no buffer is reused, which happens only when every buffer is shorter
/// than `needed`; otherwise the buffer at some `pos`, after only buffers
/// shorter than `needed`, is taken out by moving the last buffer into its slot.
pub open spec fn acquire_outcome(pre: Seq<Seq<u8>>, post: Seq<Seq<u8>>, needed: int) -> bool {
    ||| post == pre && forall|j: int| 0 <= j < pre.len() ==> #[trigger] pre[j].len() < needed
    ||| exists|pos: int|
        #![trigger pre[pos]]
        0 <= pos < pre.len() && post == pre.update(pos, pre.last()).drop_last() && (forall|j: int|
            0 <= j < pos ==> #[trigger] pre[j].len() < needed)
}

/// How taking a buffer for `needed` bytes acts on the pool's buffers `pre`
/// and their capacities `pre_caps`: when no buffer has the capacity for
/// `needed` bytes, both stay as they were; otherwise the first buffer that
/// has it, at some `pos`, is taken out by moving the last buffer (and its
/// capacity) into its slot.
pub open spec fn capacity_choice(
    pre: Seq<Seq<u8>>,
    pre_caps: Seq<nat>,
    post: Seq<Seq<u8>>,
    post_caps: Seq<nat>,
    needed: int,
) -> bool {
    ||| post == pre && post_caps == pre_caps && forall|j: int|
        0 <= j < pre_caps.len() ==> #[trigger] pre_caps[j] < needed
    ||| exists|pos: int|
        #![trigger pre_caps[pos]]
        0 <= pos < pre.len() && pre_caps[pos] >= needed && (forall|j: int|
            0 <= j < pos ==> #[trigger] pre_caps[j] < needed) && post == pre.update(
            pos,
            pre.last(),
        ).drop_last() && post_caps == pre_caps.update(pos, pre_caps.last()).drop_last()
}

/// A pool of reusable pixel buffers.
///
/// Buffers are reused by capacity: [`acquire`](FramePool::acquire) takes the
/// first stored buffer large enough and resizes it, falling back to a fresh
/// allocation. [`release`](FramePool::release) returns a frame's buffer to the
/// pool. Not internally synchronized; wrap in a lock if shared across threads.
pub struct FramePool {
    /// Each pooled buffer with the capacity it reported when it was pooled
    /// (a pooled buffer is not touched, so its capacity stays the same).
    free: Vec<(Vec<u8>, usize)>,
    capacity: usize,
}

impl FramePool {
    #[verifier::type_invariant]
    closed spec fn bounded(self) -> bool {
        &&& self.free.len() <= self.capacity
        &&& forall|j: int| 0 <= j < self.free@.len() ==> #[trigger] self.free@[j].1 >= self.free@[j].0@.len()
    }

    /// The buffers held for reuse, in storage order.
    pub closed spec fn buffers(&self) -> Seq<Seq<u8>> {
        self.free@.map_values(|b: (Vec<u8>, usize)| b.0@)
    }

    /// The allocated capacity of each buffer held for reuse, in the same
    /// order; never below the buffer's length.
    pub closed spec fn capacities(&self) -> Seq<nat> {
        self.free@.map_values(|b: (Vec<u8>, usize)| b.1 as nat)
    }

    /// The most buffers the pool retains.
    pub closed spec fn limit(&self) -> nat {
        self.capacity as nat
    }

    /// Creates an empty pool that retains at most `capacity` free buffers.
    pub fn with_capacity(capacity: usize) -> (p: FramePool)
        ensures
            p.buffers() == Seq::<Seq<u8>>::empty(),
            p.capacities() == Seq::<nat>::empty(),
            p.limit() == capacity,
    {
        let p = FramePool { free: Vec::new(), capacity };
        assert(p.buffers() =~= Seq::<Seq<u8>>::empty());
        assert(p.capacities() =~= Seq::<nat>::empty());
        p
    }

    /// Returns a zeroed frame of the requested size.
    ///
    /// Reuses a pooled buffer only when one already has enough capacity, so a
    /// request for a larger frame never forces a too-small buffer to
    /// reallocate. The first such buffer is taken out by swapping the last
    /// buffer into its slot. When nothing fits, a fresh buffer is allocated and
    /// the pool is left as it was.
    pub fn acquire(&mut self, width: u32, height: u32) -> (f: Frame)
        requires
            rgba_len(width, height) <= usize::MAX,
        ensures
            f.spec_width() == width,
            f.spec_height() == height,
            f.bytes() == zeroed(rgba_len(width, height)),
            final(self).limit() == old(self).limit(),
            acquire_outcome(old(self).buffers(), final(self).buffers(), rgba_len(width, height)),
            capacity_choice(
                old(self).buffers(),
                old(self).capacities(),
                final(self).buffers(),
                final(self).capacities(),
                rgba_len(width, height),
            ),
    {
        proof {
            use_type_invariant(&*self);
        }
        let needed = Frame::byte_len(width, height);
        let mut pos: usize = 0;
        let n = self.free.len();
        while pos < n
            invariant
                n == self.free.len(),
                *self == *old(self),
                pos <= n,
                forall|j: int| 0 <= j < pos ==> self.free@[j].1 < needed,
                forall|j: int| 0 <= j < n ==> #[trigger] self.free@[j].1 >= self.free@[j].0@.len(),
            ensures
                pos <= n,
                *self == *old(self),
                forall|j: int| 0 <= j < pos ==> self.free@[j].1 < needed,
                forall|j: int| 0 <= j < n ==> #[trigger] self.free@[j].1 >= self.free@[j].0@.len(),
                pos < n ==> self.free@[pos as int].1 >= needed,
            decreases n - pos,
        {
            if self.free[pos].1 >= needed {
                break;
            }
            pos = pos + 1;
        }
        proof {
            assert forall|j: int| 0 <= j < pos implies #[trigger] old(self).buffers()[j].len() < needed by {
                assert(old(self).buffers()[j] == old(self).free@[j].0@);
                assert(self.free@[j].1 >= self.free@[j].0@.len());
            }
            assert forall|j: int| 0 <= j < pos implies #[trigger] old(self).capacities()[j] < needed by {
                assert(old(self).capacities()[j] == old(self).free@[j].1 as nat);
            }
        }
        if pos < n {
            let mut free: Vec<(Vec<u8>, usize)> = Vec::new();
            std::mem::swap(&mut free, &mut self.free);
            let ghost pre = free@;
            let (mut buf, _cap) = free.swap_remove(pos);
            proof {
                assert forall|j: int| 0 <= j < free@.len() implies #[trigger] free@[j].1 >= free@[j].0@.len() by {
                    if j == pos {
                        assert(free@[j] == pre[pre.len() - 1]);
                    } else {
                        assert(free@[j] == pre[j]);
                    }
                }
            }
            self.free = free;
            buf.clear();
            while buf.len() < needed
                invariant
                    buf.len() <= needed,
                    forall|i: int| 0 <= i < buf.len() ==> buf@[i] == 0u8,
                decreases needed - buf.len(),
            {
                buf.push(0);
            }
            proof {
                assert(buf@ =~= zeroed(rgba_len(width, height)));
                assert(self.buffers() =~= old(self).buffers().update(
                    pos as int,
                    old(self).buffers().last(),
                ).drop_last());
                assert(self.capacities() =~= old(self).capacities().update(
                    pos as int,
                    old(self).capacities().last(),
                ).drop_last());
                assert(old(self).buffers()[pos as int] == old(self).free@[pos as int].0@);
                assert(old(self).capacities()[pos as int] == old(self).free@[pos as int].1 as nat);
            }
            Frame::from_pixels(width, height, buf)
        } else {
            proof {
                assert forall|j: int| 0 <= j < old(self).capacities().len() implies #[trigger] old(
                    self,
                ).capacities()[j] < needed by {
                    assert(old(self).capacities()[j] == old(self).free@[j].1 as nat);
                }
            }
            Frame::new(width, height)
        }
    }

    /// Returns a frame's backing buffer to the pool for reuse.
    ///
    /// Dropped if the pool is already holding `capacity` buffers, so memory
    /// stays bounded.
    pub fn release(&mut self, frame: Frame)
        ensures
            final(self).limit() == old(self).limit(),
            old(self).buffers().len() < old(self).limit() ==> final(self).buffers() == old(
                self,
            ).buffers().push(frame.bytes()),
            old(self).buffers().len() < old(self).limit() ==> final(self).capacities().drop_last()
                == old(self).capacities() && final(self).capacities().last() >= frame.bytes().len(),
            old(self).buffers().len() >= old(self).limit() ==> final(self).buffers() == old(
                self,
            ).buffers() && final(self).capacities() == old(self).capacities(),
    {
        proof {
            use_type_invariant(&*self);
        }
        if self.free.len() < self.capacity {
            let pixels = frame.into_pixels();
            let cap = buffer_capacity(&pixels);
            let mut free: Vec<(Vec<u8>, usize)> = Vec::new();
            std::mem::swap(&mut free, &mut self.free);
            let ghost pre = free@;
            free.push((pixels, cap));
            proof {
                assert forall|j: int| 0 <= j < free@.len() implies #[trigger] free@[j].1 >= free@[j].0@.len() by {
                    if j < pre.len() {
                        assert(free@[j] == pre[j]);
                    }
                }
            }
            self.free = free;
            proof {
                assert(self.buffers() =~= old(self).buffers().push(frame.bytes()));
                assert(self.capacities().drop_last() =~= old(self).capacities());
            }
        }
    }

    /// Number of buffers currently available for reuse.
    pub fn available(&self) -> (r: usize)
        ensures
            r == self.buffers().len(),
            r <= self.limit(),
    {
        proof {
            use_type_invariant(self);
        }
        self.free.len()
    }
}

impl Default for FramePool {
    /// An empty pool that retains no buffers.
    fn default() -> (p: FramePool)
        ensures
            p.buffers() == Seq::<Seq<u8>>::empty(),
            p.capacities() == Seq::<nat>::empty(),
            p.limit() == 0,
    {
        FramePool::with_capacity(0)
    }
}

} // verus!
