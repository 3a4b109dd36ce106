//! Decoded video frames.

use vstd::prelude::*;

verus! {

/// The byte length of a tightly packed `width`×`height` RGBA8 image.
pub open spec fn rgba_len(width: u32, height: u32) -> int {
    width as int * height as int * 4
}

/// `n` zero bytes.
pub open spec fn zeroed(n: int) -> Seq<u8> {
    Seq::new(n as nat, |i: int| 0u8)
}

/// A decoded RGBA8 video frame: tightly packed, 4 bytes per pixel, row-major,
/// top-left origin, no padding between rows.
///
/// RGBA8 is the common interchange format between decode, preview upload, and
/// (later) GPU effect input.
#[derive(Clone, PartialEq, Eq)]
pub struct Frame {
    width: u32,
    height: u32,
    /// `width * height * 4` bytes, RGBA order.
    pixels: Vec<u8>,
}

impl Frame {
    /// Bytes per pixel for the RGBA8 layout.
    pub const BYTES_PER_PIXEL: usize = 4;

    /// Width in pixels.
    pub closed spec fn spec_width(&self) -> u32 {
        self.width
    }

    /// Height in pixels.
    pub closed spec fn spec_height(&self) -> u32 {
        self.height
    }

    /// The pixel bytes.
    pub closed spec fn bytes(&self) -> Seq<u8> {
        self.pixels@
    }

    /// Creates a fully transparent (zeroed) frame of the given size.
    pub fn new(width: u32, height: u32) -> (f: Frame)
        requires
            rgba_len(width, height) <= usize::MAX,
        ensures
            f.spec_width() == width,
            f.spec_height() == height,
            f.bytes() == zeroed(rgba_len(width, height)),
    {
        let n = Self::byte_len(width, height);
        let mut pixels: Vec<u8> = Vec::new();
        while pixels.len() < n
            invariant
                pixels.len() <= n,
                forall|i: int| 0 <= i < pixels.len() ==> pixels@[i] == 0u8,
            decreases n - pixels.len(),
        {
            pixels.push(0);
        }
        assert(pixels@ =~= zeroed(rgba_len(width, height)));
        Frame { width, height, pixels }
    }

    /// Wraps existing RGBA8 pixel data whose length is `width * height * 4`.
    pub fn from_pixels(width: u32, height: u32, pixels: Vec<u8>) -> (f: Frame)
        requires
            pixels.len() == rgba_len(width, height),
        ensures
            f.spec_width() == width,
            f.spec_height() == height,
            f.bytes() == pixels@,
    {
        Frame { width, height, pixels }
    }

    /// The expected byte length for a `width`×`height` RGBA8 frame.
    pub fn byte_len(width: u32, height: u32) -> (n: usize)
        requires
            rgba_len(width, height) <= usize::MAX,
        ensures
            n as int == rgba_len(width, height),
    {
        proof {
            assert(0 <= (width as int) * (height as int) <= (width as int) * (height as int) * 4)
                by (nonlinear_arith);
        }
        width as usize * height as usize * Self::BYTES_PER_PIXEL
    }

    /// Frame width in pixels.
    #[verifier::when_used_as_spec(spec_width)]
    pub fn width(&self) -> (r: u32)
        ensures
            r == self.spec_width(),
    {
        self.width
    }

    /// Frame height in pixels.
    #[verifier::when_used_as_spec(spec_height)]
    pub fn height(&self) -> (r: u32)
        ensures
            r == self.spec_height(),
    {
        self.height
    }

    /// `[width, height]`, convenient for GPU upload APIs.
    pub fn size(&self) -> (r: [usize; 2])
        ensures
            r@ == seq![self.spec_width() as usize, self.spec_height() as usize],
    {
        [self.width as usize, self.height as usize]
    }

    /// The RGBA8 pixel bytes.
    pub fn pixels(&self) -> (r: &[u8])
        ensures
            r@ == self.bytes(),
    {
        self.pixels.as_slice()
    }

    /// Mutable access to the RGBA8 pixel bytes.
    pub fn pixels_mut(&mut self) -> (r: &mut [u8])
        ensures
            r@ == old(self).bytes(),
            final(self).bytes() == final(r)@,
            final(self).spec_width() == old(self).spec_width(),
            final(self).spec_height() == old(self).spec_height(),
    {
        self.pixels.as_mut_slice()
    }

    /// Consumes the frame, returning its backing buffer so a pool can recycle it.
    pub fn into_pixels(self) -> (r: Vec<u8>)
        ensures
            r@ == self.bytes(),
    {
        self.pixels
    }
}

} // verus!
