//! The normalized grayscale grid that every hash algorithm reads.
use vstd::prelude::*;

verus! {

/// A grayscale image: `pixels` holds one intensity per pixel, row by row,
/// `width` pixels per row.
#[derive(Debug)]
pub struct Canvas {
    pub width: u32,
    pub height: u32,
    pub pixels: Vec<u8>,
}

impl Canvas {
    /// The canvas is `w` pixels wide, `h` pixels high, and holds exactly one
    /// intensity for each of its pixels.
    pub open spec fn fits(&self, w: int, h: int) -> bool {
        &&& self.width == w
        &&& self.height == h
        &&& self.pixels@.len() == w * h
    }

    /// Tells whether the canvas is `w` by `h` pixels with one intensity per pixel.
    pub fn has_size(&self, w: u32, h: u32) -> (r: bool)
        ensures
            r == self.fits(w as int, h as int),
    {
        assert((w as u64) * (h as u64) <= 0xffff_ffff * 0xffff_ffff) by (nonlinear_arith)
            requires
                w <= 0xffff_ffff,
                h <= 0xffff_ffff,
        ;
        self.width == w && self.height == h && self.pixels.len() as u64 == (w as u64) * (h as u64)
    }
}

} // verus!
