//! The Haar wavelet decomposition behind the wavelet hash.
//!
//! The 8x8 grid is stored row by row. One level of the decomposition works
//! on the top-left `size` x `size` quadrant: for each position `(y, x)` of
//! its top-left sub-quadrant it combines the four values at `(y, x)`,
//! `(y, x + h)`, `(y + h, x)` and `(y + h, x + h)`, `h = size / 2`, into
//! their average and their horizontal, vertical and diagonal differences,
//! written back to those four positions. Three levels (sizes 8, 4, 2) are
//! applied.
//!
//! The Haar averages and differences divide by 4 at every level. Here the
//! division is left out and every value outside the current quadrant is
//! multiplied by 4 instead, so after three levels each coefficient is exactly
//! 64 times its Haar value and stays an integer. Multiplying all
//! coefficients by the same positive number keeps their order, which is all
//! the hash looks at.
use vstd::prelude::*;

verus! {

/// The value that one decomposition level on the `size` x `size` quadrant
/// leaves at position `i` of the 8x8 grid `v`.
pub open spec fn haar_cell(v: Seq<int>, size: int, i: int) -> int {
    let r = i / 8;
    let c = i % 8;
    let h = size / 2;
    if r < size && c < size {
        let y = r % h;
        let x = c % h;
        let tl = v[y * 8 + x];
        let tr = v[y * 8 + x + h];
        let bl = v[(y + h) * 8 + x];
        let br = v[(y + h) * 8 + x + h];
        if r < h && c < h {
            tl + tr + bl + br
        } else if r < h {
            tl + tr - bl - br
        } else if c < h {
            tl - tr + bl - br
        } else {
            tl - tr - bl + br
        }
    } else {
        4 * v[i]
    }
}

/// One decomposition level on the `size` x `size` quadrant of the 8x8 grid `v`.
pub open spec fn haar_level(v: Seq<int>, size: int) -> Seq<int> {
    Seq::new(64, |i: int| haar_cell(v, size, i))
}

/// The 64 wavelet coefficients of an 8x8 grid of intensities, each 64 times
/// its Haar value.
pub open spec fn wavelet_coefficients(pixels: Seq<u8>) -> Seq<int> {
    let v = Seq::new(64, |i: int| pixels[i] as int);
    haar_level(haar_level(haar_level(v, 8), 4), 2)
}

/// The integers that a vector of `i64` holds.
pub open spec fn ints(v: Seq<i64>) -> Seq<int> {
    v.map_values(|x: i64| x as int)
}

/// Applies one decomposition level to the `size` x `size` quadrant of `v`.
fn haar_step(v: &Vec<i64>, size: usize, Ghost(bound): Ghost<int>) -> (out: Vec<i64>)
    requires
        v.len() == 64,
        size == 8 || size == 4 || size == 2,
        0 <= bound <= 0x1_0000_0000,
        forall|i: int| 0 <= i < 64 ==> -bound <= #[trigger] v[i] <= bound,
    ensures
        out.len() == 64,
        ints(out@) == haar_level(ints(v@), size as int),
        forall|i: int| 0 <= i < 64 ==> -4 * bound <= #[trigger] out[i] <= 4 * bound,
{
    let h: usize = size / 2;
    let mut out: Vec<i64> = Vec::new();
    for i in 0..64
        invariant
            v.len() == 64,
            size == 8 || size == 4 || size == 2,
            h == size / 2,
            0 <= bound <= 0x1_0000_0000,
            forall|k: int| 0 <= k < 64 ==> -bound <= #[trigger] v[k] <= bound,
            out.len() == i,
            forall|k: int|
                0 <= k < i ==> #[trigger] out[k] as int == haar_cell(ints(v@), size as int, k),
            forall|k: int| 0 <= k < i ==> -4 * bound <= #[trigger] out[k] <= 4 * bound,
    {
        let r: usize = i / 8;
        let c: usize = i % 8;
        let value: i64 = if r < size && c < size {
            let y: usize = r % h;
            let x: usize = c % h;
            let tl = v[y * 8 + x];
            let tr = v[y * 8 + x + h];
            let bl = v[(y + h) * 8 + x];
            let br = v[(y + h) * 8 + x + h];
            if r < h && c < h {
                tl + tr + bl + br
            } else if r < h {
                tl + tr - bl - br
            } else if c < h {
                tl - tr + bl - br
            } else {
                tl - tr - bl + br
            }
        } else {
            4 * v[i]
        };
        out.push(value);
    }
    proof {
        assert(ints(out@) =~= haar_level(ints(v@), size as int));
    }
    out
}

/// Computes the 64 wavelet coefficients of an 8x8 grid of intensities.
pub fn wavelet_transform(pixels: &Vec<u8>) -> (out: Vec<i64>)
    requires
        pixels.len() == 64,
    ensures
        out@ == wavelet_coefficients(pixels@).map_values(|x: int| x as i64),
        forall|i: int| 0 <= i < 64 ==> -16320 <= #[trigger] out[i] <= 16320,
{
    let mut v: Vec<i64> = Vec::new();
    for i in 0..64
        invariant
            pixels.len() == 64,
            v.len() == i,
            forall|k: int| 0 <= k < i ==> #[trigger] v[k] == pixels[k] as i64,
    {
        v.push(pixels[i] as i64);
    }
    proof {
        assert(ints(v@) =~= Seq::new(64, |i: int| pixels@[i] as int));
    }
    let v1 = haar_step(&v, 8, Ghost(255));
    let v2 = haar_step(&v1, 4, Ghost(1020));
    let v3 = haar_step(&v2, 2, Ghost(4080));
    proof {
        let coefficients = wavelet_coefficients(pixels@);
        assert(ints(v3@) == coefficients);
        assert forall|i: int| 0 <= i < 64 implies v3@[i] == (coefficients[i] as i64) by {
            assert(ints(v3@)[i] == v3@[i] as int);
        }
        assert(v3@ =~= coefficients.map_values(|x: int| x as i64));
    }
    v3
}

} // verus!
