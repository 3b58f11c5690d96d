//! 64-bit image fingerprints.
//!
//! Every algorithm reads a normalized canvas, decides one bit per cell of an
//! 8x8 grid in row-major order, and packs the bits most-significant first:
//! the decision for cell 0 becomes bit 63 of the fingerprint.
use crate::canvas::Canvas;
use crate::config::Algorithm;
use crate::distance::{hamming, hamming_u64};
use crate::error::ImgddError;
use crate::text::{binary_of, binary_string, hex_of, hex_string};
use crate::threshold::{
    above_median,
    above_median_bits,
    ascending,
    lemma_pack_bits_all_clear,
    pack_bits,
    pack_msb_first,
};
use crate::wavelet::{wavelet_coefficients, wavelet_transform};
use vstd::prelude::*;
use vstd::seq_lib::lemma_sorted_unique;

verus! {

/// Sum of the intensities in `s`.
pub open spec fn total(s: Seq<u8>) -> int
    decreases s.len(),
{
    if s.len() == 0 {
        0
    } else {
        total(s.drop_last()) + s.last()
    }
}

/// Average hash decisions: a pixel is set when it is brighter than the mean
/// intensity, i.e. when `n * p` exceeds the sum of all `n` intensities.
pub open spec fn average_bits(pixels: Seq<u8>) -> Seq<bool> {
    Seq::new(pixels.len(), |i: int| pixels.len() * pixels[i] > total(pixels))
}

/// Intensities widened for sorting.
pub open spec fn intensities(pixels: Seq<u8>) -> Seq<i64> {
    pixels.map_values(|p: u8| p as i64)
}

/// Median hash decisions: a pixel is set when it is brighter than the median
/// intensity.
pub open spec fn median_bits(pixels: Seq<u8>) -> Seq<bool> {
    above_median(intensities(pixels))
}

/// Difference hash decisions on a 9x8 canvas: cell `(x, y)` of the 8x8 grid
/// is set when pixel `(x, y)` is strictly brighter than pixel `(x + 1, y)`.
pub open spec fn difference_bits(pixels: Seq<u8>) -> Seq<bool> {
    Seq::new(
        64,
        |i: int| pixels[(i / 8) * 9 + i % 8] > pixels[(i / 8) * 9 + i % 8 + 1],
    )
}

/// Wavelet hash decisions: a coefficient is set when it lies above the median
/// of the 64 wavelet coefficients.
pub open spec fn wavelet_bits(pixels: Seq<u8>) -> Seq<bool> {
    above_median(wavelet_coefficients(pixels).map_values(|x: int| x as i64))
}

/// The fingerprint that `algo` gives to a canvas of the right size holding
/// `pixels`. The frequency-domain hash works in floating point, is computed
/// outside this library, and has no value here.
pub open spec fn fingerprint_value(algo: Algorithm, pixels: Seq<u8>) -> Option<nat> {
    match algo {
        Algorithm::AHash => Some(pack_bits(average_bits(pixels))),
        Algorithm::MHash => Some(pack_bits(median_bits(pixels))),
        Algorithm::DHash => Some(pack_bits(difference_bits(pixels))),
        Algorithm::WHash => Some(pack_bits(wavelet_bits(pixels))),
        Algorithm::PHash => None,
    }
}

/// A 64-bit perceptual fingerprint. Fingerprints are only comparable when
/// the same algorithm produced them.
#[derive(Clone, Copy, Debug, PartialEq, Eq, Structural, Hash)]
pub struct ImageHash {
    /// The packed bits.
    pub hash: u64,
}

proof fn lemma_total_step(s: Seq<u8>, i: int)
    requires
        0 <= i < s.len(),
    ensures
        total(s.take(i + 1)) == total(s.take(i)) + s[i],
{
    assert(s.take(i + 1).drop_last() =~= s.take(i));
}

/// Sum of the 64 intensities of an 8x8 canvas.
fn sum_pixels(pixels: &Vec<u8>) -> (sum: u64)
    requires
        pixels.len() == 64,
    ensures
        sum == total(pixels@),
        sum <= 255 * 64,
{
    let mut sum: u64 = 0;
    for i in 0..64
        invariant
            pixels.len() == 64,
            sum == total(pixels@.take(i as int)),
            sum <= 255 * i,
    {
        proof {
            lemma_total_step(pixels@, i as int);
        }
        sum = sum + pixels[i] as u64;
    }
    proof {
        assert(pixels@.take(64) =~= pixels@);
    }
    sum
}

impl ImageHash {
    /// Average hash of an 8x8 canvas: each pixel is compared with the mean
    /// intensity.
    pub fn ahash(image: &Canvas) -> (r: Result<ImageHash, ImgddError>)
        ensures
            r is Ok <==> image.fits(8, 8),
            r matches Ok(h) ==> h.hash == pack_bits(average_bits(image.pixels@)),
            r matches Err(e) ==> e == ImgddError::CanvasSize,
    {
        if !image.has_size(8, 8) {
            return Err(ImgddError::CanvasSize);
        }
        let sum = sum_pixels(&image.pixels);
        let mut bits: Vec<bool> = Vec::new();
        for i in 0..64
            invariant
                image.pixels.len() == 64,
                sum == total(image.pixels@),
                sum <= 255 * 64,
                bits@ == average_bits(image.pixels@).take(i as int),
        {
            bits.push(64 * (image.pixels[i] as u64) > sum);
            proof {
                assert(bits@ =~= average_bits(image.pixels@).take(i + 1));
            }
        }
        proof {
            assert(average_bits(image.pixels@).take(64) =~= average_bits(image.pixels@));
        }
        Ok(ImageHash { hash: pack_msb_first(&bits) })
    }

    /// Median hash of an 8x8 canvas: each pixel is compared with the median
    /// intensity, the mean of the two middle values.
    pub fn mhash(image: &Canvas) -> (r: Result<ImageHash, ImgddError>)
        ensures
            r is Ok <==> image.fits(8, 8),
            r matches Ok(h) ==> h.hash == pack_bits(median_bits(image.pixels@)),
            r matches Err(e) ==> e == ImgddError::CanvasSize,
    {
        if !image.has_size(8, 8) {
            return Err(ImgddError::CanvasSize);
        }
        let mut values: Vec<i64> = Vec::new();
        for i in 0..64
            invariant
                image.pixels.len() == 64,
                values.len() == i,
                forall|k: int| 0 <= k < i ==> #[trigger] values[k] == image.pixels[k] as i64,
        {
            values.push(image.pixels[i] as i64);
        }
        proof {
            assert(values@ =~= intensities(image.pixels@));
        }
        let bits = above_median_bits(&values);
        Ok(ImageHash { hash: pack_msb_first(&bits) })
    }

    /// Difference hash of a 9x8 canvas: each pixel is compared with its
    /// right-hand neighbour.
    pub fn dhash(image: &Canvas) -> (r: Result<ImageHash, ImgddError>)
        ensures
            r is Ok <==> image.fits(9, 8),
            r matches Ok(h) ==> h.hash == pack_bits(difference_bits(image.pixels@)),
            r matches Err(e) ==> e == ImgddError::CanvasSize,
    {
        if !image.has_size(9, 8) {
            return Err(ImgddError::CanvasSize);
        }
        let mut bits: Vec<bool> = Vec::new();
        for i in 0..64
            invariant
                image.pixels.len() == 72,
                bits@ == difference_bits(image.pixels@).take(i as int),
        {
            let y: usize = i / 8;
            let x: usize = i % 8;
            bits.push(image.pixels[y * 9 + x] > image.pixels[y * 9 + x + 1]);
            proof {
                assert(bits@ =~= difference_bits(image.pixels@).take(i + 1));
            }
        }
        proof {
            assert(difference_bits(image.pixels@).take(64) =~= difference_bits(image.pixels@));
        }
        Ok(ImageHash { hash: pack_msb_first(&bits) })
    }

    /// Wavelet hash of an 8x8 canvas: three levels of Haar decomposition, then
    /// each coefficient is compared with the median coefficient.
    pub fn whash(image: &Canvas) -> (r: Result<ImageHash, ImgddError>)
        ensures
            r is Ok <==> image.fits(8, 8),
            r matches Ok(h) ==> h.hash == pack_bits(wavelet_bits(image.pixels@)),
            r matches Err(e) ==> e == ImgddError::CanvasSize,
    {
        if !image.has_size(8, 8) {
            return Err(ImgddError::CanvasSize);
        }
        let coefficients = wavelet_transform(&image.pixels);
        let bits = above_median_bits(&coefficients);
        Ok(ImageHash { hash: pack_msb_first(&bits) })
    }

    /// Fingerprints a normalized canvas with `algo`. Gives nothing when the
    /// canvas does not have the algorithm's size, and nothing for the
    /// frequency-domain hash, which is computed in floating point outside this
    /// library.
    pub fn hash_canvas(canvas: &Canvas, algo: Algorithm) -> (r: Option<ImageHash>)
        ensures
            r is Some <==> (algo != Algorithm::PHash && canvas.fits(
                algo.spec_width() as int,
                algo.spec_height() as int,
            )),
            r matches Some(h) ==> fingerprint_value(algo, canvas.pixels@) == Some(h.hash as nat),
    {
        let computed = match algo {
            Algorithm::AHash => ImageHash::ahash(canvas),
            Algorithm::MHash => ImageHash::mhash(canvas),
            Algorithm::DHash => ImageHash::dhash(canvas),
            Algorithm::WHash => ImageHash::whash(canvas),
            Algorithm::PHash => {
                return None;
            },
        };
        match computed {
            Ok(h) => Some(h),
            Err(_) => None,
        }
    }

    /// Number of bit positions in which the two fingerprints differ.
    pub fn hamming_distance(&self, other: &Self) -> (r: usize)
        ensures
            r == hamming(self.hash, other.hash),
    {
        hamming_u64(self.hash, other.hash) as usize
    }

    /// The fingerprint in lowercase hexadecimal, without leading zeros.
    pub fn to_hex(&self) -> (r: String)
        ensures
            r@ == hex_of(self.hash as nat),
    {
        hex_string(self.hash)
    }

    /// The fingerprint as 64 binary digits, most significant first.
    pub fn to_binary(&self) -> (r: String)
        ensures
            r@ == binary_of(self.hash as nat, 64),
    {
        binary_string(self.hash, 64)
    }

    /// The packed 64-bit value.
    pub fn get_hash(&self) -> (r: u64)
        ensures
            r == self.hash,
    {
        self.hash
    }
}

proof fn lemma_total_constant(s: Seq<u8>, p: u8)
    requires
        forall|i: int| 0 <= i < s.len() ==> s[i] == p,
    ensures
        total(s) == s.len() * p,
    decreases s.len(),
{
    if s.len() > 0 {
        lemma_total_constant(s.drop_last(), p);
        assert((s.len() - 1) * p + p == s.len() * p) by (nonlinear_arith);
    }
}

/// On a canvas whose pixels all have one intensity, the average, median and
/// difference hashes are all zero: no pixel is strictly brighter than the
/// mean, than the median, or than its right-hand neighbour.
pub proof fn lemma_uniform_canvas_hashes(canvas: Canvas)
    requires
        forall|i: int| 0 <= i < canvas.pixels@.len() ==> #[trigger] canvas.pixels@[i] == canvas.pixels@[0],
    ensures
        canvas.fits(8, 8) ==> fingerprint_value(Algorithm::AHash, canvas.pixels@) == Some(0nat),
        canvas.fits(8, 8) ==> fingerprint_value(Algorithm::MHash, canvas.pixels@) == Some(0nat),
        canvas.fits(9, 8) ==> fingerprint_value(Algorithm::DHash, canvas.pixels@) == Some(0nat),
{
    let pixels = canvas.pixels@;
    if canvas.fits(8, 8) {
        lemma_total_constant(pixels, pixels[0]);
        lemma_pack_bits_all_clear(average_bits(pixels));
        let v = intensities(pixels);
        v.lemma_sort_by_ensures(ascending());
        lemma_sorted_unique(v, v.sort_by(ascending()), ascending());
        lemma_pack_bits_all_clear(median_bits(pixels));
    }
    if canvas.fits(9, 8) {
        lemma_pack_bits_all_clear(difference_bits(pixels));
    }
}

} // verus!
