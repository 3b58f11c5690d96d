//! Perceptual image fingerprints and duplicate detection.
//!
//! Images are reduced to small grayscale canvases, hashed to 64-bit
//! fingerprints, and grouped either by equal fingerprints or by Hamming
//! distance under a threshold.
//!
//! Each algorithm has one canvas size: the difference hash reads 9x8 pixels,
//! the average, median and wavelet hashes 8x8, and the frequency-domain hash
//! 32x32, of which the 8x8 lowest-frequency coefficients are kept. Without a
//! choice, images are resampled with the nearest-neighbour filter and hashed
//! with the difference hash. Bits are packed in row-major cell order, most
//! significant bit first. Fingerprints carry no algorithm tag: only compare
//! fingerprints made by the same algorithm.
pub mod canvas;
pub mod config;
pub mod dedupe;
pub mod distance;
pub mod error;
pub mod hashing;
pub mod near;
pub mod normalize;
pub mod text;
pub mod threshold;
pub mod validate;
pub mod wavelet;
