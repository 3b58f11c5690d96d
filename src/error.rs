//! Errors reported by the library.
use vstd::prelude::*;

verus! {

/// Everything that can go wrong before or while fingerprinting.
#[derive(Clone, Copy, Debug, PartialEq, Eq, Structural)]
pub enum ImgddError {
    /// The resampling filter name is not one of the supported filters.
    UnsupportedFilter,
    /// The algorithm name is not one of the supported hash algorithms.
    UnsupportedAlgorithm,
    /// The root path does not exist.
    PathDoesNotExist,
    /// The root path exists but is not a directory.
    PathNotADirectory,
    /// A canvas does not have the dimensions the algorithm works on.
    CanvasSize,
}

} // verus!
