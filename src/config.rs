//! Choosing a resampling filter and a hash algorithm by name.
use crate::error::ImgddError;
use vstd::prelude::*;

verus! {

/// The resampling filter used when an image is shrunk to its canvas.
#[derive(Clone, Copy, Debug, PartialEq, Eq, Structural)]
pub enum FilterChoice {
    Nearest,
    Triangle,
    CatmullRom,
    Gaussian,
    Lanczos3,
}

/// The five fingerprint algorithms.
#[derive(Clone, Copy, Debug, PartialEq, Eq, Structural)]
pub enum Algorithm {
    /// Pixels compared with their mean.
    AHash,
    /// Pixels compared with their median.
    MHash,
    /// Each pixel compared with its right-hand neighbour.
    DHash,
    /// Low-frequency cosine-transform coefficients compared with their median.
    PHash,
    /// Haar wavelet coefficients compared with their median.
    WHash,
}

impl Algorithm {
    /// Width of the canvas the algorithm reads.
    pub open spec fn spec_width(self) -> u32 {
        match self {
            Algorithm::DHash => 9,
            Algorithm::PHash => 32,
            _ => 8,
        }
    }

    /// Height of the canvas the algorithm reads.
    pub open spec fn spec_height(self) -> u32 {
        match self {
            Algorithm::PHash => 32,
            _ => 8,
        }
    }

    /// The canvas size, `(width, height)`, that the algorithm reads.
    pub fn canvas_size(&self) -> (r: (u32, u32))
        ensures
            r == (self.spec_width(), self.spec_height()),
    {
        match self {
            Algorithm::DHash => (9, 8),
            Algorithm::PHash => (32, 32),
            _ => (8, 8),
        }
    }
}

/// `c` with an ASCII capital letter replaced by its small letter.
pub open spec fn ascii_lower(c: char) -> char {
    if 65 <= (c as u32) <= 90 {
        ((c as u32) + 32) as char
    } else {
        c
    }
}

/// `s` with every ASCII capital letter replaced by its small letter.
pub open spec fn ascii_fold(s: Seq<char>) -> Seq<char> {
    s.map_values(|c: char| ascii_lower(c))
}

/// The filter whose name `name` is, ignoring ASCII case.
pub open spec fn filter_named(name: Seq<char>) -> Option<FilterChoice> {
    if ascii_fold(name) == ascii_fold("nearest"@) {
        Some(FilterChoice::Nearest)
    } else if ascii_fold(name) == ascii_fold("triangle"@) {
        Some(FilterChoice::Triangle)
    } else if ascii_fold(name) == ascii_fold("catmullrom"@) {
        Some(FilterChoice::CatmullRom)
    } else if ascii_fold(name) == ascii_fold("gaussian"@) {
        Some(FilterChoice::Gaussian)
    } else if ascii_fold(name) == ascii_fold("lanczos3"@) {
        Some(FilterChoice::Lanczos3)
    } else {
        None
    }
}

/// The algorithm whose name `name` is, ignoring ASCII case.
pub open spec fn algorithm_named(name: Seq<char>) -> Option<Algorithm> {
    if ascii_fold(name) == ascii_fold("dhash"@) {
        Some(Algorithm::DHash)
    } else if ascii_fold(name) == ascii_fold("ahash"@) {
        Some(Algorithm::AHash)
    } else if ascii_fold(name) == ascii_fold("mhash"@) {
        Some(Algorithm::MHash)
    } else if ascii_fold(name) == ascii_fold("phash"@) {
        Some(Algorithm::PHash)
    } else if ascii_fold(name) == ascii_fold("whash"@) {
        Some(Algorithm::WHash)
    } else {
        None
    }
}

/// The outcome of choosing a filter by an optional name.
pub open spec fn filter_selection(filter: Option<&str>) -> Result<FilterChoice, ImgddError> {
    match filter {
        None => Ok(FilterChoice::Nearest),
        Some(name) => match filter_named(name@) {
            Some(choice) => Ok(choice),
            None => Err(ImgddError::UnsupportedFilter),
        },
    }
}

/// The outcome of choosing an algorithm by an optional name.
pub open spec fn algorithm_selection(algo: Option<&str>) -> Result<Algorithm, ImgddError> {
    match algo {
        None => Ok(Algorithm::DHash),
        Some(name) => match algorithm_named(name@) {
            Some(choice) => Ok(choice),
            None => Err(ImgddError::UnsupportedAlgorithm),
        },
    }
}

/// Relies on `str::eq_ignore_ascii_case`: the two strings are equal once
/// their ASCII capital letters are lowercased.
#[verifier::external_body]
fn eq_ignore_ascii_case(a: &str, b: &str) -> (r: bool)
    ensures
        r == (ascii_fold(a@) == ascii_fold(b@)),
{
    a.eq_ignore_ascii_case(b)
}

/// Picks the resampling filter by name, ignoring ASCII case; no name means
/// nearest-neighbour sampling.
pub fn select_filter_type(filter: Option<&str>) -> (r: Result<FilterChoice, ImgddError>)
    ensures
        r == filter_selection(filter),
{
    match filter {
        None => Ok(FilterChoice::Nearest),
        Some(name) => {
            if eq_ignore_ascii_case(name, "nearest") {
                Ok(FilterChoice::Nearest)
            } else if eq_ignore_ascii_case(name, "triangle") {
                Ok(FilterChoice::Triangle)
            } else if eq_ignore_ascii_case(name, "catmullrom") {
                Ok(FilterChoice::CatmullRom)
            } else if eq_ignore_ascii_case(name, "gaussian") {
                Ok(FilterChoice::Gaussian)
            } else if eq_ignore_ascii_case(name, "lanczos3") {
                Ok(FilterChoice::Lanczos3)
            } else {
                Err(ImgddError::UnsupportedFilter)
            }
        },
    }
}

/// Picks the hash algorithm by name, ignoring ASCII case; no name means the
/// difference hash.
pub fn select_algo(algo: Option<&str>) -> (r: Result<Algorithm, ImgddError>)
    ensures
        r == algorithm_selection(algo),
{
    match algo {
        None => Ok(Algorithm::DHash),
        Some(name) => {
            if eq_ignore_ascii_case(name, "dhash") {
                Ok(Algorithm::DHash)
            } else if eq_ignore_ascii_case(name, "ahash") {
                Ok(Algorithm::AHash)
            } else if eq_ignore_ascii_case(name, "mhash") {
                Ok(Algorithm::MHash)
            } else if eq_ignore_ascii_case(name, "phash") {
                Ok(Algorithm::PHash)
            } else if eq_ignore_ascii_case(name, "whash") {
                Ok(Algorithm::WHash)
            } else {
                Err(ImgddError::UnsupportedAlgorithm)
            }
        },
    }
}

} // verus!
