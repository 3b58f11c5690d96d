//! Checks made before any file is read.
use crate::config::{
    algorithm_selection,
    filter_selection,
    select_algo,
    select_filter_type,
    Algorithm,
    FilterChoice,
};
use crate::error::ImgddError;
use vstd::prelude::*;

verus! {

/// What the file system reports about the root path of a scan.
#[derive(Clone, Copy, Debug, PartialEq, Eq, Structural)]
pub enum RootStatus {
    /// Nothing exists at the path.
    Missing,
    /// Something exists at the path, but it is not a directory.
    NotADirectory,
    /// The path is a directory.
    Directory,
}

/// The verdict on a scan root: only an existing directory is accepted.
pub open spec fn root_verdict(root: RootStatus) -> Result<(), ImgddError> {
    match root {
        RootStatus::Missing => Err(ImgddError::PathDoesNotExist),
        RootStatus::NotADirectory => Err(ImgddError::PathNotADirectory),
        RootStatus::Directory => Ok(()),
    }
}

/// Accepts a scan root only when it is an existing directory.
pub fn validate_path(root: RootStatus) -> (r: Result<(), ImgddError>)
    ensures
        r == root_verdict(root),
{
    match root {
        RootStatus::Missing => Err(ImgddError::PathDoesNotExist),
        RootStatus::NotADirectory => Err(ImgddError::PathNotADirectory),
        RootStatus::Directory => Ok(()),
    }
}

/// The settings a scan runs with.
#[derive(Clone, Copy, Debug, PartialEq, Eq, Structural)]
pub struct ScanConfig {
    pub filter: FilterChoice,
    pub algo: Algorithm,
}

/// Checks a scan before any file is read: first the root path, then the
/// filter name, then the algorithm name; the first failure is reported.
pub fn configure_scan(root: RootStatus, filter: Option<&str>, algo: Option<&str>) -> (r: Result<
    ScanConfig,
    ImgddError,
>)
    ensures
        r == match root_verdict(root) {
            Err(e) => Err(e),
            Ok(_) => match filter_selection(filter) {
                Err(e) => Err(e),
                Ok(f) => match algorithm_selection(algo) {
                    Err(e) => Err(e),
                    Ok(a) => Ok(ScanConfig { filter: f, algo: a }),
                },
            },
        },
{
    match validate_path(root) {
        Err(e) => Err(e),
        Ok(_) => match select_filter_type(filter) {
            Err(e) => Err(e),
            Ok(f) => match select_algo(algo) {
                Err(e) => Err(e),
                Ok(a) => Ok(ScanConfig { filter: f, algo: a }),
            },
        },
    }
}

} // verus!
