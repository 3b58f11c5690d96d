use imgdd::config::{select_algo, select_filter_type, Algorithm, FilterChoice};
use imgdd::error::ImgddError;
use imgdd::validate::{configure_scan, validate_path, RootStatus, ScanConfig};

#[test]
fn utils_tests_test_select_filter_type() {
    assert_eq!(select_filter_type(Some("nearest")), Ok(FilterChoice::Nearest));
    assert_eq!(select_filter_type(Some("triangle")), Ok(FilterChoice::Triangle));
    assert_eq!(select_filter_type(Some("catmullrom")), Ok(FilterChoice::CatmullRom));
    assert_eq!(select_filter_type(Some("gaussian")), Ok(FilterChoice::Gaussian));
    assert_eq!(select_filter_type(Some("lanczos3")), Ok(FilterChoice::Lanczos3));
    let result = select_filter_type(Some("unsupported"));
    assert!(result.is_err(), "Expected an error for unsupported filter type");
}

#[test]
fn utils_tests_test_select_algo() {
    assert_eq!(select_algo(Some("dhash")), Ok(Algorithm::DHash));
    assert_eq!(select_algo(Some("ahash")), Ok(Algorithm::AHash));
    assert_eq!(select_algo(Some("mhash")), Ok(Algorithm::MHash));
    assert_eq!(select_algo(Some("phash")), Ok(Algorithm::PHash));
    assert_eq!(select_algo(Some("whash")), Ok(Algorithm::WHash));
    let result = select_algo(Some("unsupported"));
    assert!(result.is_err(), "Expected an error for unsupported algorithm");
}

#[test]
fn selection_ignores_ascii_case_and_has_defaults() {
    assert_eq!(select_algo(Some("dHash")), Ok(Algorithm::DHash));
    assert_eq!(select_algo(Some("WHASH")), Ok(Algorithm::WHash));
    assert_eq!(select_filter_type(Some("CatmullRom")), Ok(FilterChoice::CatmullRom));
    assert_eq!(select_filter_type(Some("LANCZOS3")), Ok(FilterChoice::Lanczos3));
    assert_eq!(select_algo(None), Ok(Algorithm::DHash));
    assert_eq!(select_filter_type(None), Ok(FilterChoice::Nearest));
    assert_eq!(select_algo(Some("bhash")), Err(ImgddError::UnsupportedAlgorithm));
    assert_eq!(select_algo(Some("dhash ")), Err(ImgddError::UnsupportedAlgorithm));
    assert_eq!(select_filter_type(Some("")), Err(ImgddError::UnsupportedFilter));
}

#[test]
fn canvas_sizes_per_algorithm() {
    assert_eq!(Algorithm::DHash.canvas_size(), (9, 8));
    assert_eq!(Algorithm::AHash.canvas_size(), (8, 8));
    assert_eq!(Algorithm::MHash.canvas_size(), (8, 8));
    assert_eq!(Algorithm::WHash.canvas_size(), (8, 8));
    assert_eq!(Algorithm::PHash.canvas_size(), (32, 32));
}

#[test]
fn test_validate_path_valid() {
    assert!(validate_path(RootStatus::Directory).is_ok(), "Valid path should pass");
}

#[test]
fn test_validate_path_invalid() {
    assert!(validate_path(RootStatus::Missing).is_err(), "Invalid path should fail");
}

#[test]
fn validate_path_names_each_failure() {
    assert_eq!(validate_path(RootStatus::Missing), Err(ImgddError::PathDoesNotExist));
    assert_eq!(validate_path(RootStatus::NotADirectory), Err(ImgddError::PathNotADirectory));
}

#[test]
fn rust_tests_test_hash_with_invalid_path() {
    let result = configure_scan(RootStatus::Missing, Some("nearest"), Some("dhash"));
    assert!(result.is_err(), "Expected error for invalid path: {:?}", result);
}

#[test]
fn rust_tests_test_dupes_with_invalid_path() {
    let result = configure_scan(RootStatus::Missing, Some("nearest"), Some("dhash"));
    assert!(result.is_err(), "Expected error for invalid path: {:?}", result);
}

#[test]
fn configure_scan_checks_root_then_filter_then_algorithm() {
    assert_eq!(
        configure_scan(RootStatus::Directory, Some("Triangle"), Some("aHash")),
        Ok(ScanConfig { filter: FilterChoice::Triangle, algo: Algorithm::AHash })
    );
    assert_eq!(
        configure_scan(RootStatus::Missing, Some("bogus"), Some("bogus")),
        Err(ImgddError::PathDoesNotExist)
    );
    assert_eq!(
        configure_scan(RootStatus::Directory, Some("bogus"), Some("bogus")),
        Err(ImgddError::UnsupportedFilter)
    );
    assert_eq!(
        configure_scan(RootStatus::Directory, None, Some("bogus")),
        Err(ImgddError::UnsupportedAlgorithm)
    );
}

#[test]
fn rust_tests_test_select_filter_type() {
    assert_eq!(select_filter_type(Some("nearest")), Ok(FilterChoice::Nearest));
    assert_eq!(select_filter_type(Some("triangle")), Ok(FilterChoice::Triangle));
    assert_eq!(select_filter_type(Some("catmullrom")), Ok(FilterChoice::CatmullRom));
    assert_eq!(select_filter_type(Some("gaussian")), Ok(FilterChoice::Gaussian));
    assert_eq!(select_filter_type(Some("lanczos3")), Ok(FilterChoice::Lanczos3));
    let result = select_filter_type(Some("unsupported"));
    assert!(result.is_err(), "Expected an error for unsupported filter type");
}
