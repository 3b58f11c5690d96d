use image::{DynamicImage, GrayImage, ImageFormat, Luma, Rgba, RgbaImage};
use imgdd::config::{Algorithm, FilterChoice};
use imgdd::dedupe::{dupes, find_duplicates, hash, removal_list, sort_hashes};
use imgdd::hashing::ImageHash;
use imgdd::normalize::{normalize_bytes, proc};
use std::io::Cursor;

fn entry(h: u64, path: &str) -> (u64, String) {
    (h, path.to_string())
}

fn png_bytes(image: &DynamicImage) -> Vec<u8> {
    let mut bytes: Vec<u8> = Vec::new();
    image.write_to(&mut Cursor::new(&mut bytes), ImageFormat::Png).unwrap();
    bytes
}

/// A 64x48 grayscale picture that differs with `seed`.
fn picture(seed: u32) -> DynamicImage {
    DynamicImage::ImageLuma8(GrayImage::from_fn(64, 48, |x, y| {
        Luma([((x * (seed + 1) * 7 + y * (seed * 13 + 3) + seed * 31) % 256) as u8])
    }))
}

/// Decodes, normalizes and fingerprints image bytes as a scan does.
fn fingerprint(bytes: &[u8], algo: Algorithm) -> Option<u64> {
    let canvas = normalize_bytes(bytes, FilterChoice::Nearest, algo)?;
    ImageHash::hash_canvas(&canvas, algo).map(|h| h.get_hash())
}

#[test]
fn test_sort_hashes() {
    let mut hashes = vec![entry(2, "b"), entry(1, "a")];
    sort_hashes(&mut hashes);
    assert_eq!(hashes, vec![entry(1, "a"), entry(2, "b")]);
}

#[test]
fn sort_hashes_is_stable() {
    let mut hashes = vec![entry(5, "x"), entry(3, "p"), entry(5, "y"), entry(3, "q"), entry(1, "z")];
    sort_hashes(&mut hashes);
    assert_eq!(
        hashes,
        vec![entry(1, "z"), entry(3, "p"), entry(3, "q"), entry(5, "x"), entry(5, "y")]
    );
}

#[test]
fn test_find_duplicates() {
    let hash_paths = vec![entry(1, "a"), entry(1, "b"), entry(2, "c")];
    let duplicates = find_duplicates(&hash_paths);
    assert_eq!(duplicates.len(), 1);
    assert_eq!(duplicates[&1].len(), 2);
}

#[test]
fn find_duplicates_lists_each_path_of_a_run_once() {
    let hash_paths = vec![entry(1, "a"), entry(4, "b"), entry(4, "c"), entry(4, "d"), entry(9, "e")];
    let duplicates = find_duplicates(&hash_paths);
    assert_eq!(duplicates.len(), 1);
    assert_eq!(duplicates[&4], vec!["b".to_string(), "c".to_string(), "d".to_string()]);
}

#[test]
fn find_duplicates_only_joins_adjacent_entries() {
    let hash_paths = vec![entry(1, "a"), entry(2, "b"), entry(1, "c"), entry(1, "d")];
    let duplicates = find_duplicates(&hash_paths);
    assert_eq!(duplicates.len(), 1);
    assert_eq!(duplicates[&1], vec!["c".to_string(), "d".to_string()]);
    assert!(find_duplicates(&Vec::new()).is_empty());
}

#[test]
fn removal_keeps_the_first_of_a_group_of_three() {
    let hash_paths = vec![entry(7, "keep"), entry(7, "second"), entry(7, "third"), entry(8, "alone")];
    assert_eq!(removal_list(&hash_paths), vec!["second".to_string(), "third".to_string()]);
    let report = dupes(vec![entry(7, "third"), entry(8, "alone"), entry(7, "keep"), entry(7, "second")], true);
    assert_eq!(report.to_remove.len(), 2);
    assert_eq!(report.groups[&7].len(), 3);
    let kept: Vec<&String> = report.groups[&7].iter().filter(|p| !report.to_remove.contains(p)).collect();
    assert_eq!(kept, vec![&"third".to_string()]);
}

#[test]
fn hash_sorts_only_when_asked() {
    let entries = vec![entry(9, "a"), entry(2, "b"), entry(5, "c")];
    assert_eq!(hash(entries.clone(), Some(false)), entries);
    assert_eq!(hash(entries.clone(), None), entries);
    assert_eq!(hash(entries, Some(true)), vec![entry(2, "b"), entry(5, "c"), entry(9, "a")]);
}

#[test]
fn dupes_groups_equal_fingerprints_and_removes_only_when_asked() {
    let entries = vec![entry(3, "a"), entry(1, "b"), entry(3, "c"), entry(2, "d"), entry(1, "e")];
    let report = dupes(entries.clone(), false);
    assert_eq!(report.groups.len(), 2);
    assert_eq!(report.groups[&3], vec!["a".to_string(), "c".to_string()]);
    assert_eq!(report.groups[&1], vec!["b".to_string(), "e".to_string()]);
    assert!(report.to_remove.is_empty());
    let report = dupes(entries, true);
    assert_eq!(report.to_remove, vec!["e".to_string(), "c".to_string()]);
}

#[test]
fn regrouping_after_resorting_gives_the_same_groups() {
    let mut entries = vec![entry(4, "a"), entry(4, "b"), entry(6, "c"), entry(6, "d"), entry(6, "e")];
    let before = find_duplicates(&entries);
    sort_hashes(&mut entries);
    assert_eq!(find_duplicates(&entries), before);
    let reordered = vec![entry(4, "b"), entry(4, "a"), entry(6, "e"), entry(6, "c"), entry(6, "d")];
    let after = find_duplicates(&reordered);
    for (h, paths) in &before {
        let mut left = paths.clone();
        let mut right = after[h].clone();
        left.sort();
        right.sort();
        assert_eq!(left, right);
    }
    assert_eq!(after.len(), before.len());
}

#[test]
fn test_normalization() {
    let image = DynamicImage::ImageRgba8(RgbaImage::from_pixel(16, 16, Rgba([255, 0, 0, 255])));
    let normalized = proc(&image, FilterChoice::Nearest, Algorithm::DHash);
    assert_eq!(normalized.width, 9);
    assert_eq!(normalized.height, 8);
    assert_eq!(normalized.pixels.len(), 72);
    let large = proc(&image, FilterChoice::Triangle, Algorithm::PHash);
    assert_eq!((large.width, large.height, large.pixels.len()), (32, 32, 1024));
}

#[test]
fn rust_tests_test_hash_with_valid_inputs() {
    assert!(normalize_bytes(b"not a valid image", FilterChoice::Nearest, Algorithm::DHash).is_none());
    let result = hash(Vec::new(), Some(false));
    assert!(result.is_empty());
}

#[test]
fn rust_tests_test_hash_with_sorting() {
    let mut collected: Vec<(u64, String)> = Vec::new();
    for seed in 0..10u32 {
        let bytes = png_bytes(&picture(seed));
        let h = fingerprint(&bytes, Algorithm::DHash).expect("a generated picture decodes");
        collected.push((h, format!("picture_{}.png", seed)));
    }
    let hash_paths = hash(collected, Some(true));
    assert_eq!(hash_paths.len(), 10, "Expected 10 hashes, got {}", hash_paths.len());
    let sorted = hash_paths.windows(2).all(|w| w[0].0 <= w[1].0);
    assert!(sorted, "Hashes are not sorted: {:?}", hash_paths);
}

#[test]
fn rust_tests_test_dupes_with_valid_inputs() {
    let mut collected: Vec<(u64, String)> = Vec::new();
    for name in ["test_image_1.png", "test_image_2.png"] {
        if let Some(h) = fingerprint(b"not a valid image", Algorithm::DHash) {
            collected.push((h, name.to_string()));
        }
    }
    let report = dupes(collected, false);
    assert_eq!(report.groups.len(), 0, "Expected no duplicates, but found some");
}

#[test]
fn identical_files_form_one_group_of_two() {
    let same = png_bytes(&picture(3));
    let other = png_bytes(&picture(8));
    let files = [("one.png", same.clone()), ("two.png", same), ("three.png", other)];
    let mut collected: Vec<(u64, String)> = Vec::new();
    for (name, bytes) in files.iter() {
        collected.push((fingerprint(bytes, Algorithm::DHash).unwrap(), name.to_string()));
    }
    let report = dupes(collected, false);
    assert_eq!(report.groups.len(), 1);
    let group = report.groups.values().next().unwrap();
    assert_eq!(group, &vec!["one.png".to_string(), "two.png".to_string()]);
}

#[test]
fn every_integer_algorithm_fingerprints_decoded_images() {
    let bytes = png_bytes(&picture(5));
    for algo in [Algorithm::AHash, Algorithm::MHash, Algorithm::DHash, Algorithm::WHash] {
        assert!(fingerprint(&bytes, algo).is_some());
    }
    let canvas = normalize_bytes(&bytes, FilterChoice::Gaussian, Algorithm::PHash).unwrap();
    assert_eq!((canvas.width, canvas.height), (32, 32));
    assert_eq!(ImageHash::hash_canvas(&canvas, Algorithm::PHash), None);
}

#[test]
fn resorting_sorted_entries_changes_nothing() {
    let mut entries = vec![entry(1, "q"), entry(1, "p"), entry(3, "z"), entry(8, "b"), entry(8, "a")];
    let before = entries.clone();
    sort_hashes(&mut entries);
    assert_eq!(entries, before);
}
