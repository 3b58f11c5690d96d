use imgdd::canvas::Canvas;
use imgdd::config::Algorithm;
use imgdd::error::ImgddError;
use imgdd::hashing::ImageHash;

/// A canvas whose even columns are bright (255) and odd columns dark (0).
fn alternating_columns(width: u32, height: u32) -> Canvas {
    let mut pixels = Vec::new();
    for _y in 0..height {
        for x in 0..width {
            pixels.push(if x % 2 == 0 { 255 } else { 0 });
        }
    }
    Canvas { width, height, pixels }
}

fn uniform(width: u32, height: u32, value: u8) -> Canvas {
    Canvas { width, height, pixels: vec![value; (width * height) as usize] }
}

fn gradient() -> Canvas {
    let mut pixels = Vec::new();
    for y in 0..8u32 {
        for x in 0..8u32 {
            pixels.push((x * 30 + y * 2) as u8);
        }
    }
    Canvas { width: 8, height: 8, pixels }
}

#[test]
fn test_ahash() {
    let hash = ImageHash::ahash(&alternating_columns(8, 8)).unwrap();
    let expected_hash = 0b1010101010101010101010101010101010101010101010101010101010101010;
    assert_eq!(hash.get_hash(), expected_hash, "aHash does not match expected value");
}

#[test]
fn test_mhash() {
    let hash = ImageHash::mhash(&alternating_columns(8, 8)).unwrap();
    let expected_hash = 0b1010101010101010101010101010101010101010101010101010101010101010;
    assert_eq!(hash.get_hash(), expected_hash, "mHash does not match expected value");
}

#[test]
fn hashing_tests_test_dhash() {
    let hash = ImageHash::dhash(&alternating_columns(9, 8)).unwrap();
    let expected_hash = 0b1010101010101010101010101010101010101010101010101010101010101010;
    assert_eq!(hash.get_hash(), expected_hash, "dHash does not match expected value");
}

#[test]
fn whash_of_alternating_columns() {
    let hash = ImageHash::whash(&alternating_columns(8, 8)).unwrap();
    assert_eq!(hash.get_hash(), 0x8080_0000_0000_0000);
}

#[test]
fn whash_of_uniform_canvas_marks_only_the_average() {
    assert_eq!(ImageHash::whash(&uniform(8, 8, 100)).unwrap().get_hash(), 0x8000_0000_0000_0000);
    assert_eq!(ImageHash::whash(&uniform(8, 8, 0)).unwrap().get_hash(), 0);
}

#[test]
fn hashes_of_a_gradient() {
    let canvas = gradient();
    assert_eq!(ImageHash::ahash(&canvas).unwrap().get_hash(), 0x0f0f_0f0f_0f0f_0f0f);
    assert_eq!(ImageHash::mhash(&canvas).unwrap().get_hash(), 0x0f0f_0f0f_0f0f_0f0f);
    assert_eq!(ImageHash::whash(&canvas).unwrap().get_hash(), 0xf070_3030_0f0f_0f0f);
}

#[test]
fn mhash_sorts_before_taking_the_median() {
    // 63 dark pixels and one bright one in the first cell: the median is dark.
    let mut pixels = vec![10u8; 64];
    pixels[0] = 200;
    let canvas = Canvas { width: 8, height: 8, pixels };
    assert_eq!(ImageHash::mhash(&canvas).unwrap().get_hash(), 0x8000_0000_0000_0000);
    // Bright pixels at the end: the median is the mean of 10 and 200.
    let mut pixels = vec![10u8; 64];
    for i in 32..64 {
        pixels[i] = 200;
    }
    let canvas = Canvas { width: 8, height: 8, pixels };
    assert_eq!(ImageHash::mhash(&canvas).unwrap().get_hash(), 0x0000_0000_ffff_ffff);
}

#[test]
fn uniform_canvases_hash_to_zero() {
    for value in [0u8, 1, 127, 255] {
        assert_eq!(ImageHash::ahash(&uniform(8, 8, value)).unwrap().get_hash(), 0);
        assert_eq!(ImageHash::mhash(&uniform(8, 8, value)).unwrap().get_hash(), 0);
        assert_eq!(ImageHash::dhash(&uniform(9, 8, value)).unwrap().get_hash(), 0);
    }
}

#[test]
fn dhash_compares_with_right_neighbour() {
    // Only the first row decreases from left to right.
    let mut pixels = vec![50u8; 72];
    for x in 0..9 {
        pixels[x] = (200 - 10 * x) as u8;
    }
    let canvas = Canvas { width: 9, height: 8, pixels };
    assert_eq!(ImageHash::dhash(&canvas).unwrap().get_hash(), 0xff00_0000_0000_0000);
}

#[test]
fn wrong_canvas_size_is_an_error() {
    assert_eq!(ImageHash::ahash(&uniform(9, 8, 3)), Err(ImgddError::CanvasSize));
    assert_eq!(ImageHash::mhash(&uniform(8, 9, 3)), Err(ImgddError::CanvasSize));
    assert_eq!(ImageHash::dhash(&uniform(8, 8, 3)), Err(ImgddError::CanvasSize));
    assert_eq!(ImageHash::whash(&uniform(32, 32, 3)), Err(ImgddError::CanvasSize));
    let short = Canvas { width: 8, height: 8, pixels: vec![0; 63] };
    assert_eq!(ImageHash::ahash(&short), Err(ImgddError::CanvasSize));
}

#[test]
fn hash_canvas_dispatches_by_algorithm() {
    let square = alternating_columns(8, 8);
    let wide = alternating_columns(9, 8);
    assert_eq!(ImageHash::hash_canvas(&square, Algorithm::AHash), Some(ImageHash::ahash(&square).unwrap()));
    assert_eq!(ImageHash::hash_canvas(&square, Algorithm::MHash), Some(ImageHash::mhash(&square).unwrap()));
    assert_eq!(ImageHash::hash_canvas(&wide, Algorithm::DHash), Some(ImageHash::dhash(&wide).unwrap()));
    assert_eq!(ImageHash::hash_canvas(&square, Algorithm::WHash), Some(ImageHash::whash(&square).unwrap()));
    assert_eq!(ImageHash::hash_canvas(&square, Algorithm::DHash), None);
    assert_eq!(ImageHash::hash_canvas(&uniform(32, 32, 9), Algorithm::PHash), None);
}

#[test]
fn fingerprints_render_as_hex_and_padded_binary() {
    assert_eq!(ImageHash { hash: 0 }.to_hex(), "0");
    assert_eq!(ImageHash { hash: 0xdead_beef }.to_hex(), "deadbeef");
    assert_eq!(ImageHash { hash: 0x0f00 }.to_hex(), "f00");
    assert_eq!(ImageHash { hash: u64::MAX }.to_hex(), "ffffffffffffffff");
    let five = ImageHash { hash: 5 }.to_binary();
    assert_eq!(five.len(), 64);
    assert_eq!(five, format!("{}101", "0".repeat(61)));
    assert_eq!(ImageHash { hash: u64::MAX }.to_binary(), "1".repeat(64));
    let h = ImageHash { hash: 0x8000_0000_0000_0001 };
    assert_eq!(h.to_binary(), format!("1{}1", "0".repeat(62)));
    assert_eq!(h.to_hex(), format!("{:x}", h.get_hash()));
}
