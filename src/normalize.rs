//! Decoding images and shrinking them to the grayscale canvas an algorithm reads.
use crate::canvas::Canvas;
use crate::config::{Algorithm, FilterChoice};
use image::imageops::FilterType;
use image::DynamicImage;
use vstd::prelude::*;

verus! {

/// A decoded image of any pixel format.
#[verifier::external_type_specification]
#[verifier::external_body]
pub struct ExDynamicImage(DynamicImage);

/// Whether the bytes start with the signature of an image format the
/// decoder knows, and decode as an image of that format.
pub uninterp spec fn decodes(bytes: Seq<u8>) -> bool;

/// The grayscale intensities, row by row, that resizing `image` exactly to
/// `width` x `height` with `filter` and converting it to 8-bit luma gives.
/// Only stated for the filters whose sampling is plain arithmetic.
pub uninterp spec fn gray_pixels_of(
    image: DynamicImage,
    filter: FilterChoice,
    width: u32,
    height: u32,
) -> Seq<u8>;

/// Resampling with this filter uses only arithmetic, comparisons and
/// rounding, with no transcendental functions whose precision may vary.
pub open spec fn exact_filter(filter: FilterChoice) -> bool {
    filter == FilterChoice::Nearest || filter == FilterChoice::Triangle
}

/// Relies on `image::guess_format`, which picks a format from the built-in
/// table of leading signatures, and `image::load_from_memory_with_format`,
/// which decodes with that built-in format and consults no registered hook;
/// so whether decoding succeeds depends on the bytes alone.
#[verifier::external_body]
fn decode_image(bytes: &[u8]) -> (r: Option<DynamicImage>)
    ensures
        r is Some <==> decodes(bytes@),
{
    match image::guess_format(bytes) {
        Ok(format) => image::load_from_memory_with_format(bytes, format).ok(),
        Err(_) => None,
    }
}

/// Relies on `DynamicImage::resize_exact`, whose result is exactly `width` by
/// `height` pixels, and on `grayscale` and `to_luma8`, which keep the
/// dimensions and give one 8-bit intensity per pixel, row by row. With the
/// nearest-neighbour (box) and triangle kernels the pixels are a function of
/// the image, the filter and the size.
#[verifier::external_body]
fn resize_grayscale(image: &DynamicImage, filter: FilterChoice, width: u32, height: u32) -> (r:
    Canvas)
    requires
        0 < width <= 64,
        0 < height <= 64,
    ensures
        r.fits(width as int, height as int),
        exact_filter(filter) ==> r.pixels@ == gray_pixels_of(*image, filter, width, height),
{
    let filter = match filter {
        FilterChoice::Nearest => FilterType::Nearest,
        FilterChoice::Triangle => FilterType::Triangle,
        FilterChoice::CatmullRom => FilterType::CatmullRom,
        FilterChoice::Gaussian => FilterType::Gaussian,
        FilterChoice::Lanczos3 => FilterType::Lanczos3,
    };
    let gray = image.resize_exact(width, height, filter).grayscale().to_luma8();
    Canvas { width: gray.width(), height: gray.height(), pixels: gray.into_raw() }
}

/// Resizes `image` exactly (ignoring its aspect ratio) to the canvas that
/// `algo` reads, with the given resampling filter, and converts it to
/// grayscale.
pub fn proc(image: &DynamicImage, filter: FilterChoice, algo: Algorithm) -> (r: Canvas)
    ensures
        r.fits(algo.spec_width() as int, algo.spec_height() as int),
        exact_filter(filter) ==> r.pixels@ == gray_pixels_of(
            *image,
            filter,
            algo.spec_width(),
            algo.spec_height(),
        ),
{
    let (width, height) = algo.canvas_size();
    resize_grayscale(image, filter, width, height)
}

/// Decodes an image file's bytes and normalizes the image for `algo`. Gives
/// nothing exactly when the bytes are not an image the decoder understands.
pub fn normalize_bytes(bytes: &[u8], filter: FilterChoice, algo: Algorithm) -> (r: Option<Canvas>)
    ensures
        r is Some <==> decodes(bytes@),
        r matches Some(c) ==> c.fits(algo.spec_width() as int, algo.spec_height() as int),
        r matches Some(c) ==> exact_filter(filter) ==> exists|image: DynamicImage|
            c.pixels@ == #[trigger] gray_pixels_of(
                image,
                filter,
                algo.spec_width(),
                algo.spec_height(),
            ),
{
    match decode_image(bytes) {
        Some(image) => Some(proc(&image, filter, algo)),
        None => None,
    }
}

} // verus!
