//! The calls into the `image` crate: luminance conversion and resampling,
//! on row-major buffers.

use vstd::prelude::*;
use crate::grid::{gray_view, rgba_view, GridView, Rgba};

verus! {

/// Luminance of a pixel with the sRGB weights, rounded down; alpha is
/// ignored.
pub open spec fn luma(p: Rgba) -> u8 {
    ((2126 * p.r + 7152 * p.g + 722 * p.b) / 10000) as u8
}

/// The luminance of every pixel of a grid.
pub open spec fn luma_view(src: GridView<Rgba>) -> GridView<u8> {
    GridView {
        width: src.width,
        height: src.height,
        rows: Seq::new(src.height, |y: int| Seq::new(src.width, |x: int| luma(src.at(x, y)))),
    }
}

/// Relies on `image::imageops::grayscale` on an RGBA buffer: the result has
/// the source's size, one byte per pixel, each `(2126 R + 7152 G + 722 B) /
/// 10000` of the source pixel (`rgb_to_luma`). The source must not be
/// empty (the pixel walk reads row 1 of a zero-width buffer).
#[verifier::external_body]
pub(crate) fn grayscale(width: u32, height: u32, data: &Vec<u8>) -> (r: Vec<u8>)
    requires
        data@.len() == 4 * (width as int * height as int),
        width >= 1,
        height >= 1,
    ensures
        r@.len() == width as int * height as int,
        gray_view(width, height, r@) == luma_view(rgba_view(width, height, data@)),
{
    let src = image::RgbaImage::from_raw(width, height, data.clone()).expect("buffer holds every pixel");
    image::imageops::grayscale(&src).into_raw()
}

/// Relies on `image::imageops::resize` with `FilterType::Gaussian` on an
/// RGBA buffer: the result is `new_width x new_height`, four bytes per
/// pixel. Its values come from f32 filtering and are not stated. The
/// source must not be empty (the filter reads its last row and column), and
/// the working buffers (`4 * width * new_height` floats, `4 * new_width * new_height`
/// bytes) must be addressable.
#[verifier::external_body]
pub(crate) fn resample(width: u32, height: u32, data: &Vec<u8>, new_width: u32, new_height: u32) -> (r: Vec<u8>)
    requires
        data@.len() == 4 * (width as int * height as int),
        width >= 1,
        height >= 1,
        new_width >= 1,
        new_height >= 1,
        16 * (width as int * new_height as int) <= isize::MAX,
        4 * (new_width as int * new_height as int) <= isize::MAX,
    ensures
        r@.len() == 4 * (new_width as int * new_height as int),
{
    let src = image::RgbaImage::from_raw(width, height, data.clone()).expect("buffer holds every pixel");
    image::imageops::resize(&src, new_width, new_height, image::imageops::FilterType::Gaussian).into_raw()
}

} // verus!
