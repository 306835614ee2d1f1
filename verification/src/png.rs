//! PNG serialization of the rendered grayscale buffer, through the image
//! crate's encoder.

use vstd::prelude::*;

use crate::complex::Cx;
use crate::fixed::COORD_MAG_MAX;
use crate::render::{render_image, render_spec};

verus! {

/// The PNG byte stream the image crate's encoder writes for an 8-bit
/// grayscale buffer of the given dimensions: a fixed function of the
/// dimensions and the pixel bytes alone.
pub uninterp spec fn png_of(width: u32, height: u32, pixels: Seq<u8>) -> Seq<u8>;

/// Relies on image's PngEncoder, through ImageEncoder::write_image with
/// color type L8: the encoder reads only the dimensions and the pixel
/// bytes, so its output is a function of them alone. It panics when the
/// buffer length does not match the dimensions, so that input is excluded
/// here. The only encoding errors on this path are a zero width or height
/// (the color type is fixed and valid, and writes into a Vec cannot
/// fail), so for positive dimensions the call succeeds.
#[verifier::external_body]
fn encode_gray_png(pixels: &Vec<u8>, width: u32, height: u32) -> (r: Option<Vec<u8>>)
    requires
        pixels@.len() == (width as int) * (height as int),
    ensures
        width >= 1 && height >= 1 ==> r is Some,
        r matches Some(b) ==> b@ == png_of(width, height, pixels@),
{
    let mut out: Vec<u8> = Vec::new();
    let encoder = image::codecs::png::PngEncoder::new(&mut out);
    match image::ImageEncoder::write_image(
        encoder,
        pixels,
        width,
        height,
        image::ExtendedColorType::L8,
    ) {
        Ok(()) => Some(out),
        Err(_) => None,
    }
}

/// Serialize an 8-bit grayscale pixel buffer as a PNG through the
/// contracted encoder: the bytes are the encoder's stream for exactly
/// this buffer and these dimensions.
pub fn encode_rendered(pixels: &Vec<u8>, width: u32, height: u32) -> (r: Vec<u8>)
    requires
        1 <= width,
        1 <= height,
        pixels@.len() == (width as int) * (height as int),
    ensures
        r@ == png_of(width, height, pixels@),
{
    match encode_gray_png(pixels, width, height) {
        Some(bytes) => bytes,
        None => unreached(),
    }
}

/// Render the window onto a raster of the given bounds and serialize the
/// buffer as an 8-bit grayscale PNG: the bytes are the encoder's stream
/// for exactly the rendered buffer.
pub fn render_png(bounds: (usize, usize), upper_left: Cx, lower_right: Cx, workers: usize) -> (r:
    Vec<u8>)
    requires
        1 <= bounds.0,
        1 <= bounds.1,
        1 <= workers,
        bounds.0 <= u32::MAX,
        bounds.1 <= u32::MAX,
        (bounds.0 as int) * (bounds.1 as int) <= usize::MAX,
        upper_left.wf(),
        lower_right.wf(),
        upper_left.bounded(COORD_MAG_MAX as int),
        lower_right.bounded(COORD_MAG_MAX as int),
    ensures
        r@ == png_of(
            bounds.0 as u32,
            bounds.1 as u32,
            render_spec((bounds.0 as int), (bounds.1 as int), upper_left, lower_right),
        ),
{
    let pixels = render_image(bounds, upper_left, lower_right, workers);
    encode_rendered(&pixels, bounds.0 as u32, bounds.1 as u32)
}

} // verus!
