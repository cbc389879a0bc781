//! Images and JSON, through the crates that know their formats.

use image::ImageEncoder;
use vstd::prelude::*;

verus! {

/// The pixels that `image::imageops::resize` gives an RGBA image with the nearest
/// filter.
pub uninterp spec fn resized_nearest(
    width: u32,
    height: u32,
    data: Seq<u8>,
    out_width: u32,
    out_height: u32,
) -> Seq<u8>;

/// The file that `PngEncoder::write_image` writes for RGBA pixels, where it succeeds.
pub uninterp spec fn png_file(pixels: Seq<u8>, width: u32, height: u32) -> Option<Seq<u8>>;

/// The text that a JSON document holds under a key of an object under a key of its top
/// object, as `serde_json::from_slice` reads it.
pub uninterp spec fn json_text_at(
    document: Seq<u8>,
    outer: Seq<char>,
    inner: Seq<char>,
) -> Option<Seq<char>>;

/// An optional sequence of bytes.
pub open spec fn option_bytes(v: Option<Vec<u8>>) -> Option<Seq<u8>> {
    match v {
        Some(v) => Some(v@),
        None => None,
    }
}

/// `image::imageops::resize` on an image that `RgbaImage::from_raw` accepts, which is
/// one whose bytes are enough for its size. The new pixels are a function of the old
/// image and the new size, four bytes for each.
#[verifier::external_body]
pub(crate) fn resize_nearest(
    width: u32,
    height: u32,
    data: Vec<u8>,
    out_width: u32,
    out_height: u32,
) -> (r: Option<Vec<u8>>)
    requires
        width <= 128,
        height <= 128,
        1 <= out_width <= 128,
        1 <= out_height <= 128,
    ensures
        r is Some <==> data@.len() >= width * height * 4,
        r matches Some(p) ==> p@ == resized_nearest(width, height, data@, out_width, out_height)
            && p@.len() == out_width * out_height * 4,
{
    let source = image::RgbaImage::from_raw(width, height, data)?;
    let filter = image::imageops::FilterType::Nearest;
    Some(image::imageops::resize(&source, out_width, out_height, filter).into_raw())
}

/// `PngEncoder::write_image` for RGBA pixels: whether it succeeds, and what it writes,
/// is a function of the pixels and the size.
#[verifier::external_body]
pub(crate) fn encode_png(pixels: &[u8], width: u32, height: u32) -> (r: Option<Vec<u8>>)
    requires
        1 <= width <= 128,
        1 <= height <= 128,
        pixels@.len() == width * height * 4,
    ensures
        option_bytes(r) == png_file(pixels@, width, height),
{
    let mut png = Vec::new();
    image::codecs::png::PngEncoder::new(&mut png)
        .write_image(pixels, width, height, image::ColorType::Rgba8.into())
        .ok()?;
    Some(png)
}

/// `serde_json::from_slice` and a look-up of two keys: the text found is a function of
/// the document and the keys.
#[verifier::external_body]
pub(crate) fn json_text(document: &[u8], outer: &str, inner: &str) -> (r: Option<String>)
    ensures
        (match r {
            Some(s) => Some(s@),
            None => None,
        }) == json_text_at(document@, outer@, inner@),
{
    let value = serde_json::from_slice::<serde_json::Value>(document).ok()?;
    Some(value.get(outer)?.get(inner)?.as_str()?.to_owned())
}

} // verus!
