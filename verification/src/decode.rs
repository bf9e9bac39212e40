//! From the encoded bytes of an icon to a raster, through the image decoder.

use vstd::prelude::*;
use crate::raster::RasterImage;
use crate::trim::is_trimmed;
use crate::trim_proofs::trim_idempotent;

verus! {

/// Calls `image::load_from_memory` on the bytes and reads the picture out as
/// 8-bit RGBA (`DynamicImage::to_rgba8`, then its `width`, `height` and
/// `into_raw`); a decoder error of any kind is `None`. Nothing is claimed of
/// the outcome: which bytes decode depends on the formats and hooks known to
/// the decoder when it is called, and the buffer's length is left for the
/// caller to check.
#[verifier::external_body]
fn decode_rgba(encoded: &[u8]) -> (decoded: Option<(Vec<u8>, u32, u32)>) {
    match image::load_from_memory(encoded) {
        Ok(picture) => {
            let rgba = picture.to_rgba8();
            let width = rgba.width();
            let height = rgba.height();
            Some((rgba.into_raw(), width, height))
        },
        Err(_) => None,
    }
}

/// The decoder outcome as the contracts speak of it: the buffer by its view,
/// the sizes as integers.
pub open spec fn outcome_parts(decoded: Option<(Vec<u8>, u32, u32)>) -> Option<(Seq<u8>, int, int)> {
    match decoded {
        Some(d) => Some((d.0@, d.1 as int, d.2 as int)),
        None => None,
    }
}

/// `icon` is what a decoder outcome yields once trimmed: nothing where the
/// decoder failed or its buffer does not fit the size it reports, else the
/// trimmed form of the decoded raster.
pub open spec fn is_trimmed_icon(
    icon: Option<RasterImage>,
    decoded: Option<(Seq<u8>, int, int)>,
    threshold: u8,
) -> bool {
    match decoded {
        None => icon is None,
        Some(d) => if d.0.len() == d.1 * d.2 * 4 {
            &&& icon is Some
            &&& icon.unwrap().well_formed()
            &&& is_trimmed(icon.unwrap().parts(), d.0, d.1, d.2, threshold)
        } else {
            icon is None
        },
    }
}

/// `icon` is what a decoder outcome yields as the window's icon: nothing
/// where the decoder failed or its buffer does not fit the size it reports,
/// else the decoded raster, size and buffer unchanged.
pub open spec fn is_window_icon(icon: Option<RasterImage>, decoded: Option<(Seq<u8>, int, int)>) -> bool {
    match decoded {
        None => icon is None,
        Some(d) => if d.0.len() == d.1 * d.2 * 4 {
            &&& icon is Some
            &&& icon.unwrap().well_formed()
            &&& icon.unwrap().parts() == d
        } else {
            icon is None
        },
    }
}

/// `icon` is a well-formed raster that is its own trimmed form: it has no
/// transparent border left, so trimming it again changes nothing.
pub open spec fn is_trimmed_raster(icon: RasterImage, threshold: u8) -> bool {
    &&& icon.well_formed()
    &&& is_trimmed(icon.parts(), icon.pixels@, icon.width as int, icon.height as int, threshold)
}

/// Turns a decoder outcome into the trimmed icon. A failed decode, or a
/// buffer whose length is not `width * height * 4`, gives no icon.
pub fn trimmed_icon(decoded: Option<(Vec<u8>, u32, u32)>, threshold: u8) -> (icon: Option<
    RasterImage,
>)
    ensures
        is_trimmed_icon(icon, outcome_parts(decoded), threshold),
        icon is Some ==> is_trimmed_raster(icon.unwrap(), threshold),
{
    match decoded {
        None => None,
        Some((pixels, width, height)) => {
            match RasterImage::new(width as usize, height as usize, pixels) {
                None => None,
                Some(image) => {
                    let trimmed = image.trim(threshold);
                    proof {
                        trim_idempotent(
                            image.pixels@,
                            image.width as int,
                            image.height as int,
                            threshold,
                            trimmed.parts(),
                        );
                    }
                    Some(trimmed)
                },
            }
        },
    }
}

/// Turns a decoder outcome into the untrimmed image used as the window's
/// icon. A failed decode, or a buffer whose length is not
/// `width * height * 4`, gives no icon.
pub fn window_icon(decoded: Option<(Vec<u8>, u32, u32)>) -> (icon: Option<RasterImage>)
    ensures
        is_window_icon(icon, outcome_parts(decoded)),
{
    match decoded {
        None => None,
        Some((pixels, width, height)) => RasterImage::new(width as usize, height as usize, pixels),
    }
}

/// Decodes an encoded icon and trims its transparent border. Whether the
/// bytes decode is the decoder's to say; an icon that comes back is a
/// well-formed raster with no transparent border left.
pub fn load_trimmed_icon(encoded: &[u8], threshold: u8) -> (icon: Option<RasterImage>)
    ensures
        icon is Some ==> is_trimmed_raster(icon.unwrap(), threshold),
{
    trimmed_icon(decode_rgba(encoded), threshold)
}

/// Decodes the encoded icon for use as the window's icon, untrimmed.
/// Whether the bytes decode is the decoder's to say; an icon that comes back
/// is a well-formed raster.
pub fn load_window_icon(encoded: &[u8]) -> (icon: Option<RasterImage>)
    ensures
        icon is Some ==> icon.unwrap().well_formed(),
{
    window_icon(decode_rgba(encoded))
}

} // verus!
