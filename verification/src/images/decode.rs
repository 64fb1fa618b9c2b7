//! Decoding PNG, JPEG, GIF, WebP and BMP into RGBA, with the pixel budget held
//! against the header before there is any room for pixels.

use crate::error::ClipboardError;
use crate::images::encode::check_pixel_budget;
use crate::images::encode::MAX_IMAGE_PIXELS;
use vstd::prelude::*;

verus! {

/// The size that the header of an image file gives; `None` where the bytes are
/// no image file of a known format.
pub uninterp spec fn image_size(b: Seq<u8>) -> Option<(u32, u32)>;

/// The RGBA pixels of an image file and their size; `None` where it cannot be
/// decoded, or not within the limits.
pub uninterp spec fn image_pixels(
    b: Seq<u8>,
    max_width: u32,
    max_height: u32,
    max_alloc: u64,
) -> Option<(Seq<u8>, u32, u32)>;

/// `image::ImageReader::into_dimensions` once `with_guessed_format` has told
/// the format, without limits: the size depends on the bytes alone.
#[verifier::external_body]
fn header_size(bytes: &[u8]) -> (r: Option<(u32, u32)>)
    ensures
        r == image_size(bytes@),
{
    let cursor = std::io::Cursor::new(bytes);
    let mut header = image::ImageReader::new(cursor).with_guessed_format().ok()?;
    header.format()?;
    header.limits(image::Limits::no_limits());
    header.into_dimensions().ok()
}

/// `image::ImageReader::decode` once `with_guessed_format` has told the format,
/// then `DynamicImage::into_rgba8`: the pixels depend on the bytes and the
/// limits alone. The limits on width and height are strict.
#[verifier::external_body]
fn decode_within(bytes: &[u8], max_width: u32, max_height: u32, max_alloc: u64) -> (r: Option<
    (Vec<u8>, u32, u32),
>)
    ensures
        match r {
            Some((px, w, h)) => image_pixels(bytes@, max_width, max_height, max_alloc) == Some(
                (px@, w, h),
            ) && w <= max_width && h <= max_height,
            None => image_pixels(bytes@, max_width, max_height, max_alloc) is None,
        },
{
    let cursor = std::io::Cursor::new(bytes);
    let mut reader = image::ImageReader::new(cursor).with_guessed_format().ok()?;
    let mut limits = image::Limits::default();
    limits.max_image_width = Some(max_width);
    limits.max_image_height = Some(max_height);
    limits.max_alloc = Some(max_alloc);
    reader.limits(limits);
    let rgba = reader.decode().ok()?.into_rgba8();
    let (w, h) = rgba.dimensions();
    Some((rgba.into_raw(), w, h))
}

/// Memory that a decoder may take: the budget in RGBA, twice, for its own
/// buffers.
pub const MAX_DECODE_BYTES: u64 = MAX_IMAGE_PIXELS * 4 * 2;

/// What becomes of an image file: its pixels, nothing where it is none, or the
/// size that is over the budget.
pub open spec fn decoded(b: Seq<u8>) -> Result<Option<(Seq<u8>, u32, u32)>, (u32, u32)> {
    match image_size(b) {
        Some((w, h)) => if w * h > MAX_IMAGE_PIXELS {
            Err((w, h))
        } else {
            Ok(image_pixels(b, w, h, MAX_DECODE_BYTES))
        },
        None => Ok(None),
    }
}

/// Decodes an image file into RGBA. `Ok(None)` where the bytes are no image of
/// a known format, `Err` only for an image over the pixel budget.
pub fn decode_rgba(bytes: &[u8]) -> (r: Result<Option<(Vec<u8>, u32, u32)>, ClipboardError>)
    ensures
        match r {
            Ok(Some((px, w, h))) => decoded(bytes@) == Ok::<_, (u32, u32)>(Some((px@, w, h))) && w
                * h <= MAX_IMAGE_PIXELS,
            Ok(None) => decoded(bytes@) == Ok::<Option<(Seq<u8>, u32, u32)>, (u32, u32)>(None),
            Err(e) => e matches ClipboardError::ImageTooLarge { width, height } && decoded(bytes@)
                == Err::<Option<(Seq<u8>, u32, u32)>, _>((width, height)),
        },
{
    let (width, height) = match header_size(bytes) {
        Some(size) => size,
        None => {
            return Ok(None);
        },
    };
    match check_pixel_budget(width, height) {
        Ok(_) => {},
        Err(e) => {
            return Err(e);
        },
    }
    match decode_within(bytes, width, height, MAX_DECODE_BYTES) {
        Some((px, w, h)) => {
            assert(w * h <= width * height) by (nonlinear_arith)
                requires
                    0 <= w <= width,
                    0 <= h <= height,
            ;
            Ok(Some((px, w, h)))
        },
        None => Ok(None),
    }
}

} // verus!
