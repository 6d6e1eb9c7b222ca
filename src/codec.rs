//! Decoding encoded images into RGBA rasters and encoding rasters as PNG,
//! both done by the `image` crate.
use vstd::prelude::*;

use crate::pixelify_errors::ImageProcessingError;
use crate::pixelify_errors::PixelifyError;
use crate::pixelify_image::PixelifyImage;
use crate::pixelify_image::RgbaView;

verus! {

#[verifier::external_type_specification]
#[verifier::external_body]
pub struct ExImageError(image::ImageError);

/// What the `image` crate makes of `bytes` when it guesses their format from
/// its built-in table of magic bytes,
/// decodes them and converts the result to 8-bit RGBA: the raw bytes, the
/// width and the height, or `None` when decoding fails.
pub uninterp spec fn decoded_rgba8(bytes: Seq<u8>) -> Option<(Seq<u8>, u32, u32)>;

/// The PNG file that the `image` crate writes for an 8-bit RGBA raster, or
/// `None` when it refuses to encode it.
pub uninterp spec fn png_encoding(pixels: Seq<u8>, width: nat, height: nat) -> Option<Seq<u8>>;

/// Relies on `image::guess_format`, `image::load_from_memory_with_format` and
/// `DynamicImage::to_rgba8`. The format is taken from the built-in table of
/// magic bytes and decoded by a built-in decoder, so no decoding hook
/// registered in the process takes part: the outcome is a function of the
/// bytes alone. (The JPEG decoder's SIMD colour conversion and upsampling
/// compute the same integer formulas as its scalar code.)
#[verifier::external_body]
fn decode_rgba8(bytes: &[u8]) -> (r: Result<(Vec<u8>, u32, u32), image::ImageError>)
    ensures
        match r {
            Ok((pixels, width, height)) => decoded_rgba8(bytes@) == Some((pixels@, width, height)),
            Err(_) => decoded_rgba8(bytes@) is None,
        },
{
    let format = image::guess_format(bytes)?;
    let rgba = image::load_from_memory_with_format(bytes, format)?.to_rgba8();
    let (width, height) = rgba.dimensions();
    Ok((rgba.into_raw(), width, height))
}

/// Relies on `PngEncoder::write_image` with `ExtendedColorType::Rgba8`, which
/// panics unless the buffer holds four bytes per pixel; what it writes is a
/// function of the raster alone.
#[verifier::external_body]
fn encode_png_rgba8(pixels: &[u8], width: u32, height: u32) -> (r: Result<
    Vec<u8>,
    image::ImageError,
>)
    requires
        pixels@.len() == width * height * 4,
    ensures
        match r {
            Ok(png) => png_encoding(pixels@, width as nat, height as nat) == Some(png@),
            Err(_) => png_encoding(pixels@, width as nat, height as nat) is None,
        },
{
    let mut out: Vec<u8> = Vec::new();
    let encoder = image::codecs::png::PngEncoder::new(&mut out);
    image::ImageEncoder::write_image(encoder, pixels, width, height, image::ExtendedColorType::Rgba8)?;
    Ok(out)
}

/// The raster that `bytes` decode to, when they decode to one whose byte
/// length matches its dimensions.
pub open spec fn decoded_image(bytes: Seq<u8>) -> Option<RgbaView> {
    match decoded_rgba8(bytes) {
        Some((pixels, width, height)) => {
            if pixels.len() == width * height * 4 {
                Some(RgbaView { width: width as nat, height: height as nat, pixels })
            } else {
                None
            }
        },
        None => None,
    }
}

/// Decodes an image in any supported format into an RGBA raster.
///
/// Fails with `DecodeFailure` when the codec rejects the bytes.
pub fn decode(bytes: &[u8]) -> (r: Result<PixelifyImage, ImageProcessingError>)
    ensures
        match r {
            Ok(img) => decoded_image(bytes@) == Some(img@),
            Err(e) => decoded_image(bytes@) is None && e.kind == PixelifyError::DecodeFailure && e.op
                == "decode",
        },
{
    match decode_rgba8(bytes) {
        Ok((pixels, width, height)) => {
            proof {
                assert(width * height * 4 < 0x1_0000_0000_0000_0000_0000) by (nonlinear_arith)
                    requires
                        width < 0x1_0000_0000,
                        height < 0x1_0000_0000,
                ;
            }
            if pixels.len() as u128 == width as u128 * height as u128 * 4 {
                Ok(PixelifyImage::new(pixels, width, height))
            } else {
                Err(
                    ImageProcessingError::failed(
                        "decode",
                        PixelifyError::DecodeFailure,
                        "Bad buffer length",
                    ),
                )
            }
        },
        Err(_) => Err(
            ImageProcessingError::failed(
                "decode",
                PixelifyError::DecodeFailure,
                "Failed to decode input image",
            ),
        ),
    }
}

/// Encodes a raster as a PNG file.
///
/// Fails with `EncodeFailure` exactly when the codec refuses the raster.
pub fn encode_png(image: &PixelifyImage) -> (r: Result<Vec<u8>, ImageProcessingError>)
    ensures
        match r {
            Ok(png) => png_encoding(image@.pixels, image@.width, image@.height) == Some(png@),
            Err(e) => png_encoding(image@.pixels, image@.width, image@.height) is None && e.kind
                == PixelifyError::EncodeFailure && e.op == "encode_png",
        },
{
    let pixels = image.as_bytes();
    let width = image.get_width();
    let height = image.get_height();
    match encode_png_rgba8(pixels, width, height) {
        Ok(png) => Ok(png),
        Err(_) => Err(
            ImageProcessingError::failed(
                "encode_png",
                PixelifyError::EncodeFailure,
                "Failed to encode PNG",
            ),
        ),
    }
}

/// Re-encodes an image in any supported format as PNG.
///
/// Fails with `DecodeFailure` when the input does not decode, and with
/// `EncodeFailure` exactly when the codec refuses the decoded raster.
pub fn into_png(bytes: Vec<u8>) -> (r: Result<Vec<u8>, ImageProcessingError>)
    ensures
        match decoded_image(bytes@) {
            None => r is Err && r->Err_0.kind == PixelifyError::DecodeFailure && r->Err_0.op
                == "into_png",
            Some(img) => match r {
                Ok(png) => png_encoding(img.pixels, img.width, img.height) == Some(png@),
                Err(e) => png_encoding(img.pixels, img.width, img.height) is None && e.kind
                    == PixelifyError::EncodeFailure && e.op == "into_png",
            },
        },
{
    let image = match decode(bytes.as_slice()) {
        Ok(image) => image,
        Err(_) => {
            return Err(
                ImageProcessingError::failed(
                    "into_png",
                    PixelifyError::DecodeFailure,
                    "Failed to decode input image",
                ),
            );
        },
    };
    match encode_png(&image) {
        Ok(png) => Ok(png),
        Err(_) => Err(
            ImageProcessingError::failed(
                "into_png",
                PixelifyError::EncodeFailure,
                "Failed to encode PNG",
            ),
        ),
    }
}

} // verus!
