//! Grayscale conversion with the `image` crate's luma reduction.
use vstd::prelude::*;

use crate::codec::decode;
use crate::codec::decoded_image;
use crate::pixelify_errors::ImageProcessingError;
use crate::pixelify_errors::PixelifyError;
use crate::pixelify_image::image_outcome;
use crate::pixelify_image::lemma_next_row;
use crate::pixelify_image::lemma_pixel_index_bound;
use crate::pixelify_image::lemma_raster_complete;
use crate::pixelify_image::lemma_raster_push;
use crate::pixelify_image::push_pixel;
use crate::pixelify_image::raster;
use crate::pixelify_image::PixelifyImage;
use crate::pixelify_image::RgbaView;

verus! {

/// The sRGB luma of a colour: `(2126 r + 7152 g + 722 b) / 10000`, rounded
/// toward zero.
pub open spec fn luma(r: u8, g: u8, b: u8) -> u8 {
    ((2126 * r + 7152 * g + 722 * b) / 10000) as u8
}

/// Relies on `image::Pixel::to_luma` for `Rgb<u8>`, which computes the
/// weighted sum above in `u32` and divides by 10000.
#[verifier::external_body]
fn rgb_to_luma(r: u8, g: u8, b: u8) -> (l: u8)
    ensures
        l == luma(r, g, b),
{
    image::Pixel::to_luma(&image::Rgb([r, g, b])).0[0]
}

/// Pixel (`x`, `y`) of the grayscale raster: the source pixel's luma in the
/// red, green and blue channels, and full opacity.
pub open spec fn gray_channel(src: RgbaView) -> spec_fn(int, int, int) -> u8 {
    |x: int, y: int, c: int|
        if c == 3 {
            255u8
        } else {
            luma(src.channel(x, y, 0), src.channel(x, y, 1), src.channel(x, y, 2))
        }
}

/// The grayscale version of a raster, of the same dimensions.
pub open spec fn grayscale_view(src: RgbaView) -> RgbaView {
    raster(src.width, src.height, gray_channel(src))
}

/// Converts a raster to grayscale: each pixel's luma is replicated over the
/// red, green and blue channels, and the result is opaque, as a single
/// intensity channel carries no alpha.
pub fn grayscale(image: &PixelifyImage) -> (r: PixelifyImage)
    ensures
        r@ == grayscale_view(image@),
{
    let bytes = image.as_bytes();
    let len = bytes.len();
    let width = image.get_width();
    let height = image.get_height();
    let ghost src = image@;
    let ghost f = gray_channel(src);
    let ghost target = raster(width as nat, height as nat, f);
    let mut out: Vec<u8> = Vec::new();
    let mut y: u32 = 0;
    while y < height
        invariant
            0 <= y <= height,
            src == image@,
            src.wf(),
            bytes@ == src.pixels,
            len == bytes@.len(),
            width == src.width,
            height == src.height,
            f == gray_channel(src),
            target == raster(width as nat, height as nat, f),
            out@ == target.pixels.subrange(0, (y * width) as int * 4),
        decreases height - y,
    {
        let mut x: u32 = 0;
        while x < width
            invariant
                0 <= x <= width,
                0 <= y < height,
                src == image@,
                src.wf(),
                bytes@ == src.pixels,
                len == bytes@.len(),
                width == src.width,
                height == src.height,
                f == gray_channel(src),
                target == raster(width as nat, height as nat, f),
                out@ == target.pixels.subrange(0, (y * width + x) as int * 4),
            decreases width - x,
        {
            proof {
                lemma_pixel_index_bound(width as int, height as int, x as int, y as int);
                lemma_raster_push(width as nat, height as nat, f, x as int, y as int, out@);
            }
            let k: usize = (y as usize * width as usize + x as usize) * 4;
            let l = rgb_to_luma(bytes[k], bytes[k + 1], bytes[k + 2]);
            push_pixel(&mut out, (l, l, l, 255));
            x = x + 1;
        }
        proof {
            lemma_next_row(width as int, y as int);
        }
        y = y + 1;
    }
    proof {
        lemma_raster_complete(width as nat, height as nat, f);
    }
    PixelifyImage::new(out, width, height)
}

/// Decodes `bytes` and converts the result to grayscale.
///
/// Fails with `DecodeFailure`, under the operation `grayscale`, when the
/// bytes do not decode.
pub fn grayscale_png(bytes: &[u8]) -> (r: Result<PixelifyImage, ImageProcessingError>)
    ensures
        image_outcome(r) == match decoded_image(bytes@) {
            None => Err(PixelifyError::DecodeFailure),
            Some(img) => Ok(grayscale_view(img)),
        },
        r is Err ==> r->Err_0.op == "grayscale",
{
    let image = match decode(bytes) {
        Ok(image) => image,
        Err(_) => {
            return Err(
                ImageProcessingError::failed(
                    "grayscale",
                    PixelifyError::DecodeFailure,
                    "Failed to decode input image",
                ),
            );
        },
    };
    Ok(grayscale(&image))
}

} // verus!
