//! Cropping a clamped rectangle out of a raster.
use vstd::prelude::*;

use crate::codec::decode;
use crate::codec::decoded_image;
use crate::pixelify_errors::ImageProcessingError;
use crate::pixelify_errors::PixelifyError;
use crate::pixelify_image::image_outcome;
use crate::pixelify_image::lemma_next_row;
use crate::pixelify_image::lemma_pixel_index_bound;
use crate::pixelify_image::lemma_raster_complete;
use crate::pixelify_image::lemma_raster_push;
use crate::pixelify_image::push_pixel;
use crate::pixelify_image::raster;
use crate::pixelify_image::PixelifyImage;
use crate::pixelify_image::RgbaView;
use vstd::arithmetic::div_mod::lemma_fundamental_div_mod;
use vstd::arithmetic::div_mod::lemma_mod_bound;

verus! {

/// Pixel (`i`, `j`) of a crop at (`x`, `y`) is source pixel (`x + i`, `y + j`).
pub open spec fn crop_channel(src: RgbaView, x: int, y: int) -> spec_fn(int, int, int) -> u8 {
    |i: int, j: int, c: int| src.channel(x + i, y + j, c)
}

/// The requested extent, cut back so that it ends at the raster's edge.
pub open spec fn clamped_extent(requested: nat, origin: nat, extent: nat) -> nat {
    if requested <= extent - origin {
        requested
    } else {
        (extent - origin) as nat
    }
}

/// What cropping `width` x `height` at (`x`, `y`) comes to.
pub open spec fn crop_outcome(src: RgbaView, x: nat, y: nat, width: nat, height: nat) -> Result<
    RgbaView,
    PixelifyError,
> {
    if x >= src.width || y >= src.height {
        Err(PixelifyError::OutOfBounds)
    } else {
        let w = clamped_extent(width, x, src.width);
        let h = clamped_extent(height, y, src.height);
        if w == 0 || h == 0 {
            Err(PixelifyError::InvalidArgument)
        } else {
            Ok(raster(w, h, crop_channel(src, x as int, y as int)))
        }
    }
}

/// Cropping a non-empty raster to its full extent gives back the same
/// raster, byte for byte.
pub proof fn lemma_crop_full_extent(src: RgbaView)
    requires
        src.wf(),
        src.width >= 1,
        src.height >= 1,
    ensures
        crop_outcome(src, 0, 0, src.width, src.height) == Ok::<RgbaView, PixelifyError>(src),
{
    let w = src.width as int;
    let whole = raster(src.width, src.height, crop_channel(src, 0, 0));
    assert forall|i: int| 0 <= i < whole.pixels.len() implies whole.pixels[i] == src.pixels[i] by {
        let p = i / 4;
        lemma_fundamental_div_mod(i, 4);
        lemma_mod_bound(i, 4);
        lemma_fundamental_div_mod(p, w);
        assert((p / w) * w + p % w == p) by (nonlinear_arith)
            requires
                p == w * (p / w) + p % w,
        ;
        assert(whole.pixels[i] == src.channel(p % w, p / w, i % 4));
    }
    assert(whole.pixels =~= src.pixels);
}

/// Copies the `width` x `height` rectangle whose top-left pixel is at
/// (`x`, `y`) into a new raster. The rectangle is clamped to the raster's
/// right and bottom edges.
///
/// Fails with `OutOfBounds` when the origin lies outside the raster, and
/// with `InvalidArgument` when the clamped rectangle is empty.
pub fn crop(image: &PixelifyImage, x: u32, y: u32, width: u32, height: u32) -> (r: Result<
    PixelifyImage,
    ImageProcessingError,
>)
    ensures
        image_outcome(r) == crop_outcome(image@, x as nat, y as nat, width as nat, height as nat),
        x >= image@.width || y >= image@.height ==> r is Err && r->Err_0.kind
            == PixelifyError::OutOfBounds,
        r is Err ==> r->Err_0.op == "crop",
{
    let img_w = image.get_width();
    let img_h = image.get_height();
    if x >= img_w || y >= img_h {
        return Err(
            ImageProcessingError::failed("crop", PixelifyError::OutOfBounds, "Crop origin out of bounds"),
        );
    }
    let max_w = img_w - x;
    let max_h = img_h - y;
    let out_w = if width <= max_w {
        width
    } else {
        max_w
    };
    let out_h = if height <= max_h {
        height
    } else {
        max_h
    };
    if out_w == 0 || out_h == 0 {
        return Err(
            ImageProcessingError::failed("crop", PixelifyError::InvalidArgument, "Crop size is zero"),
        );
    }
    let bytes = image.as_bytes();
    let len = bytes.len();
    let ghost src = image@;
    let ghost f = crop_channel(src, x as int, y as int);
    let ghost target = raster(out_w as nat, out_h as nat, f);
    let mut out: Vec<u8> = Vec::new();
    let mut j: u32 = 0;
    while j < out_h
        invariant
            0 <= j <= out_h,
            src == image@,
            src.wf(),
            bytes@ == src.pixels,
            len == bytes@.len(),
            img_w == src.width,
            img_h == src.height,
            x + out_w <= img_w,
            y + out_h <= img_h,
            f == crop_channel(src, x as int, y as int),
            target == raster(out_w as nat, out_h as nat, f),
            out@ == target.pixels.subrange(0, (j * out_w) as int * 4),
        decreases out_h - j,
    {
        let mut i: u32 = 0;
        while i < out_w
            invariant
                0 <= i <= out_w,
                0 <= j < out_h,
                src == image@,
                src.wf(),
                bytes@ == src.pixels,
                len == bytes@.len(),
                img_w == src.width,
                img_h == src.height,
                x + out_w <= img_w,
                y + out_h <= img_h,
                f == crop_channel(src, x as int, y as int),
                target == raster(out_w as nat, out_h as nat, f),
                out@ == target.pixels.subrange(0, (j * out_w + i) as int * 4),
            decreases out_w - i,
        {
            let sx = x + i;
            let sy = y + j;
            proof {
                lemma_pixel_index_bound(img_w as int, img_h as int, sx as int, sy as int);
                lemma_raster_push(out_w as nat, out_h as nat, f, i as int, j as int, out@);
            }
            let k: usize = (sy as usize * img_w as usize + sx as usize) * 4;
            push_pixel(&mut out, (bytes[k], bytes[k + 1], bytes[k + 2], bytes[k + 3]));
            i = i + 1;
        }
        proof {
            lemma_next_row(out_w as int, j as int);
        }
        j = j + 1;
    }
    proof {
        lemma_raster_complete(out_w as nat, out_h as nat, f);
    }
    Ok(PixelifyImage::new(out, out_w, out_h))
}

/// Decodes `bytes` and crops the result as [`crop`] does.
///
/// Fails with `DecodeFailure` when the bytes do not decode. Every error
/// names the operation `crop`.
pub fn crop_png(bytes: &[u8], x: u32, y: u32, width: u32, height: u32) -> (r: Result<
    PixelifyImage,
    ImageProcessingError,
>)
    ensures
        image_outcome(r) == match decoded_image(bytes@) {
            None => Err(PixelifyError::DecodeFailure),
            Some(img) => crop_outcome(img, x as nat, y as nat, width as nat, height as nat),
        },
        r is Err ==> r->Err_0.op == "crop",
{
    let image = match decode(bytes) {
        Ok(image) => image,
        Err(_) => {
            return Err(
                ImageProcessingError::failed(
                    "crop",
                    PixelifyError::DecodeFailure,
                    "Failed to decode input image",
                ),
            );
        },
    };
    crop(&image, x, y, width, height)
}

} // verus!
