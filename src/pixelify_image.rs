//! The RGBA raster type, its mathematical model, and lemmas on building a
//! raster in row-major order.
use vstd::arithmetic::div_mod::lemma_fundamental_div_mod_converse;
use vstd::prelude::*;

use crate::pixelify_errors::ImageProcessingError;
use crate::pixelify_errors::PixelifyError;

verus! {

/// The mathematical value of an RGBA raster: its dimensions and its bytes,
/// row-major from the top-left corner, four channels (R, G, B, A) per pixel.
pub struct RgbaView {
    pub width: nat,
    pub height: nat,
    pub pixels: Seq<u8>,
}

impl RgbaView {
    /// The byte sequence holds exactly four bytes per pixel.
    pub open spec fn wf(self) -> bool {
        self.pixels.len() == self.width * self.height * 4
    }

    /// Channel `c` of the pixel in column `x`, row `y`.
    pub open spec fn channel(self, x: int, y: int, c: int) -> u8 {
        self.pixels[(y * self.width + x) * 4 + c]
    }
}

/// The `width` x `height` raster whose channel `c` at column `x`, row `y` is
/// `f(x, y, c)`.
pub open spec fn raster(width: nat, height: nat, f: spec_fn(int, int, int) -> u8) -> RgbaView {
    RgbaView {
        width,
        height,
        pixels: Seq::new(
            (width * height * 4) as nat,
            |i: int| f(i / 4 % (width as int), i / 4 / (width as int), i % 4),
        ),
    }
}

/// What an operation producing a raster came to: the raster's value, or the
/// kind of its error.
pub open spec fn image_outcome(r: Result<PixelifyImage, ImageProcessingError>) -> Result<
    RgbaView,
    PixelifyError,
> {
    match r {
        Ok(img) => Ok(img@),
        Err(e) => Err(e.kind),
    }
}

/// The first byte of the pixel at column `x`, row `y` lies inside the raster,
/// four bytes before its end at the latest.
pub proof fn lemma_pixel_index_bound(width: int, height: int, x: int, y: int)
    requires
        0 <= x < width,
        0 <= y < height,
    ensures
        0 <= y * width + x < width * height,
        0 <= (y * width + x) * 4,
        (y * width + x) * 4 + 4 <= width * height * 4,
{
    assert(0 <= y * width) by (nonlinear_arith)
        requires
            0 <= y,
            0 <= width,
    ;
    assert(y * width + x < width * height) by (nonlinear_arith)
        requires
            0 <= x < width,
            0 <= y < height,
    ;
}

/// Going on to the next row moves the row-major position by one width.
pub proof fn lemma_next_row(width: int, y: int)
    ensures
        (y + 1) * width == y * width + width,
{
    assert((y + 1) * width == y * width + width) by (nonlinear_arith);
}

/// Channel `c` at column `x`, row `y` of a raster is `f(x, y, c)`.
pub proof fn lemma_raster_channel(
    width: nat,
    height: nat,
    f: spec_fn(int, int, int) -> u8,
    x: int,
    y: int,
    c: int,
)
    requires
        0 <= x < width,
        0 <= y < height,
        0 <= c < 4,
    ensures
        raster(width, height, f).wf(),
        0 <= (y * width + x) * 4 + c < width * height * 4,
        raster(width, height, f).pixels[(y * width + x) * 4 + c] == f(x, y, c),
        raster(width, height, f).channel(x, y, c) == f(x, y, c),
{
    lemma_pixel_index_bound(width as int, height as int, x, y);
    let p = y * width + x;
    let i = p * 4 + c;
    lemma_fundamental_div_mod_converse(i, 4, p, c);
    lemma_fundamental_div_mod_converse(p, width as int, y, x);
}

/// A raster built in row-major order grows by one pixel: the four channels of
/// column `x`, row `y`.
pub proof fn lemma_raster_push(
    width: nat,
    height: nat,
    f: spec_fn(int, int, int) -> u8,
    x: int,
    y: int,
    prefix: Seq<u8>,
)
    requires
        0 <= x < width,
        0 <= y < height,
        prefix == raster(width, height, f).pixels.subrange(0, (y * width + x) * 4),
    ensures
        prefix + seq![f(x, y, 0), f(x, y, 1), f(x, y, 2), f(x, y, 3)] == raster(
            width,
            height,
            f,
        ).pixels.subrange(0, (y * width + x) * 4 + 4),
{
    let full = raster(width, height, f).pixels;
    let k = (y * width + x) * 4;
    lemma_raster_channel(width, height, f, x, y, 0);
    lemma_raster_channel(width, height, f, x, y, 1);
    lemma_raster_channel(width, height, f, x, y, 2);
    lemma_raster_channel(width, height, f, x, y, 3);
    assert(prefix + seq![f(x, y, 0), f(x, y, 1), f(x, y, 2), f(x, y, 3)] =~= full.subrange(
        0,
        k + 4,
    ));
}

/// Once every row is built, the row-major prefix is the whole raster.
pub proof fn lemma_raster_complete(width: nat, height: nat, f: spec_fn(int, int, int) -> u8)
    ensures
        raster(width, height, f).pixels.subrange(0, (height * width) as int * 4) == raster(
            width,
            height,
            f,
        ).pixels,
{
    assert(height * width == width * height) by (nonlinear_arith);
    assert(raster(width, height, f).pixels.subrange(0, (height * width) as int * 4) =~= raster(
        width,
        height,
        f,
    ).pixels);
}

/// Appends one RGBA pixel.
pub(crate) fn push_pixel(out: &mut Vec<u8>, p: (u8, u8, u8, u8))
    ensures
        final(out)@ == old(out)@ + seq![p.0, p.1, p.2, p.3],
{
    out.push(p.0);
    out.push(p.1);
    out.push(p.2);
    out.push(p.3);
    assert(final(out)@ =~= old(out)@ + seq![p.0, p.1, p.2, p.3]);
}

/// The dimensions of a raster.
pub struct PixelifyOptions {
    width: u32,
    height: u32,
}

/// An owned RGBA raster whose byte length always matches its dimensions.
pub struct PixelifyImage {
    pixels: Vec<u8>,
    options: PixelifyOptions,
}

impl View for PixelifyImage {
    type V = RgbaView;

    closed spec fn view(&self) -> RgbaView {
        RgbaView {
            width: self.options.width as nat,
            height: self.options.height as nat,
            pixels: self.pixels@,
        }
    }
}

impl PixelifyImage {
    #[verifier::type_invariant]
    spec fn inv(self) -> bool {
        self@.wf()
    }

    /// Wraps `bytes` as a `width` x `height` raster.
    pub fn new(bytes: Vec<u8>, width: u32, height: u32) -> (r: PixelifyImage)
        requires
            bytes@.len() == width * height * 4,
        ensures
            r@ == (RgbaView { width: width as nat, height: height as nat, pixels: bytes@ }),
    {
        PixelifyImage { pixels: bytes, options: PixelifyOptions { width, height } }
    }

    /// The raw RGBA bytes.
    pub fn as_bytes(&self) -> (r: &[u8])
        ensures
            r@ == self@.pixels,
            self@.wf(),
    {
        proof {
            use_type_invariant(self);
        }
        self.pixels.as_slice()
    }

    pub fn get_width(&self) -> (r: u32)
        ensures
            r == self@.width,
            self@.wf(),
    {
        proof {
            use_type_invariant(self);
        }
        self.options.width
    }

    pub fn get_height(&self) -> (r: u32)
        ensures
            r == self@.height,
            self@.wf(),
    {
        proof {
            use_type_invariant(self);
        }
        self.options.height
    }
}

} // verus!
