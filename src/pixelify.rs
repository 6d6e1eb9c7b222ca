//! Block averaging and the pixelation operations built on it.
//!
//! A true downscale shrinks the raster: each `pixel_size` x `pixel_size`
//! block becomes one output pixel. A false downscale keeps the dimensions and
//! paints every full block with its average colour.
use vstd::prelude::*;

use crate::codec::decode;
use crate::codec::decoded_image;
use crate::pixelify_errors::ImageProcessingError;
use crate::pixelify_errors::PixelifyError;
use crate::pixelify_image::image_outcome;
use crate::pixelify_image::lemma_next_row;
use crate::pixelify_image::lemma_pixel_index_bound;
use crate::pixelify_image::lemma_raster_channel;
use crate::pixelify_image::lemma_raster_complete;
use crate::pixelify_image::lemma_raster_push;
use crate::pixelify_image::push_pixel;
use crate::pixelify_image::raster;
use crate::pixelify_image::PixelifyImage;
use crate::pixelify_image::RgbaView;
use vstd::arithmetic::div_mod::lemma_fundamental_div_mod;
use vstd::arithmetic::div_mod::lemma_mod_bound;

verus! {

/// Sum of channel `c` over the `cols` pixels of row `y` that start at column `x`.
pub open spec fn row_sum(src: RgbaView, x: int, y: int, c: int, cols: nat) -> nat
    decreases cols,
{
    if cols == 0 {
        0
    } else {
        row_sum(src, x, y, c, (cols - 1) as nat) + src.channel(x + cols - 1, y, c) as nat
    }
}

/// Sum of channel `c` over the `cols` x `rows` block whose top-left pixel is
/// at column `x`, row `y`.
pub open spec fn block_sum(src: RgbaView, x: int, y: int, c: int, cols: nat, rows: nat) -> nat
    decreases rows,
{
    if rows == 0 {
        0
    } else {
        block_sum(src, x, y, c, cols, (rows - 1) as nat) + row_sum(src, x, y + rows - 1, c, cols)
    }
}

/// The mean of channel `c` over the `size` x `size` block at (`x`, `y`),
/// rounded toward zero.
pub open spec fn block_average(src: RgbaView, x: int, y: int, size: nat, c: int) -> u8 {
    (block_sum(src, x, y, c, size, size) / (size * size)) as u8
}

/// What averaging the `size` x `size` block at (`x`, `y`) comes to.
pub open spec fn average_outcome(src: RgbaView, x: int, y: int, size: nat) -> Result<
    (u8, u8, u8, u8),
    PixelifyError,
> {
    if x + size > src.width || y + size > src.height {
        Err(PixelifyError::OutOfBounds)
    } else if size == 0 {
        Err(PixelifyError::InvalidArgument)
    } else {
        Ok(
            (
                block_average(src, x, y, size, 0),
                block_average(src, x, y, size, 1),
                block_average(src, x, y, size, 2),
                block_average(src, x, y, size, 3),
            ),
        )
    }
}

/// Pixel (`bx`, `by`) of the block grid is the mean of the block whose
/// top-left pixel is at (`bx * size`, `by * size`).
pub open spec fn grid_channel(src: RgbaView, size: nat) -> spec_fn(int, int, int) -> u8 {
    |bx: int, by: int, c: int| block_average(src, bx * size, by * size, size, c)
}

/// The `cols` x `rows` raster of the means of `size` x `size` blocks.
pub open spec fn block_grid(src: RgbaView, size: nat, cols: nat, rows: nat) -> RgbaView {
    raster(cols, rows, grid_channel(src, size))
}

/// What a true downscale by `pixel_size` comes to: one pixel per full block,
/// the partial blocks at the right and bottom edges dropped.
pub open spec fn downscale_outcome(src: RgbaView, pixel_size: nat) -> Result<
    RgbaView,
    PixelifyError,
> {
    if pixel_size == 0 || src.width / pixel_size == 0 || src.height / pixel_size == 0 {
        Err(PixelifyError::InvalidArgument)
    } else {
        Ok(block_grid(src, pixel_size, src.width / pixel_size, src.height / pixel_size))
    }
}

/// The block edge used to reach a target size: the smaller of the two
/// per-axis quotients, so that neither axis overruns the source.
pub open spec fn target_block_size(src: RgbaView, new_width: nat, new_height: nat) -> nat {
    let sx = src.width / new_width;
    let sy = src.height / new_height;
    if sx <= sy {
        sx
    } else {
        sy
    }
}

/// What a downscale to `new_width` x `new_height` comes to.
pub open spec fn target_size_outcome(src: RgbaView, new_width: nat, new_height: nat) -> Result<
    RgbaView,
    PixelifyError,
> {
    if new_width == 0 || new_height == 0 || new_width > src.width || new_height > src.height {
        Err(PixelifyError::InvalidArgument)
    } else {
        Ok(
            block_grid(
                src,
                target_block_size(src, new_width, new_height),
                new_width,
                new_height,
            ),
        )
    }
}

/// Pixel (`x`, `y`) of a false downscale: inside the grid of full blocks it
/// is the mean of its block, in the remainder strips the source pixel.
pub open spec fn false_channel(src: RgbaView, size: nat) -> spec_fn(int, int, int) -> u8 {
    |x: int, y: int, c: int|
        if x < (src.width / size) * size && y < (src.height / size) * size {
            block_average(src, (x / size as int) * size, (y / size as int) * size, size, c)
        } else {
            src.channel(x, y, c)
        }
}

/// What a false downscale by `pixel_size` comes to.
pub open spec fn false_downscale_outcome(src: RgbaView, pixel_size: nat) -> Result<
    RgbaView,
    PixelifyError,
> {
    if pixel_size == 0 {
        Err(PixelifyError::InvalidArgument)
    } else {
        Ok(raster(src.width, src.height, false_channel(src, pixel_size)))
    }
}

/// `count` blocks of edge `size` fit in `extent` when `count <= extent / size`.
proof fn lemma_grid_fits(count: int, size: int, extent: int)
    requires
        size > 0,
        0 <= extent,
        count <= extent / size,
    ensures
        count * size <= extent,
{
    lemma_fundamental_div_mod(extent, size);
    lemma_mod_bound(extent, size);
    assert(count * size <= extent) by (nonlinear_arith)
        requires
            extent == size * (extent / size) + extent % size,
            0 <= extent % size,
            count <= extent / size,
            size > 0,
    ;
}

/// A coordinate below the edge of a grid of `count` blocks of edge `size`
/// lies in block `x / size`, which starts at or before it.
proof fn lemma_block_of(x: int, count: int, size: int)
    requires
        size > 0,
        0 <= x < count * size,
    ensures
        0 <= x / size < count,
        0 <= (x / size) * size <= x,
{
    lemma_fundamental_div_mod(x, size);
    lemma_mod_bound(x, size);
    assert(0 <= x / size < count) by (nonlinear_arith)
        requires
            x == size * (x / size) + x % size,
            0 <= x % size < size,
            0 <= x < count * size,
            size > 0,
    ;
    let q = x / size;
    let r = x % size;
    assert(0 <= q * size <= x) by (nonlinear_arith)
        requires
            x == size * q + r,
            0 <= r,
            0 <= q,
            size > 0,
    ;
}

/// A row sum holds at most 255 per pixel.
pub proof fn lemma_row_sum_bound(src: RgbaView, x: int, y: int, c: int, cols: nat)
    ensures
        row_sum(src, x, y, c, cols) <= 255 * cols,
    decreases cols,
{
    if cols > 0 {
        lemma_row_sum_bound(src, x, y, c, (cols - 1) as nat);
    }
}

/// A block sum holds at most 255 per pixel.
pub proof fn lemma_block_sum_bound(src: RgbaView, x: int, y: int, c: int, cols: nat, rows: nat)
    ensures
        block_sum(src, x, y, c, cols, rows) <= 255 * cols * rows,
    decreases rows,
{
    if rows > 0 {
        lemma_block_sum_bound(src, x, y, c, cols, (rows - 1) as nat);
        lemma_row_sum_bound(src, x, y + rows - 1, c, cols);
        assert(255 * cols * (rows - 1) + 255 * cols == 255 * cols * rows) by (nonlinear_arith);
    }
}

proof fn lemma_uniform_row_sum(src: RgbaView, x: int, y: int, c: int, cols: nat, v: u8)
    requires
        forall|dx: int| 0 <= dx < cols ==> #[trigger] src.channel(x + dx, y, c) == v,
    ensures
        row_sum(src, x, y, c, cols) == v * cols,
    decreases cols,
{
    if cols > 0 {
        assert(src.channel(x + (cols - 1), y, c) == v);
        lemma_uniform_row_sum(src, x, y, c, (cols - 1) as nat, v);
        assert(v * (cols - 1) + v == v * cols) by (nonlinear_arith);
    } else {
        assert(v * cols == 0) by (nonlinear_arith)
            requires
                cols == 0,
        ;
    }
}

proof fn lemma_uniform_block_sum(
    src: RgbaView,
    x: int,
    y: int,
    c: int,
    cols: nat,
    rows: nat,
    v: u8,
)
    requires
        forall|dx: int, dy: int|
            0 <= dx < cols && 0 <= dy < rows ==> #[trigger] src.channel(x + dx, y + dy, c) == v,
    ensures
        block_sum(src, x, y, c, cols, rows) == v * cols * rows,
    decreases rows,
{
    if rows > 0 {
        assert forall|dx: int| 0 <= dx < cols implies #[trigger] src.channel(
            x + dx,
            y + rows - 1,
            c,
        ) == v by {
            assert(src.channel(x + dx, y + (rows - 1), c) == v);
        }
        lemma_uniform_row_sum(src, x, y + rows - 1, c, cols, v);
        lemma_uniform_block_sum(src, x, y, c, cols, (rows - 1) as nat, v);
        assert(v * cols * (rows - 1) + v * cols == v * cols * rows) by (nonlinear_arith);
    } else {
        assert(v * cols * rows == 0) by (nonlinear_arith)
            requires
                rows == 0,
        ;
    }
}

/// Averaging a block whose pixels all hold the value `v` in channel `c`
/// gives exactly `v` in that channel.
pub proof fn lemma_uniform_block_average(src: RgbaView, x: int, y: int, size: nat, c: int, v: u8)
    requires
        size >= 1,
        forall|dx: int, dy: int|
            0 <= dx < size && 0 <= dy < size ==> #[trigger] src.channel(x + dx, y + dy, c) == v,
    ensures
        block_average(src, x, y, size, c) == v,
{
    lemma_uniform_block_sum(src, x, y, c, size, size, v);
    let n = (size * size) as int;
    assert(n >= 1 && v * size * size == v * n) by (nonlinear_arith)
        requires
            size >= 1,
            n == size * size,
    ;
    assert((v * n) / n == v) by (nonlinear_arith)
        requires
            n >= 1,
    ;
}

proof fn lemma_mean_fits(sum: nat, size: nat)
    requires
        size > 0,
        sum <= 255 * size * size,
    ensures
        sum / (size * size) <= 255,
{
    assert(size * size > 0) by (nonlinear_arith)
        requires
            size > 0,
    ;
    assert(sum / (size * size) <= 255) by (nonlinear_arith)
        requires
            size * size > 0,
            sum <= 255 * size * size,
    ;
}

/// The mean colour of the `size` x `size` block at (`x`, `y`), summed from
/// the raster's bytes once the caller has checked that the block fits.
fn block_average_rgba(image: &PixelifyImage, x: u32, y: u32, size: u32) -> (r: (u8, u8, u8, u8))
    requires
        size > 0,
        x + size <= image@.width,
        y + size <= image@.height,
    ensures
        average_outcome(image@, x as int, y as int, size as nat) == Ok::<
            (u8, u8, u8, u8),
            PixelifyError,
        >(r),
{
    let bytes = image.as_bytes();
    let width = image.get_width();
    let height = image.get_height();
    let len = bytes.len();
    let ghost src = image@;
    let mut red: u128 = 0;
    let mut green: u128 = 0;
    let mut blue: u128 = 0;
    let mut alpha: u128 = 0;
    let mut dy: u32 = 0;
    assert(size * size < 0x1_0000_0000_0000_0000) by (nonlinear_arith)
        requires
            size < 0x1_0000_0000,
    ;
    while dy < size
        invariant
            0 <= dy <= size,
            bytes@ == src.pixels,
            len == bytes@.len(),
            width == src.width,
            height == src.height,
            src.wf(),
            size > 0,
            x + size <= src.width,
            y + size <= src.height,
            size * size < 0x1_0000_0000_0000_0000,
            red == block_sum(src, x as int, y as int, 0, size as nat, dy as nat),
            green == block_sum(src, x as int, y as int, 1, size as nat, dy as nat),
            blue == block_sum(src, x as int, y as int, 2, size as nat, dy as nat),
            alpha == block_sum(src, x as int, y as int, 3, size as nat, dy as nat),
            red <= 255 * size * dy,
            green <= 255 * size * dy,
            blue <= 255 * size * dy,
            alpha <= 255 * size * dy,
        decreases size - dy,
    {
        let row = y + dy;
        let mut dx: u32 = 0;
        while dx < size
            invariant
                0 <= dx <= size,
                0 <= dy < size,
                row == y + dy,
                bytes@ == src.pixels,
                len == bytes@.len(),
                width == src.width,
                height == src.height,
                src.wf(),
                x + size <= src.width,
                y + size <= src.height,
                size * size < 0x1_0000_0000_0000_0000,
                red == block_sum(src, x as int, y as int, 0, size as nat, dy as nat) + row_sum(
                    src,
                    x as int,
                    row as int,
                    0,
                    dx as nat,
                ),
                green == block_sum(src, x as int, y as int, 1, size as nat, dy as nat) + row_sum(
                    src,
                    x as int,
                    row as int,
                    1,
                    dx as nat,
                ),
                blue == block_sum(src, x as int, y as int, 2, size as nat, dy as nat) + row_sum(
                    src,
                    x as int,
                    row as int,
                    2,
                    dx as nat,
                ),
                alpha == block_sum(src, x as int, y as int, 3, size as nat, dy as nat) + row_sum(
                    src,
                    x as int,
                    row as int,
                    3,
                    dx as nat,
                ),
                red <= 255 * size * dy + 255 * dx,
                green <= 255 * size * dy + 255 * dx,
                blue <= 255 * size * dy + 255 * dx,
                alpha <= 255 * size * dy + 255 * dx,
            decreases size - dx,
        {
            let col = x + dx;
            proof {
                lemma_pixel_index_bound(src.width as int, src.height as int, col as int, row as int);
                assert(255 * size * dy + 255 * dx + 255 <= 255 * size * size) by (nonlinear_arith)
                    requires
                        dy < size,
                        dx < size,
                ;
                assert(255 * size * size < 0x1_0000_0000_0000_0000_0000) by (nonlinear_arith)
                    requires
                        size * size < 0x1_0000_0000_0000_0000,
                ;
            }
            let k: usize = (row as usize * width as usize + col as usize) * 4;
            red = red + bytes[k] as u128;
            green = green + bytes[k + 1] as u128;
            blue = blue + bytes[k + 2] as u128;
            alpha = alpha + bytes[k + 3] as u128;
            dx = dx + 1;
        }
        proof {
            assert(255 * size * dy + 255 * size == 255 * size * (dy + 1)) by (nonlinear_arith);
        }
        dy = dy + 1;
    }
    let count: u128 = size as u128 * size as u128;
    proof {
        assert(count > 0) by (nonlinear_arith)
            requires
                count == size * size,
                size > 0,
        ;
        lemma_block_sum_bound(src, x as int, y as int, 0, size as nat, size as nat);
        lemma_block_sum_bound(src, x as int, y as int, 1, size as nat, size as nat);
        lemma_block_sum_bound(src, x as int, y as int, 2, size as nat, size as nat);
        lemma_block_sum_bound(src, x as int, y as int, 3, size as nat, size as nat);
        lemma_mean_fits(red as nat, size as nat);
        lemma_mean_fits(green as nat, size as nat);
        lemma_mean_fits(blue as nat, size as nat);
        lemma_mean_fits(alpha as nat, size as nat);
    }
    ((red / count) as u8, (green / count) as u8, (blue / count) as u8, (alpha / count) as u8)
}

/// The mean colour of the `pixel_size` x `pixel_size` block whose top-left
/// pixel is at (`x`, `y`), each channel rounded toward zero.
///
/// Fails with `OutOfBounds` when the block reaches past the raster, and with
/// `InvalidArgument` when the block is empty.
pub fn get_average_rgba(image: &PixelifyImage, x: u32, y: u32, pixel_size: u32) -> (r: Result<
    (u8, u8, u8, u8),
    ImageProcessingError,
>)
    ensures
        match r {
            Ok(p) => average_outcome(image@, x as int, y as int, pixel_size as nat) == Ok::<
                (u8, u8, u8, u8),
                PixelifyError,
            >(p),
            Err(e) => average_outcome(image@, x as int, y as int, pixel_size as nat) == Err::<
                (u8, u8, u8, u8),
                PixelifyError,
            >(e.kind),
        },
{
    let width = image.get_width();
    let height = image.get_height();
    if x as u64 + pixel_size as u64 > width as u64 || y as u64 + pixel_size as u64 > height as u64 {
        return Err(
            ImageProcessingError::failed(
                "Rgba Average",
                PixelifyError::OutOfBounds,
                "Indexing would cause out of bounds error logic",
            ),
        );
    }
    if pixel_size == 0 {
        return Err(
            ImageProcessingError::failed(
                "Rgba Average",
                PixelifyError::InvalidArgument,
                "Pixel size must be a positive number",
            ),
        );
    }
    Ok(block_average_rgba(image, x, y, pixel_size))
}

/// The block grid of `cols` x `rows` blocks of edge `size`, row-major.
fn block_averages(image: &PixelifyImage, size: u32, cols: u32, rows: u32) -> (r: Vec<u8>)
    requires
        size > 0,
        cols <= image@.width / (size as nat),
        rows <= image@.height / (size as nat),
    ensures
        r@ == block_grid(image@, size as nat, cols as nat, rows as nat).pixels,
{
    let ghost src = image@;
    let ghost f = grid_channel(src, size as nat);
    let ghost grid = raster(cols as nat, rows as nat, f);
    let width = image.get_width();
    let height = image.get_height();
    let mut out: Vec<u8> = Vec::new();
    let mut by: u32 = 0;
    while by < rows
        invariant
            0 <= by <= rows,
            size > 0,
            cols <= src.width / (size as nat),
            rows <= src.height / (size as nat),
            src == image@,
            f == grid_channel(src, size as nat),
            grid == raster(cols as nat, rows as nat, f),
            width == src.width,
            height == src.height,
            out@ == grid.pixels.subrange(0, (by * cols) as int * 4),
        decreases rows - by,
    {
        let mut bx: u32 = 0;
        while bx < cols
            invariant
                0 <= bx <= cols,
                0 <= by < rows,
                size > 0,
                cols <= src.width / (size as nat),
                rows <= src.height / (size as nat),
                src == image@,
                f == grid_channel(src, size as nat),
                grid == raster(cols as nat, rows as nat, f),
                width == src.width,
                height == src.height,
                out@ == grid.pixels.subrange(0, (by * cols + bx) as int * 4),
            decreases cols - bx,
        {
            proof {
                lemma_grid_fits(cols as int, size as int, width as int);
                lemma_grid_fits(rows as int, size as int, height as int);
                assert(bx * size + size <= cols * size) by (nonlinear_arith)
                    requires
                        bx < cols,
                ;
                assert(by * size + size <= rows * size) by (nonlinear_arith)
                    requires
                        by < rows,
                ;
                lemma_raster_push(cols as nat, rows as nat, f, bx as int, by as int, out@);
            }
            let p = block_average_rgba(image, bx * size, by * size, size);
            push_pixel(&mut out, p);
            bx = bx + 1;
        }
        proof {
            lemma_next_row(cols as int, by as int);
        }
        by = by + 1;
    }
    proof {
        lemma_raster_complete(cols as nat, rows as nat, f);
    }
    out
}

/// Shrinks the raster by `pixel_size`: output pixel (`bx`, `by`) is the mean
/// of the `pixel_size` x `pixel_size` block at (`bx * pixel_size`,
/// `by * pixel_size`). Pixels left over at the right and bottom edges are
/// dropped.
///
/// Fails with `InvalidArgument` when `pixel_size` is zero or larger than
/// either dimension.
pub fn downscale_by_pixel_size(image: &PixelifyImage, pixel_size: u32) -> (r: Result<
    PixelifyImage,
    ImageProcessingError,
>)
    ensures
        image_outcome(r) == downscale_outcome(image@, pixel_size as nat),
        pixel_size == 0 ==> r is Err && r->Err_0.kind == PixelifyError::InvalidArgument,
        1 <= pixel_size <= image@.width && pixel_size <= image@.height ==> r is Ok && r->Ok_0@.width
            == image@.width / (pixel_size as nat) && r->Ok_0@.height == image@.height / (
        pixel_size as nat),
{
    if pixel_size == 0 {
        return Err(
            ImageProcessingError::failed(
                "downscale_by_pixel_size",
                PixelifyError::InvalidArgument,
                "Pixel size must be a positive number",
            ),
        );
    }
    let width = image.get_width();
    let height = image.get_height();
    let new_width = width / pixel_size;
    let new_height = height / pixel_size;
    proof {
        assert(pixel_size <= width && pixel_size <= height ==> new_width >= 1 && new_height >= 1)
            by (nonlinear_arith)
            requires
                new_width == width / pixel_size,
                new_height == height / pixel_size,
                pixel_size > 0,
        ;
    }
    if new_width == 0 || new_height == 0 {
        return Err(
            ImageProcessingError::failed(
                "downscale_by_pixel_size",
                PixelifyError::InvalidArgument,
                "Pixel size is larger than the image dimensions",
            ),
        );
    }
    let pixels = block_averages(image, pixel_size, new_width, new_height);
    Ok(PixelifyImage::new(pixels, new_width, new_height))
}

/// Downscales to `new_width` x `new_height` with square blocks whose edge is
/// the smaller of `width / new_width` and `height / new_height`.
///
/// Fails with `InvalidArgument` when a target dimension is zero or exceeds
/// the source's.
pub fn downscale_by_target_size(image: &PixelifyImage, new_width: u32, new_height: u32) -> (r:
    Result<PixelifyImage, ImageProcessingError>)
    ensures
        image_outcome(r) == target_size_outcome(image@, new_width as nat, new_height as nat),
{
    if new_width == 0 || new_height == 0 {
        return Err(
            ImageProcessingError::failed(
                "downscale_by_target_size",
                PixelifyError::InvalidArgument,
                "Width and height must be non-zero",
            ),
        );
    }
    let width = image.get_width();
    let height = image.get_height();
    if new_width > width || new_height > height {
        return Err(
            ImageProcessingError::failed(
                "downscale_by_target_size",
                PixelifyError::InvalidArgument,
                "Target width and height must not exceed the source dimensions",
            ),
        );
    }
    let size_x = width / new_width;
    let size_y = height / new_height;
    let pixel_size = if size_x <= size_y {
        size_x
    } else {
        size_y
    };
    proof {
        assert(pixel_size >= 1) by (nonlinear_arith)
            requires
                size_x == width / new_width,
                size_y == height / new_height,
                1 <= new_width <= width,
                1 <= new_height <= height,
                pixel_size == size_x || pixel_size == size_y,
        ;
        assert(new_width <= width / pixel_size && new_height <= height / pixel_size)
            by (nonlinear_arith)
            requires
                size_x == width / new_width,
                size_y == height / new_height,
                1 <= new_width,
                1 <= new_height,
                1 <= pixel_size <= size_x,
                pixel_size <= size_y,
        ;
    }
    let pixels = block_averages(image, pixel_size, new_width, new_height);
    Ok(PixelifyImage::new(pixels, new_width, new_height))
}

/// Keeps the raster's dimensions and paints every full `pixel_size` x
/// `pixel_size` block with its mean colour. Pixels in the strips at the right
/// and bottom edges that no full block covers keep their source colour; a
/// `pixel_size` larger than the raster leaves it unchanged.
///
/// Fails with `InvalidArgument` when `pixel_size` is zero.
pub fn false_downscale_by_pixel_size(image: &PixelifyImage, pixel_size: u32) -> (r: Result<
    PixelifyImage,
    ImageProcessingError,
>)
    ensures
        image_outcome(r) == false_downscale_outcome(image@, pixel_size as nat),
        pixel_size == 0 ==> r is Err && r->Err_0.kind == PixelifyError::InvalidArgument,
        pixel_size >= 1 ==> r is Ok && r->Ok_0@.width == image@.width && r->Ok_0@.height
            == image@.height,
{
    if pixel_size == 0 {
        return Err(
            ImageProcessingError::failed(
                "false_downscale_by_pixel_size",
                PixelifyError::InvalidArgument,
                "Pixel size must be a positive number",
            ),
        );
    }
    let bytes = image.as_bytes();
    let width = image.get_width();
    let height = image.get_height();
    let blocks_x = width / pixel_size;
    let blocks_y = height / pixel_size;
    let blocks = block_averages(image, pixel_size, blocks_x, blocks_y);
    proof {
        lemma_grid_fits(blocks_x as int, pixel_size as int, width as int);
        lemma_grid_fits(blocks_y as int, pixel_size as int, height as int);
    }
    let edge_x = blocks_x * pixel_size;
    let edge_y = blocks_y * pixel_size;
    let len = bytes.len();
    let blocks_len = blocks.len();
    let ghost src = image@;
    let ghost size = pixel_size as nat;
    let ghost f = false_channel(src, size);
    let ghost g = grid_channel(src, size);
    let ghost target = raster(width as nat, height as nat, f);
    let mut out: Vec<u8> = Vec::new();
    let mut y: u32 = 0;
    while y < height
        invariant
            0 <= y <= height,
            src == image@,
            src.wf(),
            size == pixel_size,
            pixel_size > 0,
            bytes@ == src.pixels,
            len == bytes@.len(),
            blocks_len == blocks@.len(),
            width == src.width,
            height == src.height,
            blocks_x == width / pixel_size,
            blocks_y == height / pixel_size,
            edge_x == blocks_x * pixel_size,
            edge_y == blocks_y * pixel_size,
            blocks@ == raster(blocks_x as nat, blocks_y as nat, g).pixels,
            f == false_channel(src, size),
            g == grid_channel(src, size),
            target == raster(width as nat, height as nat, f),
            out@ == target.pixels.subrange(0, (y * width) as int * 4),
        decreases height - y,
    {
        let mut x: u32 = 0;
        while x < width
            invariant
                0 <= x <= width,
                0 <= y < height,
                src == image@,
                src.wf(),
                size == pixel_size,
                pixel_size > 0,
                bytes@ == src.pixels,
                len == bytes@.len(),
                blocks_len == blocks@.len(),
                width == src.width,
                height == src.height,
                blocks_x == width / pixel_size,
                blocks_y == height / pixel_size,
                edge_x == blocks_x * pixel_size,
                edge_y == blocks_y * pixel_size,
                blocks@ == raster(blocks_x as nat, blocks_y as nat, g).pixels,
                f == false_channel(src, size),
                g == grid_channel(src, size),
                target == raster(width as nat, height as nat, f),
                out@ == target.pixels.subrange(0, (y * width + x) as int * 4),
            decreases width - x,
        {
            proof {
                lemma_raster_push(width as nat, height as nat, f, x as int, y as int, out@);
            }
            if x < edge_x && y < edge_y {
                let bx = x / pixel_size;
                let by = y / pixel_size;
                proof {
                    lemma_block_of(x as int, blocks_x as int, pixel_size as int);
                    lemma_block_of(y as int, blocks_y as int, pixel_size as int);
                    lemma_raster_channel(blocks_x as nat, blocks_y as nat, g, bx as int, by as int, 0);
                    lemma_raster_channel(blocks_x as nat, blocks_y as nat, g, bx as int, by as int, 1);
                    lemma_raster_channel(blocks_x as nat, blocks_y as nat, g, bx as int, by as int, 2);
                    lemma_raster_channel(blocks_x as nat, blocks_y as nat, g, bx as int, by as int, 3);
                }
                let k: usize = (by as usize * blocks_x as usize + bx as usize) * 4;
                push_pixel(&mut out, (blocks[k], blocks[k + 1], blocks[k + 2], blocks[k + 3]));
            } else {
                proof {
                    lemma_pixel_index_bound(width as int, height as int, x as int, y as int);
                }
                let k: usize = (y as usize * width as usize + x as usize) * 4;
                push_pixel(&mut out, (bytes[k], bytes[k + 1], bytes[k + 2], bytes[k + 3]));
            }
            x = x + 1;
        }
        proof {
            lemma_next_row(width as int, y as int);
        }
        y = y + 1;
    }
    proof {
        lemma_raster_complete(width as nat, height as nat, f);
    }
    Ok(PixelifyImage::new(out, width, height))
}

/// Decodes `bytes` and shrinks the result as [`downscale_by_pixel_size`]
/// does. A zero `pixel_size` is rejected before decoding.
pub fn pixelify_downscale_by_pixel_size(bytes: &[u8], pixel_size: u32) -> (r: Result<
    PixelifyImage,
    ImageProcessingError,
>)
    ensures
        image_outcome(r) == if pixel_size == 0 {
            Err(PixelifyError::InvalidArgument)
        } else {
            match decoded_image(bytes@) {
                None => Err(PixelifyError::DecodeFailure),
                Some(img) => downscale_outcome(img, pixel_size as nat),
            }
        },
        pixel_size == 0 || decoded_image(bytes@) is None ==> r is Err && r->Err_0.op
            == "pixelify_downscale_by_pixel_size",
{
    if pixel_size == 0 {
        return Err(
            ImageProcessingError::failed(
                "pixelify_downscale_by_pixel_size",
                PixelifyError::InvalidArgument,
                "Pixel size must be a positive number",
            ),
        );
    }
    let image = match decode(bytes) {
        Ok(image) => image,
        Err(_) => {
            return Err(
                ImageProcessingError::failed(
                    "pixelify_downscale_by_pixel_size",
                    PixelifyError::DecodeFailure,
                    "Failed to decode input image",
                ),
            );
        },
    };
    downscale_by_pixel_size(&image, pixel_size)
}

/// Decodes `bytes` and pixelates the result in place as
/// [`false_downscale_by_pixel_size`] does. A zero `pixel_size` is rejected
/// before decoding.
pub fn pixelify_false_downscale_by_pixel_size(bytes: &[u8], pixel_size: u32) -> (r: Result<
    PixelifyImage,
    ImageProcessingError,
>)
    ensures
        image_outcome(r) == if pixel_size == 0 {
            Err(PixelifyError::InvalidArgument)
        } else {
            match decoded_image(bytes@) {
                None => Err(PixelifyError::DecodeFailure),
                Some(img) => false_downscale_outcome(img, pixel_size as nat),
            }
        },
        pixel_size == 0 || decoded_image(bytes@) is None ==> r is Err && r->Err_0.op
            == "pixelify_false_downscale_by_pixel_size",
{
    if pixel_size == 0 {
        return Err(
            ImageProcessingError::failed(
                "pixelify_false_downscale_by_pixel_size",
                PixelifyError::InvalidArgument,
                "Pixel size must be a positive number",
            ),
        );
    }
    let image = match decode(bytes) {
        Ok(image) => image,
        Err(_) => {
            return Err(
                ImageProcessingError::failed(
                    "pixelify_false_downscale_by_pixel_size",
                    PixelifyError::DecodeFailure,
                    "Failed to decode input image",
                ),
            );
        },
    };
    false_downscale_by_pixel_size(&image, pixel_size)
}

/// Decodes `bytes` and downscales the result to `new_width` x `new_height`
/// as [`downscale_by_target_size`] does. A zero target dimension is rejected
/// before decoding.
pub fn pixelify_by_image_size(bytes: &[u8], new_width: u32, new_height: u32) -> (r: Result<
    PixelifyImage,
    ImageProcessingError,
>)
    ensures
        image_outcome(r) == if new_width == 0 || new_height == 0 {
            Err(PixelifyError::InvalidArgument)
        } else {
            match decoded_image(bytes@) {
                None => Err(PixelifyError::DecodeFailure),
                Some(img) => target_size_outcome(img, new_width as nat, new_height as nat),
            }
        },
        new_width == 0 || new_height == 0 || decoded_image(bytes@) is None ==> r is Err && r->Err_0.op
            == "pixelify_by_image_size",
{
    if new_width == 0 || new_height == 0 {
        return Err(
            ImageProcessingError::failed(
                "pixelify_by_image_size",
                PixelifyError::InvalidArgument,
                "Width and height must be non-zero",
            ),
        );
    }
    let image = match decode(bytes) {
        Ok(image) => image,
        Err(_) => {
            return Err(
                ImageProcessingError::failed(
                    "pixelify_by_image_size",
                    PixelifyError::DecodeFailure,
                    "Failed to decode input image",
                ),
            );
        },
    };
    downscale_by_target_size(&image, new_width, new_height)
}

} // verus!
