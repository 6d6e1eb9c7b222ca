use pixelify::codec::{decode, encode_png, into_png};
use pixelify::crop::{crop, crop_png};
use pixelify::grayscale::{grayscale, grayscale_png};
use pixelify::pixelify::{
    downscale_by_pixel_size, downscale_by_target_size, false_downscale_by_pixel_size,
    get_average_rgba, pixelify_by_image_size, pixelify_downscale_by_pixel_size,
    pixelify_false_downscale_by_pixel_size,
};
use pixelify::pixelify_errors::{ImageProcessingError, PixelifyError};
use pixelify::pixelify_image::PixelifyImage;

fn uniform(width: u32, height: u32, px: [u8; 4]) -> PixelifyImage {
    let mut bytes = Vec::new();
    for _ in 0..width * height {
        bytes.extend_from_slice(&px);
    }
    PixelifyImage::new(bytes, width, height)
}

/// Pixel (x, y) is (x + 10 y, 20 x, 20 y, 255).
fn gradient(width: u32, height: u32) -> PixelifyImage {
    let mut bytes = Vec::new();
    for y in 0..height {
        for x in 0..width {
            bytes.extend_from_slice(&[(x + 10 * y) as u8, (20 * x) as u8, (20 * y) as u8, 255]);
        }
    }
    PixelifyImage::new(bytes, width, height)
}

fn pixel(img: &PixelifyImage, x: u32, y: u32) -> [u8; 4] {
    let k = ((y * img.get_width() + x) * 4) as usize;
    let b = img.as_bytes();
    [b[k], b[k + 1], b[k + 2], b[k + 3]]
}

fn kind<T>(r: Result<T, ImageProcessingError>) -> PixelifyError {
    match r {
        Ok(_) => panic!("expected an error"),
        Err(e) => e.kind,
    }
}

fn png_of(img: &PixelifyImage) -> Vec<u8> {
    match encode_png(img) {
        Ok(png) => png,
        Err(e) => panic!("encoding failed: {}", e.message),
    }
}

#[test]
fn downscale_white_four_by_four() {
    let img = uniform(4, 4, [255, 255, 255, 255]);
    let out = downscale_by_pixel_size(&img, 2).ok().unwrap();
    assert_eq!(out.get_width(), 2);
    assert_eq!(out.get_height(), 2);
    assert_eq!(out.as_bytes(), &[255u8; 16][..]);
}

#[test]
fn downscale_dimensions_drop_remainder() {
    let img = gradient(7, 5);
    let out = downscale_by_pixel_size(&img, 2).ok().unwrap();
    assert_eq!((out.get_width(), out.get_height()), (3, 2));
    assert_eq!(out.as_bytes().len(), 3 * 2 * 4);
}

#[test]
fn downscale_block_means_truncate() {
    // Block (1, 0) of edge 2 covers x in 2..4, y in 0..2:
    // red values 2, 3, 12, 13 -> 30 / 4 = 7.
    let img = gradient(4, 2);
    let out = downscale_by_pixel_size(&img, 2).ok().unwrap();
    assert_eq!(pixel(&out, 1, 0), [7, 50, 10, 255]);
    assert_eq!(pixel(&out, 0, 0), [5, 10, 10, 255]);
}

#[test]
fn downscale_pixel_size_equal_to_extent() {
    let img = gradient(3, 3);
    let out = downscale_by_pixel_size(&img, 3).ok().unwrap();
    assert_eq!((out.get_width(), out.get_height()), (1, 1));
    // red: 9 * 1 + 10 * 9 = 99 -> 11; green 20 * 9 = 180 -> 20; blue the same.
    assert_eq!(pixel(&out, 0, 0), [11, 20, 20, 255]);
}

#[test]
fn downscale_rejects_zero_pixel_size() {
    let img = gradient(4, 4);
    assert_eq!(kind(downscale_by_pixel_size(&img, 0)), PixelifyError::InvalidArgument);
}

#[test]
fn downscale_rejects_pixel_size_past_extent() {
    let img = gradient(8, 3);
    assert_eq!(kind(downscale_by_pixel_size(&img, 4)), PixelifyError::InvalidArgument);
}

#[test]
fn false_downscale_ten_by_ten_by_three() {
    let img = gradient(10, 10);
    let out = false_downscale_by_pixel_size(&img, 3).ok().unwrap();
    assert_eq!((out.get_width(), out.get_height()), (10, 10));
    for y in 0..10u32 {
        for x in 0..10u32 {
            if x >= 9 || y >= 9 {
                assert_eq!(pixel(&out, x, y), pixel(&img, x, y));
            } else {
                let (bx, by) = (x / 3 * 3, y / 3 * 3);
                let mut sums = [0u32; 4];
                for dy in 0..3 {
                    for dx in 0..3 {
                        let p = pixel(&img, bx + dx, by + dy);
                        for c in 0..4 {
                            sums[c] += p[c] as u32;
                        }
                    }
                }
                let expected = [
                    (sums[0] / 9) as u8,
                    (sums[1] / 9) as u8,
                    (sums[2] / 9) as u8,
                    (sums[3] / 9) as u8,
                ];
                assert_eq!(pixel(&out, x, y), expected);
            }
        }
    }
    assert_eq!(pixel(&out, 0, 0), [11, 20, 20, 255]);
    assert_eq!(pixel(&out, 2, 2), [11, 20, 20, 255]);
    assert_eq!(pixel(&out, 9, 0), [9, 180, 0, 255]);
    assert_eq!(pixel(&out, 0, 9), [90, 0, 180, 255]);
}

#[test]
fn false_downscale_keeps_dimensions() {
    let img = gradient(5, 7);
    let out = false_downscale_by_pixel_size(&img, 2).ok().unwrap();
    assert_eq!((out.get_width(), out.get_height()), (5, 7));
}

#[test]
fn false_downscale_oversized_pixel_size_is_identity() {
    let img = gradient(3, 3);
    let out = false_downscale_by_pixel_size(&img, 5).ok().unwrap();
    assert_eq!((out.get_width(), out.get_height()), (3, 3));
    assert_eq!(out.as_bytes(), img.as_bytes());
}

#[test]
fn false_downscale_rejects_zero_pixel_size() {
    let img = gradient(4, 4);
    assert_eq!(kind(false_downscale_by_pixel_size(&img, 0)), PixelifyError::InvalidArgument);
}

#[test]
fn average_of_uniform_block_is_its_colour() {
    let img = uniform(5, 5, [12, 34, 56, 78]);
    for n in 1..=5u32 {
        assert_eq!(get_average_rgba(&img, 0, 0, n).ok().unwrap(), (12, 34, 56, 78));
    }
    assert_eq!(get_average_rgba(&img, 2, 1, 3).ok().unwrap(), (12, 34, 56, 78));
}

#[test]
fn average_rounds_toward_zero() {
    let bytes = vec![10, 0, 255, 0, 20, 1, 255, 1, 30, 1, 255, 1, 41, 1, 254, 1];
    let img = PixelifyImage::new(bytes, 2, 2);
    // red 101 / 4 = 25, green 3 / 4 = 0, blue 1019 / 4 = 254, alpha 3 / 4 = 0.
    assert_eq!(get_average_rgba(&img, 0, 0, 2).ok().unwrap(), (25, 0, 254, 0));
}

#[test]
fn average_rejects_block_past_edge() {
    let img = gradient(4, 4);
    assert_eq!(kind(get_average_rgba(&img, 2, 0, 3)), PixelifyError::OutOfBounds);
    assert_eq!(kind(get_average_rgba(&img, 0, 3, 2)), PixelifyError::OutOfBounds);
    assert_eq!(kind(get_average_rgba(&img, u32::MAX, 0, 2)), PixelifyError::OutOfBounds);
}

#[test]
fn average_rejects_empty_block() {
    let img = gradient(4, 4);
    assert_eq!(kind(get_average_rgba(&img, 1, 1, 0)), PixelifyError::InvalidArgument);
}

#[test]
fn target_size_uses_smaller_block_edge() {
    // 10 / 4 = 2 and 6 / 2 = 3: the block edge is 2.
    let img = gradient(10, 6);
    let out = downscale_by_target_size(&img, 4, 2).ok().unwrap();
    assert_eq!((out.get_width(), out.get_height()), (4, 2));
    for by in 0..2u32 {
        for bx in 0..4u32 {
            let (r, g, b, a) = get_average_rgba(&img, bx * 2, by * 2, 2).ok().unwrap();
            assert_eq!(pixel(&out, bx, by), [r, g, b, a]);
        }
    }
    assert_eq!(pixel(&out, 3, 1), [(26 + 27 + 36 + 37) / 4, 130, 50, 255]);
}

#[test]
fn target_size_rejects_zero_or_oversized_target() {
    let img = gradient(4, 4);
    assert_eq!(kind(downscale_by_target_size(&img, 0, 2)), PixelifyError::InvalidArgument);
    assert_eq!(kind(downscale_by_target_size(&img, 2, 0)), PixelifyError::InvalidArgument);
    assert_eq!(kind(downscale_by_target_size(&img, 5, 2)), PixelifyError::InvalidArgument);
    assert_eq!(kind(downscale_by_target_size(&img, 2, 5)), PixelifyError::InvalidArgument);
}

#[test]
fn crop_five_by_five_clamps_to_two_by_two() {
    let img = gradient(5, 5);
    let out = crop(&img, 3, 3, 10, 10).ok().unwrap();
    assert_eq!((out.get_width(), out.get_height()), (2, 2));
    assert_eq!(pixel(&out, 0, 0), pixel(&img, 3, 3));
    assert_eq!(pixel(&out, 1, 0), pixel(&img, 4, 3));
    assert_eq!(pixel(&out, 0, 1), pixel(&img, 3, 4));
    assert_eq!(pixel(&out, 1, 1), pixel(&img, 4, 4));
    assert_eq!(pixel(&out, 1, 1), [44, 80, 80, 255]);
}

#[test]
fn crop_full_extent_is_identical() {
    let img = gradient(6, 4);
    let out = crop(&img, 0, 0, 6, 4).ok().unwrap();
    assert_eq!((out.get_width(), out.get_height()), (6, 4));
    assert_eq!(out.as_bytes(), img.as_bytes());
}

#[test]
fn crop_inner_rectangle() {
    let img = gradient(6, 4);
    let out = crop(&img, 1, 2, 3, 1).ok().unwrap();
    assert_eq!((out.get_width(), out.get_height()), (3, 1));
    assert_eq!(pixel(&out, 0, 0), [21, 20, 40, 255]);
    assert_eq!(pixel(&out, 2, 0), [23, 60, 40, 255]);
}

#[test]
fn crop_rejects_origin_outside() {
    let img = gradient(5, 5);
    assert_eq!(kind(crop(&img, 5, 0, 1, 1)), PixelifyError::OutOfBounds);
    assert_eq!(kind(crop(&img, 0, 5, 1, 1)), PixelifyError::OutOfBounds);
    assert_eq!(kind(crop(&img, 9, 9, 1, 1)), PixelifyError::OutOfBounds);
}

#[test]
fn crop_rejects_empty_rectangle() {
    let img = gradient(5, 5);
    assert_eq!(kind(crop(&img, 1, 1, 0, 3)), PixelifyError::InvalidArgument);
    assert_eq!(kind(crop(&img, 1, 1, 3, 0)), PixelifyError::InvalidArgument);
}

#[test]
fn grayscale_uses_srgb_luma() {
    let bytes = vec![255, 0, 0, 7, 0, 255, 0, 255, 0, 0, 255, 0, 200, 100, 50, 128];
    let img = PixelifyImage::new(bytes, 2, 2);
    let out = grayscale(&img);
    assert_eq!((out.get_width(), out.get_height()), (2, 2));
    // 2126 * 255 / 10000 = 54; 7152 * 255 / 10000 = 182; 722 * 255 / 10000 = 18;
    // (2126 * 200 + 7152 * 100 + 722 * 50) / 10000 = 1176500 / 10000 = 117.
    assert_eq!(pixel(&out, 0, 0), [54, 54, 54, 255]);
    assert_eq!(pixel(&out, 1, 0), [182, 182, 182, 255]);
    assert_eq!(pixel(&out, 0, 1), [18, 18, 18, 255]);
    assert_eq!(pixel(&out, 1, 1), [117, 117, 117, 255]);
}

#[test]
fn png_round_trip_keeps_pixels() {
    let img = gradient(3, 2);
    let png = png_of(&img);
    assert_eq!(&png[..8], &[0x89, b'P', b'N', b'G', 0x0d, 0x0a, 0x1a, 0x0a]);
    let back = decode(&png).ok().unwrap();
    assert_eq!((back.get_width(), back.get_height()), (3, 2));
    assert_eq!(back.as_bytes(), img.as_bytes());
}

#[test]
fn into_png_re_encodes_png() {
    let img = gradient(2, 2);
    let png = png_of(&img);
    let again = into_png(png.clone()).ok().unwrap();
    let back = decode(&again).ok().unwrap();
    assert_eq!(back.as_bytes(), img.as_bytes());
}

#[test]
fn decode_rejects_garbage() {
    assert_eq!(kind(decode(&[1, 2, 3, 4, 5])), PixelifyError::DecodeFailure);
    assert_eq!(kind(into_png(vec![0; 16])), PixelifyError::DecodeFailure);
    assert_eq!(kind(crop_png(&[9; 10], 0, 0, 1, 1)), PixelifyError::DecodeFailure);
    assert_eq!(kind(grayscale_png(&[])), PixelifyError::DecodeFailure);
}

#[test]
fn byte_entry_points_decode_then_transform() {
    let img = uniform(4, 4, [255, 255, 255, 255]);
    let png = png_of(&img);
    let out = pixelify_downscale_by_pixel_size(&png, 2).ok().unwrap();
    assert_eq!((out.get_width(), out.get_height()), (2, 2));
    assert_eq!(out.as_bytes(), &[255u8; 16][..]);

    let out = pixelify_false_downscale_by_pixel_size(&png, 3).ok().unwrap();
    assert_eq!((out.get_width(), out.get_height()), (4, 4));

    let out = pixelify_by_image_size(&png, 1, 2).ok().unwrap();
    assert_eq!((out.get_width(), out.get_height()), (1, 2));

    let out = crop_png(&png, 1, 1, 2, 5).ok().unwrap();
    assert_eq!((out.get_width(), out.get_height()), (2, 3));

    let out = grayscale_png(&png).ok().unwrap();
    assert_eq!(out.as_bytes(), &[255u8; 64][..]);
}

#[test]
fn byte_entry_points_check_sizes_before_decoding() {
    let garbage = [0u8; 4];
    assert_eq!(kind(pixelify_downscale_by_pixel_size(&garbage, 0)), PixelifyError::InvalidArgument);
    assert_eq!(
        kind(pixelify_false_downscale_by_pixel_size(&garbage, 0)),
        PixelifyError::InvalidArgument
    );
    assert_eq!(kind(pixelify_by_image_size(&garbage, 0, 3)), PixelifyError::InvalidArgument);
    assert_eq!(kind(pixelify_downscale_by_pixel_size(&garbage, 2)), PixelifyError::DecodeFailure);
}

fn op<T>(r: Result<T, ImageProcessingError>) -> &'static str {
    match r {
        Ok(_) => panic!("expected an error"),
        Err(e) => e.op,
    }
}

#[test]
fn decode_failures_name_the_calling_operation() {
    let garbage = [7u8; 12];
    assert_eq!(op(decode(&garbage)), "decode");
    assert_eq!(op(crop_png(&garbage, 0, 0, 1, 1)), "crop");
    assert_eq!(op(grayscale_png(&garbage)), "grayscale");
    assert_eq!(op(into_png(garbage.to_vec())), "into_png");
    assert_eq!(op(pixelify_downscale_by_pixel_size(&garbage, 2)), "pixelify_downscale_by_pixel_size");
    assert_eq!(
        op(pixelify_false_downscale_by_pixel_size(&garbage, 2)),
        "pixelify_false_downscale_by_pixel_size"
    );
    assert_eq!(op(pixelify_by_image_size(&garbage, 1, 1)), "pixelify_by_image_size");
}

#[test]
fn encode_refuses_empty_raster() {
    let img = PixelifyImage::new(Vec::new(), 0, 3);
    assert_eq!(kind(encode_png(&img)), PixelifyError::EncodeFailure);
    assert_eq!(op(encode_png(&img)), "encode_png");
}
