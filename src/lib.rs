//! Pixel-art styling of RGBA rasters: block averaging, true and false
//! downscaling, downscaling to a target size, cropping and grayscale.

pub mod pixelify_errors;
pub mod pixelify_image;
pub mod pixelify;
pub mod codec;
pub mod crop;
pub mod grayscale;
