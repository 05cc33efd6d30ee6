//! Image transformations used by the image-processing plugins: mirroring and blurring of
//! RGBA pixel buffers, together with the checks that the host program performs before it
//! hands a buffer to a plugin.

pub mod layout;
pub mod mirror;
pub mod blur;
pub mod blur_symmetry;
pub mod error;
pub mod loader;
pub mod image_data;
pub mod cli_check;
