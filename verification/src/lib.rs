//! Stacks encoded images into one tall image and compresses the result to
//! JPEG, lowering the quality until the output fits a size budget.

pub mod composer;
pub mod encoder;
pub mod loader;
pub mod merge;
pub mod raster;

pub use merge::{merge_decoded, merge_images_vertically};
