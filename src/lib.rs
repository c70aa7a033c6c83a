//! A codec for uncompressed 24-bit bitmap images: pixel grids to the
//! conventional on-disk byte layout and back.

pub mod geometry;
pub mod models;
pub mod repr;
pub mod codec;

pub use geometry::{calculate_image_size, calculate_row_length};

pub use codec::DecodeError;
pub use models::{BMPixel, Bmp, BoundingBox};
pub use repr::{FileHeader, InfoHeader, Ode5Bmp};
