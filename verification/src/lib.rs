//! A storage-agnostic rectangular pixel buffer with row-major-with-stride
//! addressing, zero-copy sub-rectangle views, and a byte-stream cursor that
//! walks the buffer row by row while skipping the padding columns.

pub mod cursor;
pub mod error;
pub mod image;
pub mod index;
pub mod iterator;
pub mod pixel;
pub mod region;

pub use cursor::ImageCursor;
pub use error::Error;
pub use image::Image;
pub use index::ImageIndex;
