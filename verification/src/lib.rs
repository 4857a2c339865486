//! Construction of multi-resolution image pyramids ("zoomable tile sets").
//!
//! A mosaic of fixed-size square tiles is built at its finest zoom level by
//! slicing decoded source images into 256x256 tiles, and every coarser level
//! is produced by merging 2x2 neighborhoods of the level below and
//! downsampling the composite back to tile size.  The crate holds the
//! pyramid-construction logic itself: zoom-range calculation, base-level
//! tiling with edge padding, and the quad-merge cascade.  Decoding, encoding
//! and the file system are left to the caller, which hands in pixel buffers
//! and placement offsets and receives pixel buffers and tile coordinates.

pub mod bytes;
pub mod cascade;
pub mod mosaic;
pub mod pixels;
pub mod store;
pub mod tiler;
pub mod zoom;
