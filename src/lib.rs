//! Builds a desktop wallpaper from a full-disk satellite image: the disk is
//! stitched from a grid of tiles, its circular boundary is found, and it is
//! composited onto a background canvas.

pub mod raster;
pub mod disk;
pub mod stitch;
pub mod error;
pub mod timestamp;
pub mod tile;
pub mod composite;
pub mod background;
