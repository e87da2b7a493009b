//! Turns a still image into the frames of a looping, color-cycling
//! animation: for each of `n` steps every pixel's hue is rotated by a
//! proportional offset, and the resulting rasters are handed, in step
//! order and with a uniform per-frame duration, to a GIF encoder.

pub mod color;
pub mod raster;
pub mod naming;
pub mod encode;
