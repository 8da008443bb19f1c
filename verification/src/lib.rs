//! Sparse point-feature tracking across a pair of frames: a Shi-Tomasi
//! corner detector seeds points, and a coarse-to-fine pyramidal
//! Lucas-Kanade solver estimates a per-point displacement.

pub mod fbits;
pub mod features;
pub mod lk;
pub mod pyramid;
pub mod raster;
pub mod utils;
