//! Integer raster filters shared by the detector and the tracker.

pub mod box_filter_3x3;
pub mod fast_gradients;
