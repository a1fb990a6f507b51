pub mod execution;
pub mod frame_clock;
pub mod raster;
pub mod snapshot;
pub mod topology;
