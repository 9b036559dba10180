//! A banded waveform visualizer core: rasterizes a sample sequence into an
//! RGB image, fits it to a display width, and coordinates debounced live
//! reloads of the underlying data.

pub mod coordinator;
pub mod raster;
pub mod sample;
pub mod scale;
pub mod surface;
