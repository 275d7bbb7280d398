//! A software triangle renderer: a fixed-point transform pipeline
//! (rotation about Z, then an aspect-ratio scale), a viewport
//! projection, a scanline rasterizer that fills an RGBA pixel buffer,
//! and a frame driver that owns the buffer across frames.
//!
//! All coordinates are 16.16 fixed-point integers: the value `FP`
//! stands for 1.0. The host environment supplies per-frame timestamps
//! and the sine/cosine of the rotation angle in the same scale.

pub mod fixed;
pub mod frame;
pub mod geom;
pub mod raster;

pub use fixed::FP;
pub use fixed::HALF;
pub use frame::FrameDriver;
pub use geom::Triangle;
pub use geom::Vertex;
pub use raster::RasterError;
