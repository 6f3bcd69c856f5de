//! The integer side of a small path tracer: the plain-text pixel stream that
//! a render produces, the order in which pixels are written, the last step of
//! the color output transform, the control of the per-ray bounce loop and the
//! nearest-hit scan over a scene.
pub mod color;
pub mod ppm;
pub mod raster;
pub mod scene;
pub mod trace;
