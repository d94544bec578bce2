//! The verified core of a small incremental ray tracer: colours and their
//! clamped scaling, the pixel-to-view mapping of the camera, the decisions of
//! the shading engine and the resumable raster scheduler.
//!
//! Everything here is integer arithmetic. Geometry is the host's business: it
//! intersects rays with primitives in floating point and hands over what the
//! decisions need, distances as order-preserving codes and cosines as
//! fixed-point numbers.

pub mod camera;
pub mod color;
pub mod render;
pub mod shading;
