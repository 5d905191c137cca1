//! An offline software 3D renderer's verified core: pixel buffers, the
//! image-file codec, fixed-size integer linear algebra, and the integer
//! post-processing stages.

pub mod image;
pub mod math;
pub mod postprocess;
pub mod render;
pub mod texture;
pub mod utils;
