//! Integer core of a tile-parallel Monte Carlo path tracer: axis tags, the
//! render scheduler's tile layout and framebuffer copy, the plain-text image
//! format, image texture lookup, the lattice tables of Perlin noise, the
//! integrator's depth-bounded decisions and the construction plan of the
//! bounding volume hierarchy.
use vstd::prelude::*;

pub mod axis;
pub mod bvh;
pub mod color;
pub mod integrator;
pub mod material;
pub mod perlin;
pub mod ppm;
pub mod texture;
pub mod tiles;

pub use axis::{Dimension, X, Y, Z};
pub use bvh::{BvhChild, BvhPlan};
pub use color::Color;
pub use material::{Isotropic, MaterialBuilder};
pub use texture::ImageTexture;
pub use tiles::Chunk;
