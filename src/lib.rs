//! Integer core of a small sphere ray tracer: the seeded xorshift generator
//! that drives anti-aliasing, the bounded scene container with its nearest-hit
//! scan, and the raster bookkeeping that orders the samples and places every
//! pixel in the output byte buffer.
pub mod hittable_list;
pub mod rand;
pub mod render;
