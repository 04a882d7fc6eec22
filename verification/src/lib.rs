//! Marsaglia's universal pseudo-random generator in exact 24-bit arithmetic,
//! with the byte clamp used when its draws are turned into colour channels.

pub mod colour;
pub mod generator;
pub mod mixer;
pub mod seed;

pub use crate::colour::clamp_u8;
pub use crate::generator::MarsagliaUniRng;
pub use crate::seed::SeedOutOfRange;
