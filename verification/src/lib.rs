pub mod chunk;
pub mod linalg;
pub mod palette;
pub mod ray;
pub(crate) mod rng;
pub mod world;
