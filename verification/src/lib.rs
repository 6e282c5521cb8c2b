pub mod board;
pub mod direction;
pub mod engine;
pub mod gen_level;
mod rng;
