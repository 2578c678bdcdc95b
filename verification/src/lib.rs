pub mod analysis;
pub mod codec;
pub mod config;
pub mod control;
pub mod creature;
pub mod error;
pub mod evolution;
pub mod fitness;
pub mod memory;
pub mod observer;
mod rng;
pub mod sketch;
