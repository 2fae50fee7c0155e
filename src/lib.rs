//! Greedy frontier-growth placement of colors on a 2-D grid: every color is
//! placed exactly once, next to the already placed color it resembles most.
pub mod color;
pub mod config;
pub mod engine;
pub mod errors;
pub mod fitness;
pub mod frontier;
pub mod geometry;
pub mod grid;
pub mod math;
pub mod neighbors;
pub mod palette;
pub mod rng;
pub mod sorters;
