//! A Game-of-Life engine on a fixed rectangular grid without wraparound.
mod chance;
pub mod grid;
pub mod laws;
pub mod rules;

pub use grid::GameOfLife;
