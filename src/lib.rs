//! A falling-sand cellular automaton: a fixed-size grid of typed particles
//! advanced one generation at a time by per-material physical rules.

pub mod brush;
pub mod cell;
pub mod engine;
pub mod frames;
pub mod grid;
pub mod laws;
pub mod random;
pub mod scenes;
