//! Discrete core of pixelated image abstraction (Gerstner et al. 2012):
//! the grid geometry, label bookkeeping, palette structure, argument checks,
//! matrix layout conversions and annealing schedule that surround the
//! numerical steps of the algorithm.

pub mod validate;
pub mod layout;
pub mod grid;
pub mod labels;
pub mod clusters;
pub mod schedule;
