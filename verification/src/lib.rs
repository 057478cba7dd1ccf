//! Novelty search: a population of points in n-dimensional behavior space
//! evolves under a single selection pressure, behavioral novelty.
//!
//! Coordinates and scores are IEEE 754 binary64 values carried as `u64` bit
//! patterns. All ordering, selection, archiving and bookkeeping decisions are
//! made here and verified; the handful of numeric operations (distances,
//! means, random draws of coordinates) are supplied by the caller as plain
//! bit-pattern values.

pub mod bits;
pub mod laws;
pub mod scored;
pub mod novelty;
pub mod population;
pub mod replenish;
pub mod rng;
pub mod sorting;
