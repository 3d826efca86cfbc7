//! NBLAST-style morphological similarity between neuron skeletons: the
//! discrete core of the scoring engine.
//!
//! - `bins`: bin lookup by binary search over ascending thresholds.
//! - `table`: the score table, a flat matrix indexed by a distance bin and a
//!   dot-product bin.
//! - `arena`: the pool of neurons with their cached self-hits, and the plan of
//!   a batch of (query, target) scores.
//! - `neuron`: the checks that make a neuron: enough points, a tangent at every
//!   point, and points put back in the order they were given in.
//!
//! Quantities that are real numbers in the model (distances, dot products,
//! thresholds) reach bin lookup as order keys: integers that order as the
//! numbers they stand for.

pub mod arena;
pub mod bins;
pub mod neuron;
pub mod table;
