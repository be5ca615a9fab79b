//! A verified partitioning engine: it assigns each point of a numeric table
//! to one of `k` clusters by iteratively refining `k` centroids until the
//! assignment stabilises or an iteration budget runs out.
//!
//! Coordinates are fixed-point integers; centroids keep their exact
//! dimension-wise mean as a rational number, so every step of the loop is a
//! pure, exactly specified function of its inputs.

pub mod engine;
pub mod error;
pub mod facts;
pub mod laws;
pub mod model;
pub mod sampling;

use vstd::prelude::*;

verus! {

/// Handle for the CSV pre-processing stage that supplies the engine's
/// numeric tables.  Reading, cleaning and writing files is input/output
/// work and stays with the caller; the engine itself only consumes the
/// cleaned tables such a processor hands it.
pub struct CsvHandler;

} // verus!
