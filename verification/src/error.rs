//! The engine's error taxonomy: every failure is a configuration error
//! detected before any computation begins.

use vstd::prelude::*;

verus! {

/// Why a clustering request is rejected before any iteration runs.
#[derive(Debug, PartialEq, Eq, Structural, Clone, Copy)]
pub enum ConfigError {
    /// The table holds no points at all.
    EmptyTable,
    /// `k` is zero: no cluster could receive a point.
    ZeroClusters,
    /// `k` exceeds the number of points.
    TooManyClusters,
    /// Some row's length differs from the first row's.
    DimensionMismatch,
}

impl ConfigError {
    /// A short description of the failure, for reporting by callers.
    pub fn message(&self) -> (r: &'static str)
        ensures
            *self is EmptyTable ==> r@ == "the table holds no points"@,
            *self is ZeroClusters ==> r@ == "k is zero"@,
            *self is TooManyClusters ==> r@ == "k exceeds the number of points"@,
            *self is DimensionMismatch ==> r@ == "rows differ in length"@,
    {
        match self {
            ConfigError::EmptyTable => "the table holds no points",
            ConfigError::ZeroClusters => "k is zero",
            ConfigError::TooManyClusters => "k exceeds the number of points",
            ConfigError::DimensionMismatch => "rows differ in length",
        }
    }
}

} // verus!
