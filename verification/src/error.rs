//! What a list reports in place of an entry.

use vstd::prelude::*;

verus! {

/// Why a removal or a pull gave no entry.
#[derive(Debug, Clone, Copy, PartialEq, Eq, Structural)]
pub enum PullError {
    /// A pull was asked of a list that holds no entry.
    EmptyCatalog,
    /// No entry of the list has the name that was asked for.
    NotFound,
    /// The chosen tier has no weight to sample from: its entries' weights sum
    /// to zero, or the sample lies at or beyond their sum.
    InvariantViolation,
}

} // verus!
