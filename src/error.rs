//! Errors of the statistics reducers.
use vstd::prelude::*;

verus! {

/// Why a reduction gave no result.
#[derive(Clone, Copy, Debug, PartialEq, Eq, Structural)]
pub enum StatisticsError {
    /// A count or a size of the result does not fit in a `u64`.
    Overflow,
}

} // verus!
