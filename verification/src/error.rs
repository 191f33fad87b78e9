//! The errors that operations on cells, planes and piles report.

use vstd::prelude::*;

verus! {

/// Why an operation was refused.
#[derive(Clone, Copy, Debug, PartialEq, Eq, Structural)]
pub enum NcError {
    /// A plane could not be created: a dimension was zero, or the grid
    /// would hold more cells than a plane may have.
    AllocationError,
    /// The request makes no sense for the planes it names: one of them does
    /// not exist, or they do not stand in the relation the operation needs.
    InvalidOperation,
    /// A grapheme cluster was malformed, too long, or did not fit the pool.
    CellEncodingError,
}

/// The result of a fallible operation of this library.
pub type NcResult<T> = Result<T, NcError>;

impl NcError {
    /// A short description of the error.
    pub fn describe(&self) -> (s: String)
        ensures
            s@ == match *self {
                NcError::AllocationError => "plane allocation failed"@,
                NcError::InvalidOperation => "invalid operation"@,
                NcError::CellEncodingError => "invalid grapheme cluster"@,
            },
    {
        match self {
            NcError::AllocationError => "plane allocation failed".to_owned(),
            NcError::InvalidOperation => "invalid operation".to_owned(),
            NcError::CellEncodingError => "invalid grapheme cluster".to_owned(),
        }
    }
}

} // verus!
