//! Resize callbacks.
//!
//! A plane can carry a callback that is to run when the plane it is bound
//! to changes size. The library does not run callbacks: it keeps, for each
//! plane, the key under which the caller has registered one, and hands the
//! keys back when a resize makes them due.

use vstd::prelude::*;

verus! {

/// The key of a registered resize callback.
#[derive(Clone, Copy, Debug, PartialEq, Eq, Structural)]
pub struct NcResizeCb(pub u64);

impl NcResizeCb {
    /// The key itself.
    pub fn key(&self) -> (k: u64)
        ensures
            k == self.0,
    {
        self.0
    }
}

} // verus!
