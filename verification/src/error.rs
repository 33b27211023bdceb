//! Errors produced by streams.

use vstd::prelude::*;

verus! {

/// Error produced when a request is too large to grant.
///
/// Contains the maximum allowable grant.
#[derive(Copy, Clone, Debug, PartialEq, Eq, Structural)]
pub struct GrantOverflow(pub usize);

impl GrantOverflow {
    /// The maximum allowable grant carried by this error.
    pub fn max_grant(&self) -> (r: usize)
        ensures
            r == self.0,
    {
        self.0
    }
}

} // verus!
