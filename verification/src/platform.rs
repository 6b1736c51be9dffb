//! The cancellation flag of a build.
//!
//! The flag is set when the user interrupts the build and stays set until
//! the next build begins. Workers read it before and after they take a task
//! from the queue.

use vstd::prelude::*;

verus! {

/// A one-way flag: unset when a build begins, set at most once during it.
#[derive(Debug)]
pub struct CancelToken {
    set: bool,
}

impl CancelToken {
    /// Whether the build is cancelled.
    pub closed spec fn is_set(&self) -> bool {
        self.set
    }

    /// A token that is not set.
    pub fn new() -> (r: CancelToken)
        ensures
            !r.is_set(),
    {
        CancelToken { set: false }
    }
}

/// Whether the build is cancelled.
pub fn is_cancelled(token: &CancelToken) -> (r: bool)
    ensures
        r == token.is_set(),
{
    token.set
}

/// Cancels the build. Cancelling a cancelled build changes nothing.
pub fn cancel(token: &mut CancelToken)
    ensures
        final(token).is_set(),
        old(token).is_set() ==> *final(token) == *old(token),
{
    token.set = true;
}

/// Clears the flag, for the next build.
pub fn reset_cancel(token: &mut CancelToken)
    ensures
        !final(token).is_set(),
{
    token.set = false;
}

} // verus!
