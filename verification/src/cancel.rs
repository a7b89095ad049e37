//! The request to stop a running scan.

use vstd::prelude::*;

verus! {

/// Whether the user has asked a scan to stop. A scan looks at it between
/// two books and starts no further book once it is set.
#[derive(Debug, Clone, Copy, PartialEq, Eq, Structural)]
pub struct CancellationFlag {
    pub cancelled: bool,
}

impl CancellationFlag {
    /// A flag that asks nothing to stop.
    pub fn new() -> (r: Self)
        ensures
            !r.cancelled,
    {
        CancellationFlag { cancelled: false }
    }
}

/// Records whether the scan is to stop.
pub fn set_cancellation_flag(flag: &mut CancellationFlag, cancelled: bool)
    ensures
        final(flag).cancelled == cancelled,
{
    flag.cancelled = cancelled;
}

/// Whether the scan is to stop.
pub fn is_cancelled(flag: &CancellationFlag) -> (r: bool)
    ensures
        r == flag.cancelled,
{
    flag.cancelled
}

} // verus!
