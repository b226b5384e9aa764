//! The request to stop running work.
use vstd::prelude::*;

verus! {

/// Whether the user asked for running work to stop.
#[derive(Debug, Clone, Copy, PartialEq, Eq, Structural)]
pub struct CancelFlag {
    pub requested: bool,
}

/// Withdraws the request.
pub fn reset(flag: &mut CancelFlag)
    ensures
        !final(flag).requested,
{
    flag.requested = false;
}

/// Asks for running work to stop.
pub fn request(flag: &mut CancelFlag)
    ensures
        final(flag).requested,
{
    flag.requested = true;
}

/// Whether running work has to stop.
pub fn is_requested(flag: &CancelFlag) -> (r: bool)
    ensures
        r == flag.requested,
{
    flag.requested
}

/// Fails where running work has to stop.
pub fn bail_if_requested(flag: &CancelFlag) -> (r: Result<(), String>)
    ensures
        r is Err == flag.requested,
        r matches Err(message) ==> message@ == "operation cancelled"@,
{
    if is_requested(flag) {
        Err("operation cancelled".to_owned())
    } else {
        Ok(())
    }
}

} // verus!
