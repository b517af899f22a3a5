//! Decisions of the window-title watch daemon.
use vstd::prelude::*;

verus! {

/// The daemon stops once the socket is gone, or once the number of consecutive
/// failures exceeds `max_fail`.
pub fn should_exit(failed_count: u32, max_fail: u32, socket_exists: bool) -> (exit: bool)
    ensures
        exit == (!socket_exists || failed_count > max_fail),
{
    if !socket_exists {
        return true;
    }
    failed_count > max_fail
}

/// Whether a pid is worth probing for life: pid 0 never counts as a live
/// process.
pub fn may_be_alive(pid: u32) -> (b: bool)
    ensures
        b == (pid != 0),
{
    pid != 0
}

} // verus!
