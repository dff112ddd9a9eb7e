use vstd::prelude::*;

verus! {

/// How far a measured duration missed a target, in nanoseconds: the absolute
/// difference between the two, whichever side of the target the measurement
/// fell on.
pub fn accuracy_delta(target_ns: u128, elapsed_ns: u128) -> (r: u128)
    ensures
        elapsed_ns >= target_ns ==> r == elapsed_ns - target_ns,
        elapsed_ns < target_ns ==> r == target_ns - elapsed_ns,
{
    if elapsed_ns >= target_ns {
        elapsed_ns - target_ns
    } else {
        target_ns - elapsed_ns
    }
}

} // verus!
