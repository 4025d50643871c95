use vstd::prelude::*;

verus! {

/// One beat of the delay-timer cadence.
///
/// A background cadence, paced at 60 Hz by the caller, applies this to the
/// shared delay register: a positive value decrements by one, zero stays
/// zero; the register never goes negative and nothing else happens.
pub fn tick(value: u8) -> (r: u8)
    ensures
        value > 0 ==> r == value - 1,
        value == 0 ==> r == 0,
{
    if value > 0 {
        value - 1
    } else {
        0
    }
}

} // verus!
