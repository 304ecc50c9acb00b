//! Wire protocol for control and status messages exchanged with a mower
//! mainboard over a serial link: frame layout, typed parameters and the
//! binary encoding of every value they carry.

use vstd::prelude::*;

pub mod msg;

verus! {

/// The sum of two numbers whose sum fits in 64 bits.
pub fn add(left: u64, right: u64) -> (sum: u64)
    requires
        left + right <= u64::MAX,
    ensures
        sum == left + right,
{
    left + right
}

} // verus!
