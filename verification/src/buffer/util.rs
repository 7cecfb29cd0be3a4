//! Rounding of sizes to whole cache lines.

use vstd::prelude::*;

verus! {

/// The smallest multiple of 64 that is not below `num`.
pub open spec fn round_up_64(num: int) -> int {
    ((num + 63) / 64) * 64
}

/// Rounds `num` up to the next multiple of 64.
pub fn round_upto_multiple_of_64(num: usize) -> (rounded: usize)
    requires
        num + 63 <= usize::MAX,
    ensures
        rounded == round_up_64(num as int),
{
    let bumped: usize = num + 63;
    assert(bumped & !63usize == (bumped / 64) * 64) by (bit_vector);
    bumped & !63
}

} // verus!
