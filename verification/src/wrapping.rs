//! Arithmetic that keeps the low 64 bits of a result.

use vstd::prelude::*;

verus! {

/// The signed 64-bit integer that is congruent to `x` modulo 2^64: what is
/// left of `x` when only its low 64 bits are kept.
pub open spec fn wrap64(x: int) -> i64 {
    let low = x % 0x1_0000_0000_0000_0000;
    if low >= 0x8000_0000_0000_0000 {
        (low - 0x1_0000_0000_0000_0000) as i64
    } else {
        low as i64
    }
}

/// A value that fits in 64 bits is left as it is.
pub proof fn lemma_wrap64_in_range(x: int)
    requires
        i64::MIN <= x <= i64::MAX,
    ensures
        wrap64(x) == x,
{
    if x >= 0 {
        assert(x % 0x1_0000_0000_0000_0000 == x);
    } else {
        assert(x % 0x1_0000_0000_0000_0000 == x + 0x1_0000_0000_0000_0000);
    }
}

} // verus!
