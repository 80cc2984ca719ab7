//! Small arithmetic helpers of the client surface.

use vstd::prelude::*;

verus! {

/// The percentage a progress value stands at, rounded half up.
pub open spec fn percentage_of(current: u64, total: u64) -> int
    recommends
        total > 0,
{
    (200 * current + total) / (2 * total)
}

/// Calculate the percentage of a number. A value over the total answers more
/// than a hundred; a quotient beyond the result type saturates.
pub fn calculate_percentage(current: u64, total: u64) -> (r: u64)
    requires
        total > 0,
    ensures
        r == if percentage_of(current, total) <= u64::MAX {
            percentage_of(current, total)
        } else {
            u64::MAX as int
        },
{
    let c = current as u128;
    let t = total as u128;
    let v = (200 * c + t) / (2 * t);
    proof {
        assert((200 * c + t) / (2 * t) == (200 * (current as int) + total) / (
        2 * total as int)) by (nonlinear_arith)
            requires
                c == current as int,
                t == total as int,
                t > 0,
        ;
        assert((200 * (current as int) + total) / (2 * total as int) >= 0) by (nonlinear_arith)
            requires
                0 < total,
                0 <= current,
        ;
    }
    if v > u64::MAX as u128 {
        u64::MAX
    } else {
        v as u64
    }
}

} // verus!
