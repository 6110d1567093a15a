//! What this crate takes from the standard library on trust.

use vstd::prelude::*;

verus! {

/// `i64::saturating_add` of the standard library: the sum of the two
/// numbers where an `i64` holds it, and else the end of the `i64` range
/// that the sum lies beyond. Taken from its documentation, not proved.
pub assume_specification[ <i64>::saturating_add ](x: i64, y: i64) -> (sum: i64)
    ensures
        sum == if x + y > i64::MAX {
            i64::MAX as int
        } else if x + y < i64::MIN {
            i64::MIN as int
        } else {
            x + y
        },
;

/// `i64::saturating_sub` of the standard library: the difference of the two
/// numbers where an `i64` holds it, and else the end of the `i64` range
/// that the difference lies beyond. Taken from its documentation, not
/// proved.
pub assume_specification[ <i64>::saturating_sub ](x: i64, y: i64) -> (difference: i64)
    ensures
        difference == if x - y > i64::MAX {
            i64::MAX as int
        } else if x - y < i64::MIN {
            i64::MIN as int
        } else {
            x - y
        },
;

} // verus!
