//! The crate's fixed-point conventions and small total helpers.

use vstd::prelude::*;

verus! {

/// One whole unit of the fixed-point encoding: a real value `v` in [0, 1]
/// is carried as the integer `v * SCALE`.
pub const SCALE: i64 = 10000;

pub open spec fn spec_clamp(v: int, lo: int, hi: int) -> int {
    if v < lo {
        lo
    } else if v > hi {
        hi
    } else {
        v
    }
}

/// The magnitude of `v`, capped at `hi`.
pub open spec fn spec_abs_capped(v: int, hi: int) -> int {
    if v >= 0 {
        if v > hi {
            hi
        } else {
            v
        }
    } else {
        if v < -hi {
            hi
        } else {
            -v
        }
    }
}

/// Magnitude capped at `hi`; total for every `i64`, including `i64::MIN`.
pub fn abs_capped(v: i64, hi: i64) -> (r: i64)
    requires
        0 <= hi < 0x4000_0000_0000_0000,
    ensures
        r == spec_abs_capped(v as int, hi as int),
        0 <= r <= hi,
{
    if v >= 0 {
        if v > hi {
            hi
        } else {
            v
        }
    } else if v < -hi {
        hi
    } else {
        -v
    }
}

} // verus!
