//! Small shared helpers.

use vstd::prelude::*;

verus! {

/// Clamp `x` into [min, max].
pub fn clamp(x: u32, min: u32, max: u32) -> (r: u32)
    ensures
        r == ({
            let lifted: int = if x < min {
                min as int
            } else {
                x as int
            };
            if lifted > max {
                max as int
            } else {
                lifted
            }
        }),
{
    let mut y = x;
    if y < min {
        y = min;
    }
    if y > max {
        y = max;
    }
    y
}

} // verus!
