//! Color arithmetic for the integrator.
//!
//! Colors are `Vec3` values with non-negative fixed-point channels. The
//! integrator's sums and products saturate at a generous cap instead of
//! carrying overflow preconditions: physical radiance values stay far
//! below it, and saturation keeps every operation total and exact per its
//! specification.

use vstd::prelude::*;
use crate::fixed::{fp_mul_s, lemma_i64_mul_fits};
use crate::vec3::Vec3;

verus! {

/// Cap on a color channel (a brightness of eight million).
pub const COLOR_LIMIT: i64 = 0x80_0000_0000;

/// Channels within [0, COLOR_LIMIT].
pub open spec fn color_ok(v: Vec3) -> bool {
    &&& 0 <= v.x <= COLOR_LIMIT
    &&& 0 <= v.y <= COLOR_LIMIT
    &&& 0 <= v.z <= COLOR_LIMIT
}

/// Clamp a channel into [0, COLOR_LIMIT].
pub open spec fn chan_clamp(x: int) -> int {
    if x < 0 {
        0
    } else if x > COLOR_LIMIT {
        COLOR_LIMIT as int
    } else {
        x
    }
}

/// Saturating channelwise sum.
pub open spec fn cadd_s(a: Vec3, b: Vec3) -> Vec3 {
    Vec3 {
        x: chan_clamp(a.x + b.x) as i64,
        y: chan_clamp(a.y + b.y) as i64,
        z: chan_clamp(a.z + b.z) as i64,
    }
}

/// Saturating channelwise fixed-point product.
pub open spec fn cmul_s(a: Vec3, b: Vec3) -> Vec3 {
    Vec3 {
        x: chan_clamp(fp_mul_s(a.x as int, b.x as int)) as i64,
        y: chan_clamp(fp_mul_s(a.y as int, b.y as int)) as i64,
        z: chan_clamp(fp_mul_s(a.z as int, b.z as int)) as i64,
    }
}

fn chan_clamp_e(x: i128) -> (r: i64)
    ensures
        r == chan_clamp(x as int),
{
    if x < 0 {
        0
    } else if x > COLOR_LIMIT as i128 {
        COLOR_LIMIT
    } else {
        x as i64
    }
}

/// Channelwise saturating sum of two colors.
pub fn cadd(a: &Vec3, b: &Vec3) -> (r: Vec3)
    ensures
        r == cadd_s(*a, *b),
{
    Vec3 {
        x: chan_clamp_e(a.x as i128 + b.x as i128),
        y: chan_clamp_e(a.y as i128 + b.y as i128),
        z: chan_clamp_e(a.z as i128 + b.z as i128),
    }
}

/// Channelwise saturating fixed-point product of two colors.
pub fn cmul(a: &Vec3, b: &Vec3) -> (r: Vec3)
    ensures
        r == cmul_s(*a, *b),
{
    proof {
        lemma_i64_mul_fits(a.x as int, b.x as int);
        lemma_i64_mul_fits(a.y as int, b.y as int);
        lemma_i64_mul_fits(a.z as int, b.z as int);
    }
    let px: i128 = (a.x as i128) * (b.x as i128);
    let py: i128 = (a.y as i128) * (b.y as i128);
    let pz: i128 = (a.z as i128) * (b.z as i128);
    Vec3 {
        x: chan_clamp_e(crate::fixed::floor_div_unit(px)),
        y: chan_clamp_e(crate::fixed::floor_div_unit(py)),
        z: chan_clamp_e(crate::fixed::floor_div_unit(pz)),
    }
}

} // verus!
