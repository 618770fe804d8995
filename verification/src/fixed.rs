//! Q47.16 fixed-point scalars.
//!
//! A scalar is an `i64` holding the intended real value times 65536. All
//! operations round toward negative infinity (floor), which matches the
//! Euclidean `/` of specification arithmetic, so every executable operation
//! here is pinned to an exact integer-valued specification function.

use vstd::prelude::*;
use vstd::arithmetic::div_mod::{lemma_fundamental_div_mod, lemma_fundamental_div_mod_converse};

verus! {

/// The fixed-point representation of 1.0.
pub const FP_ONE: i64 = 65536;

/// Product of two fixed-point scalars: floor(a * b / 65536).
pub open spec fn fp_mul_s(a: int, b: int) -> int {
    (a * b) / 65536
}

/// Quotient of two fixed-point scalars for a positive divisor:
/// floor(a * 65536 / b).
pub open spec fn fp_div_s(a: int, b: int) -> int {
    (a * 65536) / b
}

/// Quotient for any non-zero divisor; a negative divisor is handled by
/// negating both operands first, so the result is floor((-a)*65536 / (-b)).
pub open spec fn fp_div_any_s(a: int, b: int) -> int {
    if b > 0 {
        fp_div_s(a, b)
    } else {
        fp_div_s(-a, -b)
    }
}

/// `r` is the floor of the square root of `x`.
pub open spec fn is_sqrt_floor(x: int, r: int) -> bool {
    0 <= r && r * r <= x && x < (r + 1) * (r + 1)
}

/// The floor of the square root of `x`, as a function.
pub open spec fn sqrt_s(x: int) -> int {
    choose|r: int| is_sqrt_floor(x, r)
}

/// The floor of a square root is unique, so any witness equals `sqrt_s`.
pub proof fn lemma_sqrt_unique(x: int, r: int)
    requires
        is_sqrt_floor(x, r),
    ensures
        sqrt_s(x) == r,
{
    let c = choose|c: int| is_sqrt_floor(x, c);
    assert(is_sqrt_floor(x, c));
    assert forall|a: int, b: int|
        is_sqrt_floor(x, a) && is_sqrt_floor(x, b) implies a == b by {
        if a < b {
            assert((a + 1) * (a + 1) <= b * b) by (nonlinear_arith)
                requires
                    0 <= a,
                    a < b,
            ;
        }
        if b < a {
            assert((b + 1) * (b + 1) <= a * a) by (nonlinear_arith)
                requires
                    0 <= b,
                    b < a,
            ;
        }
    }
}

/// Fixed-point square root: the scalar r with r/65536 == floor-ish
/// sqrt(a/65536), namely floor(sqrt(a * 65536)).
pub open spec fn fp_sqrt_s(a: int, r: int) -> bool {
    is_sqrt_floor(a * 65536, r)
}

/// Every non-negative integer has a square-root floor, so `sqrt_s` itself
/// satisfies the defining predicate.
pub proof fn lemma_sqrt_exists(x: int)
    requires
        x >= 0,
    ensures
        is_sqrt_floor(x, sqrt_s(x)),
    decreases x,
{
    if x == 0 {
        assert(is_sqrt_floor(0, 0));
    } else {
        lemma_sqrt_exists(x - 1);
        let r = sqrt_s(x - 1);
        assert(is_sqrt_floor(x - 1, r));
        if (r + 1) * (r + 1) <= x {
            assert(is_sqrt_floor(x, r + 1)) by (nonlinear_arith)
                requires
                    is_sqrt_floor(x - 1, r),
                    (r + 1) * (r + 1) <= x,
            ;
        } else {
            assert(is_sqrt_floor(x, r));
        }
    }
}

/// Divides by 65536, rounding toward negative infinity.
pub fn floor_div_unit(p: i128) -> (r: i128)
    requires
        -0x4000_0000_0000_0000_0000_0000_0000_0000 <= p
            <= 0x4000_0000_0000_0000_0000_0000_0000_0000,
    ensures
        r == p as int / 65536,
{
    if p >= 0 {
        let q: u128 = (p as u128) / 65536;
        q as i128
    } else {
        let n: u128 = (-p) as u128;
        let q: u128 = (n + 65535) / 65536;
        proof {
            lemma_fundamental_div_mod(p as int, 65536);
            let qe = p as int / 65536;
            let re = p as int % 65536;
            lemma_fundamental_div_mod_converse(n as int + 65535, 65536, -qe, 65535 - re);
        }
        -(q as i128)
    }
}

/// Fixed-point multiplication, exact per `fp_mul_s`.
pub fn fp_mul(a: i64, b: i64) -> (r: i64)
    requires
        i64::MIN <= fp_mul_s(a as int, b as int) <= i64::MAX,
    ensures
        r == fp_mul_s(a as int, b as int),
{
    let p: i128 = (a as i128) * (b as i128);
    let q = floor_div_unit(p);
    q as i64
}

/// Fixed-point division by a positive divisor, exact per `fp_div_s`.
pub fn fp_div(a: i64, b: i64) -> (r: i64)
    requires
        b > 0,
        i64::MIN <= fp_div_s(a as int, b as int) <= i64::MAX,
    ensures
        r == fp_div_s(a as int, b as int),
{
    let num: i128 = (a as i128) * 65536;
    let q: i128;
    if num >= 0 {
        q = ((num as u128) / (b as u128)) as i128;
    } else {
        let n: u128 = (-num) as u128;
        let bu: u128 = b as u128;
        let m: u128 = (n + bu - 1) / bu;
        proof {
            lemma_fundamental_div_mod(num as int, b as int);
            let qe = num as int / b as int;
            let re = num as int % b as int;
            assert((-qe) * (b as int) == -(b as int * qe)) by (nonlinear_arith);
            lemma_fundamental_div_mod_converse(
                n as int + b as int - 1,
                b as int,
                -qe,
                b as int - 1 - re,
            );
        }
        q = -(m as i128);
    }
    q as i64
}

/// Fixed-point division by any non-zero divisor, exact per `fp_div_any_s`.
pub fn fp_div_any(a: i64, b: i64) -> (r: i64)
    requires
        b != 0,
        a != i64::MIN,
        b != i64::MIN,
        i64::MIN <= fp_div_any_s(a as int, b as int) <= i64::MAX,
    ensures
        r == fp_div_any_s(a as int, b as int),
{
    if b > 0 {
        fp_div(a, b)
    } else {
        fp_div(-a, -b)
    }
}

/// Fixed-point division with a wide numerator, exact per `fp_div_s`.
pub fn fp_div_wide(a: i128, b: i64) -> (r: i128)
    requires
        b > 0,
        -0x1_0000_0000_0000_0000_0000 <= a <= 0x1_0000_0000_0000_0000_0000,
    ensures
        r == fp_div_s(a as int, b as int),
{
    let num: i128 = a * 65536;
    let q: i128;
    if num >= 0 {
        q = ((num as u128) / (b as u128)) as i128;
    } else {
        let n: u128 = (-num) as u128;
        let bu: u128 = b as u128;
        let m: u128 = (n + bu - 1) / bu;
        proof {
            lemma_fundamental_div_mod(num as int, b as int);
            let qe = num as int / b as int;
            let re = num as int % b as int;
            assert((-qe) * (b as int) == -(b as int * qe)) by (nonlinear_arith);
            lemma_fundamental_div_mod_converse(
                n as int + b as int - 1,
                b as int,
                -qe,
                b as int - 1 - re,
            );
        }
        q = -(m as i128);
    }
    q
}

/// Floor of the integer square root, by binary search.
fn isqrt(x: u128) -> (r: u128)
    requires
        x < 0x1_0000_0000_0000_0000_0000, // 2^80
    ensures
        is_sqrt_floor(x as int, r as int),
        r < 0x1_0000_0000_0000, // 2^48
{
    let mut lo: u128 = 0;
    let mut hi: u128 = 0xffff_ffff_ffff; // 2^48 - 1
    while lo < hi
        invariant
            lo <= hi,
            hi < 0x1_0000_0000_0000,
            lo * lo <= x,
            x < (hi + 1) * (hi + 1),
        decreases hi - lo,
    {
        let mid: u128 = (lo + hi + 1) / 2;
        proof {
            assert(mid * mid < 0x1_0000_0000_0000_0000_0000_0000) by (nonlinear_arith)
                requires
                    mid < 0x1_0000_0000_0000,
            ;
        }
        if mid * mid <= x {
            lo = mid;
        } else {
            hi = mid - 1;
        }
    }
    lo
}

/// Fixed-point square root: returns floor(sqrt(a * 65536)), so that the
/// result is again a Q47.16 scalar.
pub fn fp_sqrt(a: i64) -> (r: i64)
    requires
        a >= 0,
    ensures
        fp_sqrt_s(a as int, r as int),
        r == sqrt_s(a as int * 65536),
        0 <= r < 0x1_0000_0000_0000,
{
    let x: u128 = (a as u128) * 65536;
    let r = isqrt(x);
    proof {
        lemma_sqrt_unique(a as int * 65536, r as int);
    }
    r as i64
}

/// Fixed-point square root of a wide non-negative value: the same as
/// `fp_sqrt` with room for a discriminant that outgrows an `i64`.
pub fn fp_sqrt_wide(a: i128) -> (r: i64)
    requires
        0 <= a < 0x1_0000_0000_0000_0000,
    ensures
        is_sqrt_floor(a as int * 65536, r as int),
        r == sqrt_s(a as int * 65536),
        0 <= r < 0x1_0000_0000_0000,
{
    let x: u128 = (a as u128) * 65536;
    let r = isqrt(x);
    proof {
        lemma_sqrt_unique(a as int * 65536, r as int);
    }
    r as i64
}

/// The smaller of two scalars.
pub fn fp_min(a: i64, b: i64) -> (r: i64)
    ensures
        r == if a as int <= b as int { a as int } else { b as int },
{
    if a <= b {
        a
    } else {
        b
    }
}

/// The larger of two scalars.
pub fn fp_max(a: i64, b: i64) -> (r: i64)
    ensures
        r == if a as int >= b as int { a as int } else { b as int },
{
    if a >= b {
        a
    } else {
        b
    }
}

/// The product of two `i64`-range values fits comfortably in an `i128`.
pub proof fn lemma_i64_mul_fits(a: int, b: int)
    by (nonlinear_arith)
    requires
        -0x8000_0000_0000_0000 <= a <= 0x8000_0000_0000_0000,
        -0x8000_0000_0000_0000 <= b <= 0x8000_0000_0000_0000,
    ensures
        -0x4000_0000_0000_0000_0000_0000_0000_0000 <= a * b
            <= 0x4000_0000_0000_0000_0000_0000_0000_0000,
{
}

/// Magnitude bound on a floored fixed-point product: if the factors are
/// bounded by `ab` and `bb`, the product is within ab*bb/65536 plus one for
/// the floor on the negative side.
pub proof fn lemma_fp_mul_bound(a: int, b: int, ab: int, bb: int)
    by (nonlinear_arith)
    requires
        -ab <= a <= ab,
        -bb <= b <= bb,
        0 <= ab,
        0 <= bb,
    ensures
        -(ab * bb / 65536) - 1 <= fp_mul_s(a, b) <= ab * bb / 65536,
{
}

} // verus!
