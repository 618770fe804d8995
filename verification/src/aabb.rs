//! Axis-aligned bounding boxes with a slab-test intersection and union.
//!
//! The slab test keeps the running parameter interval as a pair of exact
//! rational bounds (numerator over positive denominator), so the executable
//! test decides precisely the predicate `aabb_hit_s`, with no rounding at
//! all. A direction component of zero contributes the whole line when the
//! origin lies inside that slab and the empty set when it lies outside,
//! which is the behavior IEEE reciprocals give the floating-point version
//! of this test.

use vstd::prelude::*;
use crate::ray::{Ray, T_LIMIT};
use crate::vec3::Vec3;

verus! {

#[derive(Clone, Copy, Debug)]
pub struct AABB {
    pub min: Vec3,
    pub max: Vec3,
}

/// a/b <= c/d, for positive denominators.
pub open spec fn rat_le(an: int, ad: int, bn: int, bd: int) -> bool {
    an * bd <= bn * ad
}

/// One rational interval bound: numerator and positive denominator.
pub ghost struct Rat {
    pub n: int,
    pub d: int,
}

/// The parameter interval a single slab allows, as exact rationals:
/// the ray crosses coordinate c at parameter t with t * dir == (c - o) * 65536.
pub open spec fn slab_lo(minc: int, maxc: int, o: int, d: int) -> Rat {
    if d >= 0 {
        Rat { n: (minc - o) * 65536, d: d }
    } else {
        Rat { n: (o - maxc) * 65536, d: -d }
    }
}

pub open spec fn slab_hi(minc: int, maxc: int, o: int, d: int) -> Rat {
    if d >= 0 {
        Rat { n: (maxc - o) * 65536, d: d }
    } else {
        Rat { n: (o - minc) * 65536, d: -d }
    }
}

/// Narrowing of the running interval by one axis. `None` is the empty set,
/// produced when the direction component is zero and the origin lies
/// outside the slab.
pub open spec fn step_s(minc: int, maxc: int, o: int, d: int, lo: Rat, hi: Rat) -> Option<
    (Rat, Rat),
> {
    if d == 0 {
        if o < minc || o > maxc {
            None
        } else {
            Some((lo, hi))
        }
    } else {
        let cl = slab_lo(minc, maxc, o, d);
        let ch = slab_hi(minc, maxc, o, d);
        let nlo = if rat_le(cl.n, cl.d, lo.n, lo.d) {
            lo
        } else {
            cl
        };
        let nhi = if rat_le(hi.n, hi.d, ch.n, ch.d) {
            hi
        } else {
            ch
        };
        Some((nlo, nhi))
    }
}

/// The exact meaning of the slab test: narrow [t_min, t_max] through the
/// three axes and ask whether the final interval still has room.
pub open spec fn aabb_hit_s(b: AABB, r: Ray, t_min: int, t_max: int) -> bool {
    let lo0 = Rat { n: t_min, d: 1 };
    let hi0 = Rat { n: t_max, d: 1 };
    match step_s(b.min.x as int, b.max.x as int, r.origin.x as int, r.direction.x as int, lo0, hi0) {
        None => false,
        Some((lo1, hi1)) => match step_s(
            b.min.y as int,
            b.max.y as int,
            r.origin.y as int,
            r.direction.y as int,
            lo1,
            hi1,
        ) {
            None => false,
            Some((lo2, hi2)) => match step_s(
                b.min.z as int,
                b.max.z as int,
                r.origin.z as int,
                r.direction.z as int,
                lo2,
                hi2,
            ) {
                None => false,
                Some((lo3, hi3)) => !rat_le(hi3.n, hi3.d, lo3.n, lo3.d),
            },
        },
    }
}

/// Numerators the narrowing can produce stay below this bound.
pub open spec fn num_bound() -> int {
    0x2000_0000_0000
}

/// Denominators stay within [1, dir limit].
pub open spec fn den_bound() -> int {
    0x400_0000
}

/// Exact comparison a/b <= c/d for positive denominators.
fn rat_le_e(an: i128, ad: i128, bn: i128, bd: i128) -> (r: bool)
    requires
        -num_bound() <= an <= num_bound(),
        -num_bound() <= bn <= num_bound(),
        1 <= ad <= den_bound(),
        1 <= bd <= den_bound(),
    ensures
        r == rat_le(an as int, ad as int, bn as int, bd as int),
{
    proof {
        assert(-num_bound() * den_bound() <= an * bd <= num_bound() * den_bound())
            by (nonlinear_arith)
            requires
                -num_bound() <= an <= num_bound(),
                1 <= bd <= den_bound(),
        ;
        assert(-num_bound() * den_bound() <= bn * ad <= num_bound() * den_bound())
            by (nonlinear_arith)
            requires
                -num_bound() <= bn <= num_bound(),
                1 <= ad <= den_bound(),
        ;
    }
    an * bd <= bn * ad
}

/// One axis of the slab test, narrowing the running rational interval.
/// Decides `step_s` exactly.
fn axis_step(minc: i64, maxc: i64, o: i64, d: i64, lon: i128, lod: i128, hin: i128, hid: i128)
    -> (res: Option<(i128, i128, i128, i128)>)
    requires
        -0x1000_0000 <= minc <= 0x1000_0000,
        -0x1000_0000 <= maxc <= 0x1000_0000,
        -0x900_0000 <= o <= 0x900_0000,
        -0x400_0000 <= d <= 0x400_0000,
        -num_bound() <= lon <= num_bound(),
        -num_bound() <= hin <= num_bound(),
        1 <= lod <= den_bound(),
        1 <= hid <= den_bound(),
    ensures
        ({
            let st = step_s(
                minc as int,
                maxc as int,
                o as int,
                d as int,
                Rat { n: lon as int, d: lod as int },
                Rat { n: hin as int, d: hid as int },
            );
            match res {
                None => st is None,
                Some(itv) => {
                    &&& st matches Some(p)
                    &&& p.0.n == itv.0 && p.0.d == itv.1
                    &&& p.1.n == itv.2 && p.1.d == itv.3
                    &&& -num_bound() <= itv.0 <= num_bound()
                    &&& -num_bound() <= itv.2 <= num_bound()
                    &&& 1 <= itv.1 <= den_bound()
                    &&& 1 <= itv.3 <= den_bound()
                },
            }
        }),
{
    if d == 0 {
        if o < minc || o > maxc {
            None
        } else {
            Some((lon, lod, hin, hid))
        }
    } else {
        let cln: i128;
        let cld: i128;
        let chn: i128;
        let chd: i128;
        if d > 0 {
            cln = ((minc as i128) - (o as i128)) * 65536;
            cld = d as i128;
            chn = ((maxc as i128) - (o as i128)) * 65536;
            chd = d as i128;
        } else {
            cln = ((o as i128) - (maxc as i128)) * 65536;
            cld = -(d as i128);
            chn = ((o as i128) - (minc as i128)) * 65536;
            chd = -(d as i128);
        }
        let (nlon, nlod): (i128, i128) = if rat_le_e(cln, cld, lon, lod) {
            (lon, lod)
        } else {
            (cln, cld)
        };
        let (nhin, nhid): (i128, i128) = if rat_le_e(hin, hid, chn, chd) {
            (hin, hid)
        } else {
            (chn, chd)
        };
        Some((nlon, nlod, nhin, nhid))
    }
}

/// Box `outer` contains box `inner` componentwise.
pub open spec fn contains_box(outer: AABB, inner: AABB) -> bool {
    &&& outer.min.x <= inner.min.x
    &&& outer.min.y <= inner.min.y
    &&& outer.min.z <= inner.min.z
    &&& inner.max.x <= outer.max.x
    &&& inner.max.y <= outer.max.y
    &&& inner.max.z <= outer.max.z
}

/// The union box of two boxes: componentwise min of minima, max of maxima.
pub open spec fn union_s(a: AABB, b: AABB) -> AABB {
    AABB {
        min: Vec3 {
            x: imin(a.min.x as int, b.min.x as int) as i64,
            y: imin(a.min.y as int, b.min.y as int) as i64,
            z: imin(a.min.z as int, b.min.z as int) as i64,
        },
        max: Vec3 {
            x: imax(a.max.x as int, b.max.x as int) as i64,
            y: imax(a.max.y as int, b.max.y as int) as i64,
            z: imax(a.max.z as int, b.max.z as int) as i64,
        },
    }
}

pub open spec fn imin(a: int, b: int) -> int {
    if a <= b {
        a
    } else {
        b
    }
}

pub open spec fn imax(a: int, b: int) -> int {
    if a >= b {
        a
    } else {
        b
    }
}

impl AABB {
    /// Componentwise ordering and the coordinate working range.
    pub open spec fn wf(self) -> bool {
        &&& self.min.x <= self.max.x
    &&& self.min.y <= self.max.y
        &&& self.min.z <= self.max.z
        &&& crate::vec3::in_range(self.min, 0x1000_0000)
        &&& crate::vec3::in_range(self.max, 0x1000_0000)
    }

    pub open spec fn spec_min(self) -> Vec3 {
        self.min
    }

    pub open spec fn spec_max(self) -> Vec3 {
        self.max
    }

    pub fn new(min: Vec3, max: Vec3) -> (r: AABB)
        ensures
            r.spec_min() == min,
            r.spec_max() == max,
    {
        AABB { min, max }
    }

    pub fn min(&self) -> (r: &Vec3)
        ensures
            *r == self.spec_min(),
    {
        &self.min
    }

    pub fn max(&self) -> (r: &Vec3)
        ensures
            *r == self.spec_max(),
    {
        &self.max
    }

    /// The slab test. Decides `aabb_hit_s` exactly: the running interval is
    /// kept as exact rational bounds, narrowed through the three axes, and
    /// the query succeeds exactly when some room is left.
    pub fn hit(&self, ray: &Ray, t_min: i64, t_max: i64) -> (res: bool)
        requires
            self.wf(),
            ray.wf(),
            -T_LIMIT <= t_min <= t_max <= T_LIMIT,
        ensures
            res == aabb_hit_s(*self, *ray, t_min as int, t_max as int),
    {
        let mut lon: i128 = t_min as i128;
        let mut lod: i128 = 1;
        let mut hin: i128 = t_max as i128;
        let mut hid: i128 = 1;

        match axis_step(self.min.x, self.max.x, ray.origin.x, ray.direction.x, lon, lod, hin, hid) {
            None => {
                return false;
            },
            Some(itv) => {
                lon = itv.0;
                lod = itv.1;
                hin = itv.2;
                hid = itv.3;
            },
        }
        match axis_step(self.min.y, self.max.y, ray.origin.y, ray.direction.y, lon, lod, hin, hid) {
            None => {
                return false;
            },
            Some(itv) => {
                lon = itv.0;
                lod = itv.1;
                hin = itv.2;
                hid = itv.3;
            },
        }
        match axis_step(self.min.z, self.max.z, ray.origin.z, ray.direction.z, lon, lod, hin, hid) {
            None => {
                return false;
            },
            Some(itv) => {
                lon = itv.0;
                lod = itv.1;
                hin = itv.2;
                hid = itv.3;
            },
        }
        !rat_le_e(hin, hid, lon, lod)
    }

    /// Componentwise union with another box.
    pub fn surrounding_box(&self, other: &Self) -> (r: AABB)
        ensures
            r == union_s(*self, *other),
    {
        let min = Vec3 {
            x: crate::fixed::fp_min(self.min.x, other.min.x),
            y: crate::fixed::fp_min(self.min.y, other.min.y),
            z: crate::fixed::fp_min(self.min.z, other.min.z),
        };
        let max = Vec3 {
            x: crate::fixed::fp_max(self.max.x, other.max.x),
            y: crate::fixed::fp_max(self.max.y, other.max.y),
            z: crate::fixed::fp_max(self.max.z, other.max.z),
        };
        AABB { min, max }
    }
}

/// a/b < c/d, for positive denominators.
pub open spec fn rat_lt(an: int, ad: int, bn: int, bd: int) -> bool {
    an * bd < bn * ad
}

/// The exact rational point of `r` at parameter tn/td lies strictly inside
/// `b` on every axis: for each coordinate,
/// min < o + (tn/td) * d / 65536 < max, cross-multiplied.
pub open spec fn strictly_inside(b: AABB, r: Ray, tn: int, td: int) -> bool {
    &&& td > 0
    &&& (b.min.x - r.origin.x) * 65536 * td < tn * r.direction.x < (b.max.x - r.origin.x) * 65536
        * td
    &&& (b.min.y - r.origin.y) * 65536 * td < tn * r.direction.y < (b.max.y - r.origin.y) * 65536
        * td
    &&& (b.min.z - r.origin.z) * 65536 * td < tn * r.direction.z < (b.max.z - r.origin.z) * 65536
        * td
}

/// Some parameter within [t_min, t_max] puts the exact point of the ray
/// strictly inside the box.
pub open spec fn covers(b: AABB, r: Ray, t_min: int, t_max: int) -> bool {
    exists|tn: int, td: int|
        #[trigger] strictly_inside(b, r, tn, td) && t_min * td <= tn <= t_max * td
}

/// a <= b and b < c gives a < c, over rationals with positive denominators.
proof fn lemma_rat_le_lt_trans(an: int, ad: int, bn: int, bd: int, cn: int, cd: int)
    by (nonlinear_arith)
    requires
        ad > 0,
        bd > 0,
        cd > 0,
        rat_le(an, ad, bn, bd),
        rat_lt(bn, bd, cn, cd),
    ensures
        rat_lt(an, ad, cn, cd),
{
}

/// a < b and b <= c gives a < c, over rationals with positive denominators.
proof fn lemma_rat_lt_le_trans(an: int, ad: int, bn: int, bd: int, cn: int, cd: int)
    by (nonlinear_arith)
    requires
        ad > 0,
        bd > 0,
        cd > 0,
        rat_lt(an, ad, bn, bd),
        rat_le(bn, bd, cn, cd),
    ensures
        rat_lt(an, ad, cn, cd),
{
}

/// One narrowing step keeps a strictly-interior witness strictly inside the
/// running interval.
proof fn lemma_step_keeps_witness(
    minc: int,
    maxc: int,
    o: int,
    d: int,
    lo: Rat,
    hi: Rat,
    tn: int,
    td: int,
)
    requires
        lo.d > 0,
        hi.d > 0,
        td > 0,
        rat_le(lo.n, lo.d, tn, td),
        rat_le(tn, td, hi.n, hi.d),
        (minc - o) * 65536 * td < tn * d < (maxc - o) * 65536 * td,
    ensures
        step_s(minc, maxc, o, d, lo, hi) matches Some(p) && {
            &&& p.0.d > 0 && p.1.d > 0
            &&& rat_le(p.0.n, p.0.d, tn, td)
            &&& rat_le(tn, td, p.1.n, p.1.d)
            &&& (p.0 == lo || rat_lt(p.0.n, p.0.d, tn, td))
            &&& (p.1 == hi || rat_lt(tn, td, p.1.n, p.1.d))
        },
{
    if d == 0 {
        assert(minc < o && o < maxc) by (nonlinear_arith)
            requires
                td > 0,
                (minc - o) * 65536 * td < 0 < (maxc - o) * 65536 * td,
        ;
    } else {
        let cl = slab_lo(minc, maxc, o, d);
        let ch = slab_hi(minc, maxc, o, d);
        assert(rat_lt(cl.n, cl.d, tn, td) && rat_lt(tn, td, ch.n, ch.d)) by (nonlinear_arith)
            requires
                d != 0,
                td > 0,
                (minc - o) * 65536 * td < tn * d < (maxc - o) * 65536 * td,
                cl == slab_lo(minc, maxc, o, d),
                ch == slab_hi(minc, maxc, o, d),
        ;
    }
}

/// The defining conservativeness fact of the slab test: if some parameter
/// in [t_min, t_max] puts the exact ray point strictly inside the box, the
/// test reports a hit.
pub proof fn lemma_covers_implies_hit(b: AABB, r: Ray, t_min: int, t_max: int)
    requires
        covers(b, r, t_min, t_max),
        t_min < t_max,
    ensures
        aabb_hit_s(b, r, t_min, t_max),
{
    let (tn, td) = choose|tn: int, td: int|
        #[trigger] strictly_inside(b, r, tn, td) && t_min * td <= tn <= t_max * td;
    let lo0 = Rat { n: t_min, d: 1 };
    let hi0 = Rat { n: t_max, d: 1 };
    assert(rat_le(lo0.n, lo0.d, tn, td) && rat_le(tn, td, hi0.n, hi0.d));

    lemma_step_keeps_witness(
        b.min.x as int,
        b.max.x as int,
        r.origin.x as int,
        r.direction.x as int,
        lo0,
        hi0,
        tn,
        td,
    );
    let p1 = step_s(
        b.min.x as int,
        b.max.x as int,
        r.origin.x as int,
        r.direction.x as int,
        lo0,
        hi0,
    ).unwrap();
    lemma_step_keeps_witness(
        b.min.y as int,
        b.max.y as int,
        r.origin.y as int,
        r.direction.y as int,
        p1.0,
        p1.1,
        tn,
        td,
    );
    let p2 = step_s(
        b.min.y as int,
        b.max.y as int,
        r.origin.y as int,
        r.direction.y as int,
        p1.0,
        p1.1,
    ).unwrap();
    lemma_step_keeps_witness(
        b.min.z as int,
        b.max.z as int,
        r.origin.z as int,
        r.direction.z as int,
        p2.0,
        p2.1,
        tn,
        td,
    );
    let p3 = step_s(
        b.min.z as int,
        b.max.z as int,
        r.origin.z as int,
        r.direction.z as int,
        p2.0,
        p2.1,
    ).unwrap();
    let lo3 = p3.0;
    let hi3 = p3.1;

    if lo3 == lo0 && hi3 == hi0 {
        assert(rat_lt(lo3.n, lo3.d, hi3.n, hi3.d));
    } else if lo3 == lo0 {
        lemma_rat_le_lt_trans(lo3.n, lo3.d, tn, td, hi3.n, hi3.d);
    } else {
        lemma_rat_lt_le_trans(lo3.n, lo3.d, tn, td, hi3.n, hi3.d);
    }
}

/// A witness strictly inside an inner box is strictly inside any box that
/// contains it.
pub proof fn lemma_inside_monotone(outer: AABB, inner: AABB, r: Ray, tn: int, td: int)
    requires
        contains_box(outer, inner),
        strictly_inside(inner, r, tn, td),
    ensures
        strictly_inside(outer, r, tn, td),
{
    assert((outer.min.x - r.origin.x) * 65536 * td <= (inner.min.x - r.origin.x) * 65536 * td
        && (inner.max.x - r.origin.x) * 65536 * td <= (outer.max.x - r.origin.x) * 65536 * td)
        by (nonlinear_arith)
        requires
            td > 0,
            outer.min.x <= inner.min.x,
            inner.max.x <= outer.max.x,
    ;
    assert((outer.min.y - r.origin.y) * 65536 * td <= (inner.min.y - r.origin.y) * 65536 * td
        && (inner.max.y - r.origin.y) * 65536 * td <= (outer.max.y - r.origin.y) * 65536 * td)
        by (nonlinear_arith)
        requires
            td > 0,
            outer.min.y <= inner.min.y,
            inner.max.y <= outer.max.y,
    ;
    assert((outer.min.z - r.origin.z) * 65536 * td <= (inner.min.z - r.origin.z) * 65536 * td
        && (inner.max.z - r.origin.z) * 65536 * td <= (outer.max.z - r.origin.z) * 65536 * td)
        by (nonlinear_arith)
        requires
            td > 0,
            outer.min.z <= inner.min.z,
            inner.max.z <= outer.max.z,
    ;
}

/// `covers` is monotone under box containment.
pub proof fn lemma_covers_monotone(outer: AABB, inner: AABB, r: Ray, t_min: int, t_max: int)
    requires
        contains_box(outer, inner),
        covers(inner, r, t_min, t_max),
    ensures
        covers(outer, r, t_min, t_max),
{
    let (tn, td) = choose|tn: int, td: int|
        #[trigger] strictly_inside(inner, r, tn, td) && t_min * td <= tn <= t_max * td;
    lemma_inside_monotone(outer, inner, r, tn, td);
    assert(strictly_inside(outer, r, tn, td) && t_min * td <= tn <= t_max * td);
}

/// A ray parallel to an axis and offset outside that slab never hits:
/// the flag picks the axis (0, 1 or 2).
pub proof fn lemma_parallel_outside_misses(b: AABB, r: Ray, t_min: int, t_max: int, axis: int)
    requires
        axis == 0 ==> r.direction.x == 0 && (r.origin.x < b.min.x || r.origin.x > b.max.x),
        axis == 1 ==> r.direction.y == 0 && (r.origin.y < b.min.y || r.origin.y > b.max.y),
        axis == 2 ==> r.direction.z == 0 && (r.origin.z < b.min.z || r.origin.z > b.max.z),
        0 <= axis <= 2,
    ensures
        !aabb_hit_s(b, r, t_min, t_max),
{
}

/// The union contains both of its arguments.
pub proof fn lemma_union_contains(a: AABB, b: AABB)
    ensures
        contains_box(union_s(a, b), a),
        contains_box(union_s(a, b), b),
{
}

/// Union is commutative, exactly.
pub proof fn lemma_union_commutative(a: AABB, b: AABB)
    ensures
        union_s(a, b) == union_s(b, a),
{
}

/// Union is associative, exactly.
pub proof fn lemma_union_associative(a: AABB, b: AABB, c: AABB)
    ensures
        union_s(union_s(a, b), c) == union_s(a, union_s(b, c)),
{
}

/// Containment is transitive through unions.
pub proof fn lemma_contains_trans(a: AABB, b: AABB, c: AABB)
    requires
        contains_box(a, b),
        contains_box(b, c),
    ensures
        contains_box(a, c),
{
}

} // verus!
