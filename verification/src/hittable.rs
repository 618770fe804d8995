//! Geometric primitives and the hit protocol.
//!
//! Every `hit` function decides an exact specification over the fixed-point
//! arithmetic. A candidate parameter is accepted only if the exact rational
//! point it names lies strictly inside the primitive's padded bounding box;
//! that guard is what lets the bounding-volume hierarchy prove that a
//! pruned subtree hides no hit. The pad absorbs the fixed-point rounding of
//! the root computations and never triggers for ordinary rays.

use vstd::prelude::*;
use crate::aabb::{AABB, strictly_inside};
use crate::fixed::{
    fp_div, fp_div_any, fp_div_any_s, fp_div_s, fp_mul, fp_mul_s, fp_sqrt_wide,
    lemma_fp_mul_bound, sqrt_s,
};
use crate::material::Material;
use crate::ray::{Ray, ORIGIN_LIMIT, DIR_LIMIT, TIME_LIMIT, T_LIMIT};
use crate::vec3::{Vec3, dot_s, in_range};

verus! {

/// Padding added to every stored bounding box, absorbing the rounding of
/// the fixed-point root computations (a sixteenth of a unit).
pub const BOX_PAD: i64 = 4096;

/// Largest magnitude of a scene coordinate or radius (1024 units).
pub const COORD_LIMIT: i64 = 0x400_0000;

/// A single intersection record. The material is found through the shape
/// index the scene-level queries return alongside the hit.
#[derive(Clone, Copy, Debug, PartialEq, Eq, Structural)]
pub struct Hit {
    pub t: i64,
    pub u: i64,
    pub v: i64,
    pub p: Vec3,
    pub front_facing: bool,
    pub normal: Vec3,
}

impl Hit {
    /// Ranges every produced hit satisfies.
    pub open spec fn wf(self) -> bool {
        &&& 0 <= self.t <= T_LIMIT
        &&& 0 <= self.u <= 65536
        &&& 0 <= self.v <= 65536
        &&& in_range(self.p, ORIGIN_LIMIT as int)
        &&& in_range(self.normal, 131072)
    }

    /// Record a hit, flipping the outward normal against the ray.
    pub fn new(t: i64, u: i64, v: i64, p: Vec3, ray: &Ray, outward_normal: Vec3) -> (r: Hit)
        requires
            in_range(outward_normal, 131072),
            in_range(ray.direction, DIR_LIMIT as int),
        ensures
            r == make_hit_s(t, u, v, p, *ray, outward_normal),
    {
        let front_facing = ray.direction.dot(&outward_normal) < 0;
        let normal = if front_facing {
            outward_normal
        } else {
            outward_normal.neg()
        };
        Hit { t, u, v, p, front_facing, normal }
    }

    pub fn t(&self) -> (r: i64)
        ensures
            r == self.t,
    {
        self.t
    }

    pub fn u(&self) -> (r: i64)
        ensures
            r == self.u,
    {
        self.u
    }

    pub fn v(&self) -> (r: i64)
        ensures
            r == self.v,
    {
        self.v
    }

    pub fn p(&self) -> (r: &Vec3)
        ensures
            *r == self.p,
    {
        &self.p
    }

    pub fn normal(&self) -> (r: &Vec3)
        ensures
            *r == self.normal,
    {
        &self.normal
    }

    pub fn is_front_facing(&self) -> (r: bool)
        ensures
            r == self.front_facing,
    {
        self.front_facing
    }
}

/// The hit record with the outward normal flipped to oppose the ray.
pub open spec fn make_hit_s(t: i64, u: i64, v: i64, p: Vec3, ray: Ray, outward: Vec3) -> Hit {
    let front_facing = dot_s(ray.direction, outward) < 0;
    let normal = if front_facing {
        outward
    } else {
        Vec3 { x: (-outward.x) as i64, y: (-outward.y) as i64, z: (-outward.z) as i64 }
    };
    Hit { t, u, v, p, front_facing, normal }
}

/// Surface coordinates of a point of the unit sphere. The azimuth comes
/// from an exact octant-linear pseudo-angle in place of atan2, and the
/// altitude is linear in the y component in place of acos; both are
/// monotone along the sphere and take the same values at the axes' poles
/// of the texture seam.
pub open spec fn sphere_uv_s(p: Vec3) -> (int, int) {
    let a = p.x as int;
    let b = -(p.z as int);
    let s = abs_s(a) + abs_s(b);
    let u = if s == 0 {
        0
    } else {
        let q = fp_div_s(b, s);
        let ang = if a >= 0 {
            q
        } else if b >= 0 {
            131072 - q
        } else {
            -131072 - q
        };
        (ang + 131072) / 4
    };
    let v = uclamp_s((p.y + 65536) / 2);
    (u, v)
}

pub open spec fn abs_s(x: int) -> int {
    if x >= 0 {
        x
    } else {
        -x
    }
}

pub open spec fn uclamp_s(x: int) -> int {
    if x < 0 {
        0
    } else if x > 65536 {
        65536
    } else {
        x
    }
}

/// Surface coordinates of a sphere point.
pub fn sphere_uv(p: &Vec3) -> (r: (i64, i64))
    requires
        in_range(*p, 131072),
    ensures
        (r.0 as int, r.1 as int) == sphere_uv_s(*p),
        0 <= r.0 <= 65536,
        0 <= r.1 <= 65536,
{
    let a = p.x;
    let b = -p.z;
    let aa = if a >= 0 {
        a
    } else {
        -a
    };
    let ab = if b >= 0 {
        b
    } else {
        -b
    };
    let s = aa + ab;
    let u: i64;
    if s == 0 {
        u = 0;
    } else {
        proof {
            lemma_div_ratio_bounded(b as int, s as int);
        }
        let q = fp_div(b, s);
        let ang = if a >= 0 {
            q
        } else if b >= 0 {
            131072 - q
        } else {
            -131072 - q
        };
        u = ((ang + 131072) as u64 / 4) as i64;
    }
    let ys = p.y + 65536;
    let v: i64;
    if ys < 0 {
        v = 0;
    } else {
        let vv = (ys as u64 / 2) as i64;
        v = if vv > 65536 {
            65536
        } else {
            vv
        };
    }
    (u, v)
}

/// A numerator no larger than its positive denominator divides to within
/// [-1, 1] in fixed point, and the quotient keeps the numerator's sign.
proof fn lemma_div_ratio_bounded(b: int, s: int)
    requires
        s > 0,
        -s <= b <= s,
    ensures
        -65536 <= fp_div_s(b, s) <= 65536,
        b >= 0 ==> fp_div_s(b, s) >= 0,
        b < 0 ==> fp_div_s(b, s) <= -1,
{
    let x = b * 65536;
    assert((-s) * 65536 <= x <= s * 65536 && (b >= 0 ==> x >= 0) && (b < 0 ==> x <= -1))
        by (nonlinear_arith)
        requires
            s > 0,
            -s <= b <= s,
            x == b * 65536,
    ;
    vstd::arithmetic::div_mod::lemma_fundamental_div_mod(x, s);
    vstd::arithmetic::div_mod::lemma_mod_bound(x, s);
    let q = x / s;
    let r = x % s;
    assert(-65536 <= q <= 65536 && (x >= 0 ==> q >= 0) && (x <= -1 ==> q <= -1))
        by (nonlinear_arith)
        requires
            s > 0,
            (-s) * 65536 <= x <= s * 65536,
            x == s * q + r,
            0 <= r < s,
    ;
}

/// Decides `strictly_inside(b, ray, t, 1)`: the exact rational point of
/// the ray at the accepted parameter lies strictly inside the box.
pub fn inside_box(b: &AABB, ray: &Ray, t: i64) -> (r: bool)
    requires
        crate::vec3::in_range(b.min, 0x1000_0000),
        crate::vec3::in_range(b.max, 0x1000_0000),
        ray.wf(),
        0 <= t <= T_LIMIT,
    ensures
        r == strictly_inside(*b, *ray, t as int, 1),
{
    let t128 = t as i128;
    proof {
        lemma_guard_products_fit(t as int, ray.direction.x as int);
        lemma_guard_products_fit(t as int, ray.direction.y as int);
        lemma_guard_products_fit(t as int, ray.direction.z as int);
    }
    let inx = ((b.min.x as i128 - ray.origin.x as i128) * 65536) < t128 * (ray.direction.x as i128)
        && t128 * (ray.direction.x as i128) < ((b.max.x as i128 - ray.origin.x as i128) * 65536);
    let iny = ((b.min.y as i128 - ray.origin.y as i128) * 65536) < t128 * (ray.direction.y as i128)
        && t128 * (ray.direction.y as i128) < ((b.max.y as i128 - ray.origin.y as i128) * 65536);
    let inz = ((b.min.z as i128 - ray.origin.z as i128) * 65536) < t128 * (ray.direction.z as i128)
        && t128 * (ray.direction.z as i128) < ((b.max.z as i128 - ray.origin.z as i128) * 65536);
    inx && iny && inz
}

proof fn lemma_guard_products_fit(t: int, d: int)
    by (nonlinear_arith)
    requires
        0 <= t <= T_LIMIT,
        -DIR_LIMIT <= d <= DIR_LIMIT,
    ensures
        -0x1000_0000_0000_0000_0000 <= t * d <= 0x1000_0000_0000_0000_0000,
{
}

/// A parameter strictly inside a box bounds the rounded hit point into
/// the closed box.
proof fn lemma_point_in_box(minc: int, maxc: int, o: int, d: int, t: int)
    requires
        (minc - o) * 65536 < t * d < (maxc - o) * 65536,
    ensures
        minc <= o + fp_mul_s(t, d) <= maxc,
{
    let x = t * d;
    assert((minc - o) <= x / 65536 <= (maxc - o)) by (nonlinear_arith)
        requires
            (minc - o) * 65536 < x < (maxc - o) * 65536,
    ;
}

/// The quadratic root the sphere protocol accepts: the nearer root when
/// it lies inside the open window, else the farther, else nothing. A
/// degenerate direction or a negative discriminant is a miss.
pub open spec fn sphere_root_s(center: Vec3, radius: i64, ray: Ray, t_min: int, t_max: int) -> Option<
    int,
> {
    let oc = Vec3 {
        x: (ray.origin.x - center.x) as i64,
        y: (ray.origin.y - center.y) as i64,
        z: (ray.origin.z - center.z) as i64,
    };
    let a = dot_s(ray.direction, ray.direction);
    let b = dot_s(oc, ray.direction);
    let c = dot_s(oc, oc) - fp_mul_s(radius as int, radius as int);
    let disc = fp_mul_s(b, b) - fp_mul_s(a, c);
    if a < 1 {
        None
    } else if disc < 0 {
        None
    } else {
        let sq = sqrt_s(disc * 65536);
        let f = fp_div_s(-b - sq, a);
        let g = fp_div_s(-b + sq, a);
        if t_min < f < t_max {
            Some(f)
        } else if t_min < g < t_max {
            Some(g)
        } else {
            None
        }
    }
}

/// The padded box around a sphere; a negative radius (a hollow interface)
/// bounds the same ball.
pub open spec fn sphere_box_s(center: Vec3, radius: i64) -> AABB {
    let r = abs_s(radius as int);
    AABB {
        min: Vec3 {
            x: (center.x - r - BOX_PAD) as i64,
            y: (center.y - r - BOX_PAD) as i64,
            z: (center.z - r - BOX_PAD) as i64,
        },
        max: Vec3 {
            x: (center.x + r + BOX_PAD) as i64,
            y: (center.y + r + BOX_PAD) as i64,
            z: (center.z + r + BOX_PAD) as i64,
        },
    }
}

/// The full sphere hit: the accepted root, its point, the outward normal
/// (rejected if it overflows the working range) and the padded-box guard.
pub open spec fn sphere_hit_s(center: Vec3, radius: i64, ray: Ray, t_min: int, t_max: int) -> Option<
    Hit,
> {
    match sphere_root_s(center, radius, ray, t_min, t_max) {
        None => None,
        Some(t) => {
            if !strictly_inside(sphere_box_s(center, radius), ray, t, 1) {
                None
            } else {
                let p = crate::ray::point_at_s(ray, t);
                let n = Vec3 {
                    x: fp_div_any_s(p.x - center.x, radius as int) as i64,
                    y: fp_div_any_s(p.y - center.y, radius as int) as i64,
                    z: fp_div_any_s(p.z - center.z, radius as int) as i64,
                };
                if !in_range(n, 131072) {
                    None
                } else {
                    let uv = sphere_uv_s(n);
                    Some(make_hit_s(t as i64, uv.0 as i64, uv.1 as i64, p, ray, n))
                }
            }
        },
    }
}

/// The sphere protocol prefers the nearer intersection: the two
/// candidate roots are ordered, and whenever the nearer one lies inside
/// the open query window it is the one returned; the farther root is
/// returned only when the nearer is out of the window, which is how a ray
/// starting inside the sphere finds its exit.
pub proof fn lemma_sphere_prefers_near_root(
    center: Vec3,
    radius: i64,
    ray: Ray,
    t_min: int,
    t_max: int,
)
    ensures
        ({
            let oc = Vec3 {
                x: (ray.origin.x - center.x) as i64,
                y: (ray.origin.y - center.y) as i64,
                z: (ray.origin.z - center.z) as i64,
            };
            let a = dot_s(ray.direction, ray.direction);
            let b = dot_s(oc, ray.direction);
            let c = dot_s(oc, oc) - fp_mul_s(radius as int, radius as int);
            let disc = fp_mul_s(b, b) - fp_mul_s(a, c);
            a >= 1 && disc >= 0 ==> {
                let sq = sqrt_s(disc * 65536);
                let f = fp_div_s(-b - sq, a);
                let g = fp_div_s(-b + sq, a);
                &&& f <= g
                &&& (t_min < f < t_max ==> sphere_root_s(center, radius, ray, t_min, t_max)
                    == Some(f))
                &&& (sphere_root_s(center, radius, ray, t_min, t_max) == Some(g) && g != f
                    ==> !(t_min < f < t_max))
            }
        }),
{
    let oc = Vec3 {
        x: (ray.origin.x - center.x) as i64,
        y: (ray.origin.y - center.y) as i64,
        z: (ray.origin.z - center.z) as i64,
    };
    let a = dot_s(ray.direction, ray.direction);
    let b = dot_s(oc, ray.direction);
    let c = dot_s(oc, oc) - fp_mul_s(radius as int, radius as int);
    let disc = fp_mul_s(b, b) - fp_mul_s(a, c);
    if a >= 1 && disc >= 0 {
        crate::fixed::lemma_sqrt_exists(disc * 65536);
        let sq = sqrt_s(disc * 65536);
        assert((-b - sq) * 65536 <= (-b + sq) * 65536) by (nonlinear_arith)
            requires
                sq >= 0,
        ;
        vstd::arithmetic::div_mod::lemma_div_is_ordered(
            (-b - sq) * 65536,
            (-b + sq) * 65536,
            a,
        );
    }
}

/// Validity of sphere parameters.
pub open spec fn sphere_params_wf(center: Vec3, radius: i64) -> bool {
    &&& in_range(center, COORD_LIMIT as int)
    &&& 1 <= abs_s(radius as int) <= COORD_LIMIT
}

/// Intersect a sphere. Decides `sphere_hit_s` exactly.
pub fn sphere_hit(center: &Vec3, radius: i64, ray: &Ray, t_min: i64, t_max: i64) -> (r: Option<Hit>)
    requires
        sphere_params_wf(*center, radius),
        ray.wf(),
        0 <= t_min <= t_max <= T_LIMIT,
    ensures
        r == sphere_hit_s(*center, radius, *ray, t_min as int, t_max as int),
        r matches Some(h) ==> {
            &&& h.wf()
            &&& t_min < h.t < t_max
            &&& strictly_inside(sphere_box_s(*center, radius), *ray, h.t as int, 1)
        },
{
    let oc = ray.origin.sub(center);
    proof {
        lemma_fp_mul_bound(ray.direction.x as int, ray.direction.x as int, DIR_LIMIT as int, DIR_LIMIT as int);
        lemma_fp_mul_bound(ray.direction.y as int, ray.direction.y as int, DIR_LIMIT as int, DIR_LIMIT as int);
        lemma_fp_mul_bound(ray.direction.z as int, ray.direction.z as int, DIR_LIMIT as int, DIR_LIMIT as int);
        lemma_fp_mul_bound(oc.x as int, ray.direction.x as int, 0xD00_0000, DIR_LIMIT as int);
        lemma_fp_mul_bound(oc.y as int, ray.direction.y as int, 0xD00_0000, DIR_LIMIT as int);
        lemma_fp_mul_bound(oc.z as int, ray.direction.z as int, 0xD00_0000, DIR_LIMIT as int);
        lemma_fp_mul_bound(oc.x as int, oc.x as int, 0xD00_0000, 0xD00_0000);
        lemma_fp_mul_bound(oc.y as int, oc.y as int, 0xD00_0000, 0xD00_0000);
        lemma_fp_mul_bound(oc.z as int, oc.z as int, 0xD00_0000, 0xD00_0000);
        lemma_fp_mul_bound(radius as int, radius as int, COORD_LIMIT as int, COORD_LIMIT as int);
    }
    let a = ray.direction.dot(&ray.direction);
    let b = oc.dot(&ray.direction);
    let c = oc.dot(&oc) - fp_mul(radius, radius);
    proof {
        lemma_fp_mul_bound(b as int, b as int, 0xA0_0000_0000, 0xA0_0000_0000);
        lemma_fp_mul_bound(a as int, c as int, 0x31_0000_0000, 0x210_0000_0000);
    }
    let bb = fp_mul(b, b);
    let ac = fp_mul(a, c);
    let disc: i128 = (bb as i128) - (ac as i128);
    if a < 1 {
        return None;
    }
    if disc < 0 {
        return None;
    }
    let sq = fp_sqrt_wide(disc);
    let froot = crate::fixed::fp_div_wide(-(b as i128) - (sq as i128), a);
    let groot = crate::fixed::fp_div_wide(-(b as i128) + (sq as i128), a);
    let t: i64;
    if (t_min as i128) < froot && froot < (t_max as i128) {
        t = froot as i64;
    } else if (t_min as i128) < groot && groot < (t_max as i128) {
        t = groot as i64;
    } else {
        return None;
    }
    let bx = sphere_box(center, radius);
    if !inside_box(&bx, ray, t) {
        return None;
    }
    let p = ray.point_at(t);
    proof {
        lemma_point_in_box(
            bx.min.x as int,
            bx.max.x as int,
            ray.origin.x as int,
            ray.direction.x as int,
            t as int,
        );
        lemma_point_in_box(
            bx.min.y as int,
            bx.max.y as int,
            ray.origin.y as int,
            ray.direction.y as int,
            t as int,
        );
        lemma_point_in_box(
            bx.min.z as int,
            bx.max.z as int,
            ray.origin.z as int,
            ray.direction.z as int,
            t as int,
        );
        lemma_normal_div_fits(p.x as int - center.x as int, radius as int);
        lemma_normal_div_fits(p.y as int - center.y as int, radius as int);
        lemma_normal_div_fits(p.z as int - center.z as int, radius as int);
    }
    let nx = fp_div_any(p.x - center.x, radius);
    let ny = fp_div_any(p.y - center.y, radius);
    let nz = fp_div_any(p.z - center.z, radius);
    if nx < -131072 || nx > 131072 || ny < -131072 || ny > 131072 || nz < -131072 || nz > 131072 {
        return None;
    }
    let n = Vec3 { x: nx, y: ny, z: nz };
    let (u, v) = sphere_uv(&n);
    Some(Hit::new(t, u, v, p, ray, n))
}

/// The padded sphere box, executable.
pub fn sphere_box(center: &Vec3, radius: i64) -> (r: AABB)
    requires
        sphere_params_wf(*center, radius),
    ensures
        r == sphere_box_s(*center, radius),
        r.wf(),
{
    let ra = if radius >= 0 {
        radius
    } else {
        -radius
    };
    AABB::new(
        Vec3 { x: center.x - ra - BOX_PAD, y: center.y - ra - BOX_PAD, z: center.z - ra - BOX_PAD },
        Vec3 { x: center.x + ra + BOX_PAD, y: center.y + ra + BOX_PAD, z: center.z + ra + BOX_PAD },
    )
}

/// The normal's division stays in `i64`.
proof fn lemma_normal_div_fits(num: int, radius: int)
    by (nonlinear_arith)
    requires
        1 <= abs_s(radius),
        -0x2000_0000 <= num <= 0x2000_0000,
        radius != 0,
    ensures
        i64::MIN <= fp_div_any_s(num, radius) <= i64::MAX,
{
}

/// Validity of an axis-aligned rectangle: ordered extents within the
/// coordinate range.
pub open spec fn rect_params_wf(a0: i64, a1: i64, b0: i64, b1: i64, k: i64) -> bool {
    &&& -COORD_LIMIT <= a0 < a1 <= COORD_LIMIT
    &&& -COORD_LIMIT <= b0 < b1 <= COORD_LIMIT
    &&& -COORD_LIMIT <= k <= COORD_LIMIT
}

/// The padded box of a rectangle with free axes a and b and plane
/// coordinate k; `axis` names the fixed axis (0 = x, 1 = y, 2 = z).
pub open spec fn rect_box_s(a0: i64, a1: i64, b0: i64, b1: i64, k: i64, axis: int) -> AABB {
    if axis == 2 {
        AABB {
            min: Vec3 { x: (a0 - BOX_PAD) as i64, y: (b0 - BOX_PAD) as i64, z: (k - BOX_PAD) as i64 },
            max: Vec3 { x: (a1 + BOX_PAD) as i64, y: (b1 + BOX_PAD) as i64, z: (k + BOX_PAD) as i64 },
        }
    } else if axis == 1 {
        AABB {
            min: Vec3 { x: (a0 - BOX_PAD) as i64, y: (k - BOX_PAD) as i64, z: (b0 - BOX_PAD) as i64 },
            max: Vec3 { x: (a1 + BOX_PAD) as i64, y: (k + BOX_PAD) as i64, z: (b1 + BOX_PAD) as i64 },
        }
    } else {
        AABB {
            min: Vec3 { x: (k - BOX_PAD) as i64, y: (a0 - BOX_PAD) as i64, z: (b0 - BOX_PAD) as i64 },
            max: Vec3 { x: (k + BOX_PAD) as i64, y: (a1 + BOX_PAD) as i64, z: (b1 + BOX_PAD) as i64 },
        }
    }
}

/// The plane-crossing solution common to the three rectangle
/// orientations: the parameter, the two in-plane coordinates and the
/// surface coordinates, or nothing.
pub open spec fn rect_core_s(
    a0: i64,
    a1: i64,
    b0: i64,
    b1: i64,
    k: i64,
    oa: i64,
    ob: i64,
    ok: i64,
    da: i64,
    db: i64,
    dk: i64,
    t_min: int,
    t_max: int,
) -> Option<(int, int, int)> {
    if dk == 0 {
        None
    } else {
        let t = fp_div_any_s(k - ok, dk as int);
        if t < t_min || t > t_max {
            None
        } else {
            let a = oa + fp_mul_s(t, da as int);
            let b = ob + fp_mul_s(t, db as int);
            if a < a0 || a > a1 || b < b0 || b > b1 {
                None
            } else {
                let u = fp_div_s(a - a0, a1 - a0);
                let v = fp_div_s(b - b0, b1 - b0);
                Some((t, u, v))
            }
        }
    }
}

/// Executable form of `rect_core_s`.
fn rect_core(
    a0: i64,
    a1: i64,
    b0: i64,
    b1: i64,
    k: i64,
    oa: i64,
    ob: i64,
    ok: i64,
    da: i64,
    db: i64,
    dk: i64,
    t_min: i64,
    t_max: i64,
) -> (r: Option<(i64, i64, i64)>)
    requires
        rect_params_wf(a0, a1, b0, b1, k),
        -ORIGIN_LIMIT <= oa <= ORIGIN_LIMIT,
        -ORIGIN_LIMIT <= ob <= ORIGIN_LIMIT,
        -ORIGIN_LIMIT <= ok <= ORIGIN_LIMIT,
        -DIR_LIMIT <= da <= DIR_LIMIT,
        -DIR_LIMIT <= db <= DIR_LIMIT,
        -DIR_LIMIT <= dk <= DIR_LIMIT,
        0 <= t_min <= t_max <= T_LIMIT,
    ensures
        ({
            let s = rect_core_s(a0, a1, b0, b1, k, oa, ob, ok, da, db, dk, t_min as int, t_max as int);
            match r {
                None => s is None,
                Some(q) => {
                    &&& s == Some((q.0 as int, q.1 as int, q.2 as int))
                    &&& t_min <= q.0 <= t_max
                    &&& 0 <= q.1 <= 65536
                    &&& 0 <= q.2 <= 65536
                },
            }
        }),
{
    if dk == 0 {
        return None;
    }
    proof {
        lemma_rect_t_fits(k as int - ok as int, dk as int);
    }
    let t = fp_div_any(k - ok, dk);
    if t < t_min || t > t_max {
        return None;
    }
    proof {
        lemma_fp_mul_bound(t as int, da as int, T_LIMIT as int, DIR_LIMIT as int);
        lemma_fp_mul_bound(t as int, db as int, T_LIMIT as int, DIR_LIMIT as int);
    }
    let a = oa + fp_mul(t, da);
    let b = ob + fp_mul(t, db);
    if a < a0 || a > a1 || b < b0 || b > b1 {
        return None;
    }
    proof {
        lemma_div_ratio_bounded(a as int - a0 as int, a1 as int - a0 as int);
        lemma_div_ratio_bounded(b as int - b0 as int, b1 as int - b0 as int);
    }
    let u = fp_div(a - a0, a1 - a0);
    let v = fp_div(b - b0, b1 - b0);
    Some((t, u, v))
}

/// The plane-crossing division stays in `i64`.
proof fn lemma_rect_t_fits(num: int, dk: int)
    by (nonlinear_arith)
    requires
        dk != 0,
        -0xD00_0000 <= num <= 0xD00_0000,
    ensures
        i64::MIN <= fp_div_any_s(num, dk) <= i64::MAX,
{
}

/// The hit of a rectangle in the plane z = k.
pub open spec fn xy_rect_hit_s(
    x0: i64,
    x1: i64,
    y0: i64,
    y1: i64,
    k: i64,
    ray: Ray,
    t_min: int,
    t_max: int,
) -> Option<Hit> {
    match rect_core_s(
        x0,
        x1,
        y0,
        y1,
        k,
        ray.origin.x,
        ray.origin.y,
        ray.origin.z,
        ray.direction.x,
        ray.direction.y,
        ray.direction.z,
        t_min,
        t_max,
    ) {
        None => None,
        Some((t, u, v)) => {
            if !strictly_inside(rect_box_s(x0, x1, y0, y1, k, 2), ray, t, 1) {
                None
            } else {
                Some(
                    make_hit_s(
                        t as i64,
                        u as i64,
                        v as i64,
                        crate::ray::point_at_s(ray, t),
                        ray,
                        Vec3 { x: 0, y: 0, z: 65536 },
                    ),
                )
            }
        },
    }
}

/// The hit of a rectangle in the plane y = k.
pub open spec fn xz_rect_hit_s(
    x0: i64,
    x1: i64,
    z0: i64,
    z1: i64,
    k: i64,
    ray: Ray,
    t_min: int,
    t_max: int,
) -> Option<Hit> {
    match rect_core_s(
        x0,
        x1,
        z0,
        z1,
        k,
        ray.origin.x,
        ray.origin.z,
        ray.origin.y,
        ray.direction.x,
        ray.direction.z,
        ray.direction.y,
        t_min,
        t_max,
    ) {
        None => None,
        Some((t, u, v)) => {
            if !strictly_inside(rect_box_s(x0, x1, z0, z1, k, 1), ray, t, 1) {
                None
            } else {
                Some(
                    make_hit_s(
                        t as i64,
                        u as i64,
                        v as i64,
                        crate::ray::point_at_s(ray, t),
                        ray,
                        Vec3 { x: 0, y: 65536, z: 0 },
                    ),
                )
            }
        },
    }
}

/// The hit of a rectangle in the plane x = k.
pub open spec fn yz_rect_hit_s(
    y0: i64,
    y1: i64,
    z0: i64,
    z1: i64,
    k: i64,
    ray: Ray,
    t_min: int,
    t_max: int,
) -> Option<Hit> {
    match rect_core_s(
        y0,
        y1,
        z0,
        z1,
        k,
        ray.origin.y,
        ray.origin.z,
        ray.origin.x,
        ray.direction.y,
        ray.direction.z,
        ray.direction.x,
        t_min,
        t_max,
    ) {
        None => None,
        Some((t, u, v)) => {
            if !strictly_inside(rect_box_s(y0, y1, z0, z1, k, 0), ray, t, 1) {
                None
            } else {
                Some(
                    make_hit_s(
                        t as i64,
                        u as i64,
                        v as i64,
                        crate::ray::point_at_s(ray, t),
                        ray,
                        Vec3 { x: 65536, y: 0, z: 0 },
                    ),
                )
            }
        },
    }
}

/// Intersect a rectangle in the plane z = k. Decides `xy_rect_hit_s`.
pub fn xy_rect_hit(
    x0: i64,
    x1: i64,
    y0: i64,
    y1: i64,
    k: i64,
    ray: &Ray,
    t_min: i64,
    t_max: i64,
) -> (r: Option<Hit>)
    requires
        rect_params_wf(x0, x1, y0, y1, k),
        ray.wf(),
        0 <= t_min <= t_max <= T_LIMIT,
    ensures
        r == xy_rect_hit_s(x0, x1, y0, y1, k, *ray, t_min as int, t_max as int),
        r matches Some(h) ==> {
            &&& h.wf()
            &&& t_min <= h.t <= t_max
            &&& strictly_inside(rect_box_s(x0, x1, y0, y1, k, 2), *ray, h.t as int, 1)
        },
{
    let core = rect_core(
        x0,
        x1,
        y0,
        y1,
        k,
        ray.origin.x,
        ray.origin.y,
        ray.origin.z,
        ray.direction.x,
        ray.direction.y,
        ray.direction.z,
        t_min,
        t_max,
    );
    match core {
        None => None,
        Some(q) => {
            let (t, u, v) = q;
            let bx = AABB::new(
                Vec3 { x: x0 - BOX_PAD, y: y0 - BOX_PAD, z: k - BOX_PAD },
                Vec3 { x: x1 + BOX_PAD, y: y1 + BOX_PAD, z: k + BOX_PAD },
            );
            if !inside_box(&bx, ray, t) {
                None
            } else {
                let p = ray.point_at(t);
                proof {
                    lemma_hit_point_bounds(bx, *ray, t as int);
                }
                Some(Hit::new(t, u, v, p, ray, Vec3 { x: 0, y: 0, z: 65536 }))
            }
        },
    }
}

/// Intersect a rectangle in the plane y = k. Decides `xz_rect_hit_s`.
pub fn xz_rect_hit(
    x0: i64,
    x1: i64,
    z0: i64,
    z1: i64,
    k: i64,
    ray: &Ray,
    t_min: i64,
    t_max: i64,
) -> (r: Option<Hit>)
    requires
        rect_params_wf(x0, x1, z0, z1, k),
        ray.wf(),
        0 <= t_min <= t_max <= T_LIMIT,
    ensures
        r == xz_rect_hit_s(x0, x1, z0, z1, k, *ray, t_min as int, t_max as int),
        r matches Some(h) ==> {
            &&& h.wf()
            &&& t_min <= h.t <= t_max
            &&& strictly_inside(rect_box_s(x0, x1, z0, z1, k, 1), *ray, h.t as int, 1)
        },
{
    let core = rect_core(
        x0,
        x1,
        z0,
        z1,
        k,
        ray.origin.x,
        ray.origin.z,
        ray.origin.y,
        ray.direction.x,
        ray.direction.z,
        ray.direction.y,
        t_min,
        t_max,
    );
    match core {
        None => None,
        Some(q) => {
            let (t, u, v) = q;
            let bx = AABB::new(
                Vec3 { x: x0 - BOX_PAD, y: k - BOX_PAD, z: z0 - BOX_PAD },
                Vec3 { x: x1 + BOX_PAD, y: k + BOX_PAD, z: z1 + BOX_PAD },
            );
            if !inside_box(&bx, ray, t) {
                None
            } else {
                let p = ray.point_at(t);
                proof {
                    lemma_hit_point_bounds(bx, *ray, t as int);
                }
                Some(Hit::new(t, u, v, p, ray, Vec3 { x: 0, y: 65536, z: 0 }))
            }
        },
    }
}

/// Intersect a rectangle in the plane x = k. Decides `yz_rect_hit_s`.
pub fn yz_rect_hit(
    y0: i64,
    y1: i64,
    z0: i64,
    z1: i64,
    k: i64,
    ray: &Ray,
    t_min: i64,
    t_max: i64,
) -> (r: Option<Hit>)
    requires
        rect_params_wf(y0, y1, z0, z1, k),
        ray.wf(),
        0 <= t_min <= t_max <= T_LIMIT,
    ensures
        r == yz_rect_hit_s(y0, y1, z0, z1, k, *ray, t_min as int, t_max as int),
        r matches Some(h) ==> {
            &&& h.wf()
            &&& t_min <= h.t <= t_max
            &&& strictly_inside(rect_box_s(y0, y1, z0, z1, k, 0), *ray, h.t as int, 1)
        },
{
    let core = rect_core(
        y0,
        y1,
        z0,
        z1,
        k,
        ray.origin.y,
        ray.origin.z,
        ray.origin.x,
        ray.direction.y,
        ray.direction.z,
        ray.direction.x,
        t_min,
        t_max,
    );
    match core {
        None => None,
        Some(q) => {
            let (t, u, v) = q;
            let bx = AABB::new(
                Vec3 { x: k - BOX_PAD, y: y0 - BOX_PAD, z: z0 - BOX_PAD },
                Vec3 { x: k + BOX_PAD, y: y1 + BOX_PAD, z: z1 + BOX_PAD },
            );
            if !inside_box(&bx, ray, t) {
                None
            } else {
                let p = ray.point_at(t);
                proof {
                    lemma_hit_point_bounds(bx, *ray, t as int);
                }
                Some(Hit::new(t, u, v, p, ray, Vec3 { x: 65536, y: 0, z: 0 }))
            }
        },
    }
}

/// A point strictly inside a box of the scene's coordinate range lies
/// within the origin range componentwise.
proof fn lemma_hit_point_bounds(bx: AABB, ray: Ray, t: int)
    requires
        strictly_inside(bx, ray, t, 1),
        crate::vec3::in_range(bx.min, 0x1000_0000),
        crate::vec3::in_range(bx.max, 0x1000_0000),
    ensures
        in_range(crate::ray::point_at_s(ray, t), 0x1000_0001int),
        bx.min.x <= ray.origin.x + fp_mul_s(t, ray.direction.x as int) <= bx.max.x,
        bx.min.y <= ray.origin.y + fp_mul_s(t, ray.direction.y as int) <= bx.max.y,
        bx.min.z <= ray.origin.z + fp_mul_s(t, ray.direction.z as int) <= bx.max.z,
{
    lemma_point_in_box(bx.min.x as int, bx.max.x as int, ray.origin.x as int, ray.direction.x as int, t);
    lemma_point_in_box(bx.min.y as int, bx.max.y as int, ray.origin.y as int, ray.direction.y as int, t);
    lemma_point_in_box(bx.min.z as int, bx.max.z as int, ray.origin.z as int, ray.direction.z as int, t);
}

pub struct Sphere {
    pub center: Vec3,
    pub radius: i64,
    pub material: Material,
}

impl Sphere {
    pub open spec fn wf(self) -> bool {
        &&& sphere_params_wf(self.center, self.radius)
        &&& self.material.wf()
    }

    pub fn new(center: Vec3, radius: i64, material: Material) -> (r: Sphere)
        requires
            sphere_params_wf(center, radius),
            material.wf(),
        ensures
            r == (Sphere { center, radius, material }),
            r.wf(),
    {
        Sphere { center, radius, material }
    }
}

pub struct XyRect {
    pub x0: i64,
    pub x1: i64,
    pub y0: i64,
    pub y1: i64,
    pub k: i64,
    pub material: Material,
}

impl XyRect {
    pub open spec fn wf(self) -> bool {
        rect_params_wf(self.x0, self.x1, self.y0, self.y1, self.k) && self.material.wf()
    }
}

pub struct XzRect {
    pub x0: i64,
    pub x1: i64,
    pub z0: i64,
    pub z1: i64,
    pub k: i64,
    pub material: Material,
}

impl XzRect {
    pub open spec fn wf(self) -> bool {
        rect_params_wf(self.x0, self.x1, self.z0, self.z1, self.k) && self.material.wf()
    }
}

pub struct YzRect {
    pub y0: i64,
    pub y1: i64,
    pub z0: i64,
    pub z1: i64,
    pub k: i64,
    pub material: Material,
}

impl YzRect {
    pub open spec fn wf(self) -> bool {
        rect_params_wf(self.y0, self.y1, self.z0, self.z1, self.k) && self.material.wf()
    }
}

/// One of the three rectangle orientations.
pub enum Rect {
    Xy(XyRect),
    Xz(XzRect),
    Yz(YzRect),
}

impl Rect {
    pub open spec fn wf(self) -> bool {
        match self {
            Rect::Xy(r) => r.wf(),
            Rect::Xz(r) => r.wf(),
            Rect::Yz(r) => r.wf(),
        }
    }

    pub fn xy(x0: i64, x1: i64, y0: i64, y1: i64, k: i64, material: Material) -> (r: Rect)
        requires
            rect_params_wf(x0, x1, y0, y1, k),
            material.wf(),
        ensures
            r == Rect::Xy(XyRect { x0, x1, y0, y1, k, material }),
            r.wf(),
    {
        Rect::Xy(XyRect { x0, x1, y0, y1, k, material })
    }

    pub fn xz(x0: i64, x1: i64, z0: i64, z1: i64, k: i64, material: Material) -> (r: Rect)
        requires
            rect_params_wf(x0, x1, z0, z1, k),
            material.wf(),
        ensures
            r == Rect::Xz(XzRect { x0, x1, z0, z1, k, material }),
            r.wf(),
    {
        Rect::Xz(XzRect { x0, x1, z0, z1, k, material })
    }

    pub fn yz(y0: i64, y1: i64, z0: i64, z1: i64, k: i64, material: Material) -> (r: Rect)
        requires
            rect_params_wf(y0, y1, z0, z1, k),
            material.wf(),
        ensures
            r == Rect::Yz(YzRect { y0, y1, z0, z1, k, material }),
            r.wf(),
    {
        Rect::Yz(YzRect { y0, y1, z0, z1, k, material })
    }
}

/// A box: six axis-aligned faces around [min, max], one shared material.
pub struct Cube {
    pub min: Vec3,
    pub max: Vec3,
    pub material: Material,
}

impl Cube {
    pub open spec fn wf(self) -> bool {
        &&& in_range(self.min, COORD_LIMIT as int)
        &&& in_range(self.max, COORD_LIMIT as int)
        &&& self.min.x < self.max.x
        &&& self.min.y < self.max.y
        &&& self.min.z < self.max.z
        &&& self.material.wf()
    }
}

/// The padded box of a cube.
pub open spec fn cube_box_s(c: Cube) -> AABB {
    AABB {
        min: Vec3 {
            x: (c.min.x - BOX_PAD) as i64,
            y: (c.min.y - BOX_PAD) as i64,
            z: (c.min.z - BOX_PAD) as i64,
        },
        max: Vec3 {
            x: (c.max.x + BOX_PAD) as i64,
            y: (c.max.y + BOX_PAD) as i64,
            z: (c.max.z + BOX_PAD) as i64,
        },
    }
}

/// The nearest face hit of a cube: the six faces are tried in a fixed
/// order, each against the window closed by the best hit so far.
pub open spec fn cube_hit_s(c: Cube, ray: Ray, t_min: int, t_max: int) -> Option<Hit> {
    let h0: Option<Hit> = None;
    let w0 = t_max;
    let c1 = xy_rect_hit_s(c.min.x, c.max.x, c.min.y, c.max.y, c.min.z, ray, t_min, w0);
    let h1 = if c1 is Some { c1 } else { h0 };
    let w1 = if c1 is Some { c1.unwrap().t as int } else { w0 };
    let c2 = xy_rect_hit_s(c.min.x, c.max.x, c.min.y, c.max.y, c.max.z, ray, t_min, w1);
    let h2 = if c2 is Some { c2 } else { h1 };
    let w2 = if c2 is Some { c2.unwrap().t as int } else { w1 };
    let c3 = xz_rect_hit_s(c.min.x, c.max.x, c.min.z, c.max.z, c.max.y, ray, t_min, w2);
    let h3 = if c3 is Some { c3 } else { h2 };
    let w3 = if c3 is Some { c3.unwrap().t as int } else { w2 };
    let c4 = xz_rect_hit_s(c.min.x, c.max.x, c.min.z, c.max.z, c.min.y, ray, t_min, w3);
    let h4 = if c4 is Some { c4 } else { h3 };
    let w4 = if c4 is Some { c4.unwrap().t as int } else { w3 };
    let c5 = yz_rect_hit_s(c.min.y, c.max.y, c.min.z, c.max.z, c.max.x, ray, t_min, w4);
    let h5 = if c5 is Some { c5 } else { h4 };
    let w5 = if c5 is Some { c5.unwrap().t as int } else { w4 };
    let c6 = yz_rect_hit_s(c.min.y, c.max.y, c.min.z, c.max.z, c.min.x, ray, t_min, w5);
    if c6 is Some { c6 } else { h5 }
}

/// Intersect a cube: the nearest of its six faces. Decides `cube_hit_s`.
pub fn cube_hit(c: &Cube, ray: &Ray, t_min: i64, t_max: i64) -> (r: Option<Hit>)
    requires
        c.wf(),
        ray.wf(),
        0 <= t_min <= t_max <= T_LIMIT,
    ensures
        r == cube_hit_s(*c, *ray, t_min as int, t_max as int),
        r matches Some(h) ==> {
            &&& h.wf()
            &&& t_min <= h.t <= t_max
            &&& strictly_inside(cube_box_s(*c), *ray, h.t as int, 1)
        },
{
    let mut best: Option<Hit> = None;
    let mut window: i64 = t_max;

    let c1 = xy_rect_hit(c.min.x, c.max.x, c.min.y, c.max.y, c.min.z, ray, t_min, window);
    if let Some(h) = c1 {
        proof {
            lemma_inside_face_box(*c, *ray, h.t as int, 2, c.min.z as int);
        }
        window = h.t;
        best = Some(h);
    }
    let c2 = xy_rect_hit(c.min.x, c.max.x, c.min.y, c.max.y, c.max.z, ray, t_min, window);
    if let Some(h) = c2 {
        proof {
            lemma_inside_face_box(*c, *ray, h.t as int, 2, c.max.z as int);
        }
        window = h.t;
        best = Some(h);
    }
    let c3 = xz_rect_hit(c.min.x, c.max.x, c.min.z, c.max.z, c.max.y, ray, t_min, window);
    if let Some(h) = c3 {
        proof {
            lemma_inside_face_box(*c, *ray, h.t as int, 1, c.max.y as int);
        }
        window = h.t;
        best = Some(h);
    }
    let c4 = xz_rect_hit(c.min.x, c.max.x, c.min.z, c.max.z, c.min.y, ray, t_min, window);
    if let Some(h) = c4 {
        proof {
            lemma_inside_face_box(*c, *ray, h.t as int, 1, c.min.y as int);
        }
        window = h.t;
        best = Some(h);
    }
    let c5 = yz_rect_hit(c.min.y, c.max.y, c.min.z, c.max.z, c.max.x, ray, t_min, window);
    if let Some(h) = c5 {
        proof {
            lemma_inside_face_box(*c, *ray, h.t as int, 0, c.max.x as int);
        }
        window = h.t;
        best = Some(h);
    }
    let c6 = yz_rect_hit(c.min.y, c.max.y, c.min.z, c.max.z, c.min.x, ray, t_min, window);
    if let Some(h) = c6 {
        proof {
            lemma_inside_face_box(*c, *ray, h.t as int, 0, c.min.x as int);
        }
        window = h.t;
        best = Some(h);
    }
    best
}

/// A face's padded box sits inside the cube's padded box.
proof fn lemma_inside_face_box(c: Cube, ray: Ray, t: int, axis: int, k: int)
    requires
        in_range(c.min, COORD_LIMIT as int),
        in_range(c.max, COORD_LIMIT as int),
        c.min.x <= c.max.x,
        c.min.y <= c.max.y,
        c.min.z <= c.max.z,
        0 <= axis <= 2,
        axis == 2 ==> (k == c.min.z || k == c.max.z) && strictly_inside(
            rect_box_s(c.min.x, c.max.x, c.min.y, c.max.y, k as i64, 2),
            ray,
            t,
            1,
        ),
        axis == 1 ==> (k == c.min.y || k == c.max.y) && strictly_inside(
            rect_box_s(c.min.x, c.max.x, c.min.z, c.max.z, k as i64, 1),
            ray,
            t,
            1,
        ),
        axis == 0 ==> (k == c.min.x || k == c.max.x) && strictly_inside(
            rect_box_s(c.min.y, c.max.y, c.min.z, c.max.z, k as i64, 0),
            ray,
            t,
            1,
        ),
    ensures
        strictly_inside(cube_box_s(c), ray, t, 1),
{
    if axis == 2 {
        crate::aabb::lemma_inside_monotone(
            cube_box_s(c),
            rect_box_s(c.min.x, c.max.x, c.min.y, c.max.y, k as i64, 2),
            ray,
            t,
            1,
        );
    } else if axis == 1 {
        crate::aabb::lemma_inside_monotone(
            cube_box_s(c),
            rect_box_s(c.min.x, c.max.x, c.min.z, c.max.z, k as i64, 1),
            ray,
            t,
            1,
        );
    } else {
        crate::aabb::lemma_inside_monotone(
            cube_box_s(c),
            rect_box_s(c.min.y, c.max.y, c.min.z, c.max.z, k as i64, 0),
            ray,
            t,
            1,
        );
    }
}

/// A sphere whose center moves linearly from the base sphere's center to
/// `center_final` across [time_start, time_end].
pub struct Moving {
    pub object: Sphere,
    pub center_final: Vec3,
    pub time_start: i64,
    pub time_end: i64,
}

impl Moving {
    pub open spec fn wf(self) -> bool {
        &&& self.object.wf()
        &&& in_range(self.center_final, COORD_LIMIT as int)
        &&& 0 <= self.time_start < self.time_end <= TIME_LIMIT
    }
}

/// The interpolation fraction at a time, clamped into [0, 1].
pub open spec fn moving_frac_s(ts: i64, te: i64, time: i64) -> int {
    if time <= ts {
        0
    } else if time >= te {
        65536
    } else {
        fp_div_s(time - ts, te - ts)
    }
}

/// The interpolated center at a time.
pub open spec fn moving_center_s(m: Moving, time: i64) -> Vec3 {
    let f = moving_frac_s(m.time_start, m.time_end, time);
    let c0 = m.object.center;
    let c1 = m.center_final;
    Vec3 {
        x: (c0.x + fp_mul_s(f, c1.x - c0.x)) as i64,
        y: (c0.y + fp_mul_s(f, c1.y - c0.y)) as i64,
        z: (c0.z + fp_mul_s(f, c1.z - c0.z)) as i64,
    }
}

/// A clamped interpolation lands between its endpoints.
proof fn lemma_lerp_between(f: int, a: int, b: int)
    by (nonlinear_arith)
    requires
        0 <= f <= 65536,
    ensures
        a <= b ==> a <= a + fp_mul_s(f, b - a) <= b,
        a > b ==> b <= a + fp_mul_s(f, b - a) <= a,
{
}

/// The interpolated center stays within the coordinate range.
pub proof fn lemma_moving_center_in_range(m: Moving, time: i64)
    requires
        m.wf(),
    ensures
        in_range(moving_center_s(m, time), COORD_LIMIT as int),
        sphere_params_wf(moving_center_s(m, time), m.object.radius),
{
    let f = moving_frac_s(m.time_start, m.time_end, time);
    if m.time_start < time < m.time_end {
        lemma_div_ratio_bounded(
            time as int - m.time_start as int,
            m.time_end as int - m.time_start as int,
        );
    }
    lemma_lerp_between(f, m.object.center.x as int, m.center_final.x as int);
    lemma_lerp_between(f, m.object.center.y as int, m.center_final.y as int);
    lemma_lerp_between(f, m.object.center.z as int, m.center_final.z as int);
}

/// Executable interpolated center.
pub fn moving_center(m: &Moving, time: i64) -> (r: Vec3)
    requires
        m.wf(),
    ensures
        r == moving_center_s(*m, time),
        in_range(r, COORD_LIMIT as int),
{
    let f: i64;
    if time <= m.time_start {
        f = 0;
    } else if time >= m.time_end {
        f = 65536;
    } else {
        proof {
            lemma_div_ratio_bounded(
                time as int - m.time_start as int,
                m.time_end as int - m.time_start as int,
            );
        }
        f = fp_div(time - m.time_start, m.time_end - m.time_start);
    }
    proof {
        lemma_moving_center_in_range(*m, time);
        lemma_lerp_between(f as int, m.object.center.x as int, m.center_final.x as int);
        lemma_lerp_between(f as int, m.object.center.y as int, m.center_final.y as int);
        lemma_lerp_between(f as int, m.object.center.z as int, m.center_final.z as int);
    }
    Vec3 {
        x: m.object.center.x + fp_mul(f, m.center_final.x - m.object.center.x),
        y: m.object.center.y + fp_mul(f, m.center_final.y - m.object.center.y),
        z: m.object.center.z + fp_mul(f, m.center_final.z - m.object.center.z),
    }
}

/// The hit of a moving sphere: the sphere protocol at the interpolated
/// center for the ray's own time sample.
pub open spec fn moving_hit_s(m: Moving, ray: Ray, t_min: int, t_max: int) -> Option<Hit> {
    sphere_hit_s(moving_center_s(m, ray.time), m.object.radius, ray, t_min, t_max)
}

/// The padded box of a moving sphere over a time window: the union of the
/// boxes at the window's two ends.
pub open spec fn moving_box_s(m: Moving, b0: i64, b1: i64) -> AABB {
    crate::aabb::union_s(
        sphere_box_s(moving_center_s(m, b0), m.object.radius),
        sphere_box_s(moving_center_s(m, b1), m.object.radius),
    )
}

/// Every geometric primitive of a scene.
pub enum Shape {
    Sphere(Sphere),
    XyRect(XyRect),
    XzRect(XzRect),
    YzRect(YzRect),
    Cube(Cube),
    MovingSphere(Moving),
}

/// The intersection of any shape.
pub open spec fn shape_hit_s(s: Shape, ray: Ray, t_min: int, t_max: int) -> Option<Hit> {
    match s {
        Shape::Sphere(sp) => sphere_hit_s(sp.center, sp.radius, ray, t_min, t_max),
        Shape::XyRect(r) => xy_rect_hit_s(r.x0, r.x1, r.y0, r.y1, r.k, ray, t_min, t_max),
        Shape::XzRect(r) => xz_rect_hit_s(r.x0, r.x1, r.z0, r.z1, r.k, ray, t_min, t_max),
        Shape::YzRect(r) => yz_rect_hit_s(r.y0, r.y1, r.z0, r.z1, r.k, ray, t_min, t_max),
        Shape::Cube(c) => cube_hit_s(c, ray, t_min, t_max),
        Shape::MovingSphere(m) => moving_hit_s(m, ray, t_min, t_max),
    }
}

/// The padded bounding box of any shape over a time window.
pub open spec fn shape_box_s(s: Shape, b0: i64, b1: i64) -> AABB {
    match s {
        Shape::Sphere(sp) => sphere_box_s(sp.center, sp.radius),
        Shape::XyRect(r) => rect_box_s(r.x0, r.x1, r.y0, r.y1, r.k, 2),
        Shape::XzRect(r) => rect_box_s(r.x0, r.x1, r.z0, r.z1, r.k, 1),
        Shape::YzRect(r) => rect_box_s(r.y0, r.y1, r.z0, r.z1, r.k, 0),
        Shape::Cube(c) => cube_box_s(c),
        Shape::MovingSphere(m) => moving_box_s(m, b0, b1),
    }
}

impl Shape {
    pub open spec fn wf(self) -> bool {
        match self {
            Shape::Sphere(sp) => sp.wf(),
            Shape::XyRect(r) => r.wf(),
            Shape::XzRect(r) => r.wf(),
            Shape::YzRect(r) => r.wf(),
            Shape::Cube(c) => c.wf(),
            Shape::MovingSphere(m) => m.wf(),
        }
    }

    pub fn sphere(x: i64, y: i64, z: i64, radius: i64, material: Material) -> (s: Shape)
        requires
            sphere_params_wf(Vec3 { x, y, z }, radius),
            material.wf(),
        ensures
            s == Shape::Sphere(Sphere { center: Vec3 { x, y, z }, radius, material }),
            s.wf(),
    {
        Shape::Sphere(Sphere { center: Vec3 { x, y, z }, radius, material })
    }

    pub fn xy_rect(x0: i64, x1: i64, y0: i64, y1: i64, k: i64, material: Material) -> (s: Shape)
        requires
            rect_params_wf(x0, x1, y0, y1, k),
            material.wf(),
        ensures
            s == Shape::XyRect(XyRect { x0, x1, y0, y1, k, material }),
            s.wf(),
    {
        Shape::XyRect(XyRect { x0, x1, y0, y1, k, material })
    }

    pub fn xz_rect(x0: i64, x1: i64, z0: i64, z1: i64, k: i64, material: Material) -> (s: Shape)
        requires
            rect_params_wf(x0, x1, z0, z1, k),
            material.wf(),
        ensures
            s == Shape::XzRect(XzRect { x0, x1, z0, z1, k, material }),
            s.wf(),
    {
        Shape::XzRect(XzRect { x0, x1, z0, z1, k, material })
    }

    pub fn yz_rect(y0: i64, y1: i64, z0: i64, z1: i64, k: i64, material: Material) -> (s: Shape)
        requires
            rect_params_wf(y0, y1, z0, z1, k),
            material.wf(),
        ensures
            s == Shape::YzRect(YzRect { y0, y1, z0, z1, k, material }),
            s.wf(),
    {
        Shape::YzRect(YzRect { y0, y1, z0, z1, k, material })
    }

    pub fn cube(x0: i64, y0: i64, z0: i64, x1: i64, y1: i64, z1: i64, material: Material) -> (s:
        Shape)
        requires
            -COORD_LIMIT <= x0 < x1 <= COORD_LIMIT,
            -COORD_LIMIT <= y0 < y1 <= COORD_LIMIT,
            -COORD_LIMIT <= z0 < z1 <= COORD_LIMIT,
            material.wf(),
        ensures
            s == Shape::Cube(
                Cube { min: Vec3 { x: x0, y: y0, z: z0 }, max: Vec3 { x: x1, y: y1, z: z1 }, material },
            ),
            s.wf(),
    {
        Shape::Cube(
            Cube { min: Vec3 { x: x0, y: y0, z: z0 }, max: Vec3 { x: x1, y: y1, z: z1 }, material },
        )
    }

    pub fn moving_sphere(
        x0: i64,
        y0: i64,
        z0: i64,
        x1: i64,
        y1: i64,
        z1: i64,
        radius: i64,
        material: Material,
        time_start: i64,
        time_end: i64,
    ) -> (s: Shape)
        requires
            sphere_params_wf(Vec3 { x: x0, y: y0, z: z0 }, radius),
            in_range(Vec3 { x: x1, y: y1, z: z1 }, COORD_LIMIT as int),
            material.wf(),
            0 <= time_start < time_end <= TIME_LIMIT,
        ensures
            s == Shape::MovingSphere(
                Moving {
                    object: Sphere { center: Vec3 { x: x0, y: y0, z: z0 }, radius, material },
                    center_final: Vec3 { x: x1, y: y1, z: z1 },
                    time_start,
                    time_end,
                },
            ),
            s.wf(),
    {
        Shape::MovingSphere(
            Moving {
                object: Sphere { center: Vec3 { x: x0, y: y0, z: z0 }, radius, material },
                center_final: Vec3 { x: x1, y: y1, z: z1 },
                time_start,
                time_end,
            },
        )
    }

    /// Decide `wf` at run time: whether this shape's parameters lie in
    /// the tracer's working ranges. Construction-time validation for
    /// callers outside the proofs.
    pub fn is_wf(&self) -> (r: bool)
        ensures
            r == self.wf(),
    {
        match self {
            Shape::Sphere(sp) => sphere_params_check(&sp.center, sp.radius) && sp.material.is_wf(),
            Shape::XyRect(rc) => rect_params_check(rc.x0, rc.x1, rc.y0, rc.y1, rc.k)
                && rc.material.is_wf(),
            Shape::XzRect(rc) => rect_params_check(rc.x0, rc.x1, rc.z0, rc.z1, rc.k)
                && rc.material.is_wf(),
            Shape::YzRect(rc) => rect_params_check(rc.y0, rc.y1, rc.z0, rc.z1, rc.k)
                && rc.material.is_wf(),
            Shape::Cube(c) => {
                -COORD_LIMIT <= c.min.x && c.min.x < c.max.x && c.max.x <= COORD_LIMIT
                    && -COORD_LIMIT <= c.min.y && c.min.y < c.max.y && c.max.y <= COORD_LIMIT
                    && -COORD_LIMIT <= c.min.z && c.min.z < c.max.z && c.max.z <= COORD_LIMIT
                    && c.material.is_wf()
            },
            Shape::MovingSphere(m) => {
                sphere_params_check(&m.object.center, m.object.radius) && -COORD_LIMIT
                    <= m.center_final.x && m.center_final.x <= COORD_LIMIT && -COORD_LIMIT
                    <= m.center_final.y && m.center_final.y <= COORD_LIMIT && -COORD_LIMIT
                    <= m.center_final.z && m.center_final.z <= COORD_LIMIT && 0 <= m.time_start
                    && m.time_start < m.time_end && m.time_end <= TIME_LIMIT
                    && m.object.material.is_wf()
            },
        }
    }

    /// The shape's material.
    pub fn material(&self) -> (r: &Material)
        ensures
            *r == self.material_s(),
    {
        match self {
            Shape::Sphere(sp) => &sp.material,
            Shape::XyRect(r) => &r.material,
            Shape::XzRect(r) => &r.material,
            Shape::YzRect(r) => &r.material,
            Shape::Cube(c) => &c.material,
            Shape::MovingSphere(m) => &m.object.material,
        }
    }

    pub open spec fn material_s(self) -> Material {
        match self {
            Shape::Sphere(sp) => sp.material,
            Shape::XyRect(r) => r.material,
            Shape::XzRect(r) => r.material,
            Shape::YzRect(r) => r.material,
            Shape::Cube(c) => c.material,
            Shape::MovingSphere(m) => m.object.material,
        }
    }

    /// Intersect this shape. Decides `shape_hit_s` exactly.
    pub fn hit(&self, ray: &Ray, t_min: i64, t_max: i64) -> (r: Option<Hit>)
        requires
            self.wf(),
            ray.wf(),
            0 <= t_min <= t_max <= T_LIMIT,
        ensures
            r == shape_hit_s(*self, *ray, t_min as int, t_max as int),
            r matches Some(h) ==> h.wf() && t_min <= h.t <= t_max,
    {
        match self {
            Shape::Sphere(sp) => sphere_hit(&sp.center, sp.radius, ray, t_min, t_max),
            Shape::XyRect(r) => xy_rect_hit(r.x0, r.x1, r.y0, r.y1, r.k, ray, t_min, t_max),
            Shape::XzRect(r) => xz_rect_hit(r.x0, r.x1, r.z0, r.z1, r.k, ray, t_min, t_max),
            Shape::YzRect(r) => yz_rect_hit(r.y0, r.y1, r.z0, r.z1, r.k, ray, t_min, t_max),
            Shape::Cube(c) => cube_hit(c, ray, t_min, t_max),
            Shape::MovingSphere(m) => {
                let center = moving_center(m, ray.time);
                proof {
                    lemma_moving_center_in_range(*m, ray.time);
                }
                sphere_hit(&center, m.object.radius, ray, t_min, t_max)
            },
        }
    }

    /// The shape's padded bounding box over a time window; every wf shape
    /// has one.
    pub fn bounding_box(&self, time_start: i64, time_end: i64) -> (r: Option<AABB>)
        requires
            self.wf(),
        ensures
            r matches Some(bx) && bx == shape_box_s(*self, time_start, time_end),
            r matches Some(bx) ==> bx.wf(),
    {
        match self {
            Shape::Sphere(sp) => Some(sphere_box(&sp.center, sp.radius)),
            Shape::XyRect(r) => Some(
                AABB::new(
                    Vec3 { x: r.x0 - BOX_PAD, y: r.y0 - BOX_PAD, z: r.k - BOX_PAD },
                    Vec3 { x: r.x1 + BOX_PAD, y: r.y1 + BOX_PAD, z: r.k + BOX_PAD },
                ),
            ),
            Shape::XzRect(r) => Some(
                AABB::new(
                    Vec3 { x: r.x0 - BOX_PAD, y: r.k - BOX_PAD, z: r.z0 - BOX_PAD },
                    Vec3 { x: r.x1 + BOX_PAD, y: r.k + BOX_PAD, z: r.z1 + BOX_PAD },
                ),
            ),
            Shape::YzRect(r) => Some(
                AABB::new(
                    Vec3 { x: r.k - BOX_PAD, y: r.y0 - BOX_PAD, z: r.z0 - BOX_PAD },
                    Vec3 { x: r.k + BOX_PAD, y: r.y1 + BOX_PAD, z: r.z1 + BOX_PAD },
                ),
            ),
            Shape::Cube(c) => Some(
                AABB::new(
                    Vec3 { x: c.min.x - BOX_PAD, y: c.min.y - BOX_PAD, z: c.min.z - BOX_PAD },
                    Vec3 { x: c.max.x + BOX_PAD, y: c.max.y + BOX_PAD, z: c.max.z + BOX_PAD },
                ),
            ),
            Shape::MovingSphere(m) => {
                let c0 = moving_center(m, time_start);
                let c1 = moving_center(m, time_end);
                proof {
                    lemma_moving_center_in_range(*m, time_start);
                    lemma_moving_center_in_range(*m, time_end);
                }
                let b0 = sphere_box(&c0, m.object.radius);
                let b1 = sphere_box(&c1, m.object.radius);
                Some(b0.surrounding_box(&b1))
            },
        }
    }
}

/// A well-formed shape carries a well-formed material.
pub proof fn lemma_shape_material_wf(s: Shape)
    requires
        s.wf(),
    ensures
        s.material_s().wf(),
{
    match s {
        Shape::Sphere(_) => {},
        Shape::XyRect(_) => {},
        Shape::XzRect(_) => {},
        Shape::YzRect(_) => {},
        Shape::Cube(_) => {},
        Shape::MovingSphere(_) => {},
    }
}

/// Every shape of a scene is well-formed.
pub open spec fn scene_wf(shapes: Seq<Shape>) -> bool {
    forall|i: int| 0 <= i < shapes.len() ==> #[trigger] shapes[i].wf()
}

/// Decide `sphere_params_wf` at run time.
fn sphere_params_check(center: &Vec3, radius: i64) -> (r: bool)
    ensures
        r == sphere_params_wf(*center, radius),
{
    let ra = if radius >= 0 {
        radius
    } else if radius == i64::MIN {
        return false;
    } else {
        -radius
    };
    -COORD_LIMIT <= center.x && center.x <= COORD_LIMIT && -COORD_LIMIT <= center.y && center.y
        <= COORD_LIMIT && -COORD_LIMIT <= center.z && center.z <= COORD_LIMIT && 1 <= ra && ra
        <= COORD_LIMIT
}

/// Decide `rect_params_wf` at run time.
fn rect_params_check(a0: i64, a1: i64, b0: i64, b1: i64, k: i64) -> (r: bool)
    ensures
        r == rect_params_wf(a0, a1, b0, b1, k),
{
    -COORD_LIMIT <= a0 && a0 < a1 && a1 <= COORD_LIMIT && -COORD_LIMIT <= b0 && b0 < b1 && b1
        <= COORD_LIMIT && -COORD_LIMIT <= k && k <= COORD_LIMIT
}

/// Decide at run time that every shape of a scene is well-formed, so an
/// ill-formed scene can be rejected before any tree is built or any ray
/// traced.
pub fn scene_is_wf(shapes: &Vec<Shape>) -> (r: bool)
    ensures
        r == scene_wf(shapes@),
{
    let mut i: usize = 0;
    while i < shapes.len()
        invariant
            i <= shapes@.len(),
            forall|j: int| 0 <= j < i as int ==> #[trigger] shapes@[j].wf(),
        decreases shapes@.len() - i,
    {
        if !shapes[i].is_wf() {
            return false;
        }
        i = i + 1;
    }
    true
}

/// The id sequence 0, 1, ..., n-1.
pub open spec fn ids_upto(n: int) -> Seq<usize> {
    Seq::new(n as nat, |i: int| i as usize)
}

/// The nearest hit among a list of shape ids, each queried over the full
/// window; the earlier id wins a tie.
pub open spec fn best_over(
    shapes: Seq<Shape>,
    ids: Seq<usize>,
    ray: Ray,
    t_min: int,
    t_max: int,
) -> Option<(usize, Hit)>
    decreases ids.len(),
{
    if ids.len() == 0 {
        None
    } else {
        let prev = best_over(shapes, ids.drop_last(), ray, t_min, t_max);
        let cur = shape_hit_s(shapes[ids.last() as int], ray, t_min, t_max);
        match cur {
            None => prev,
            Some(h) => match prev {
                None => Some((ids.last(), h)),
                Some(p) => {
                    if h.t < p.1.t {
                        Some((ids.last(), h))
                    } else {
                        prev
                    }
                },
            },
        }
    }
}

/// Brute-force nearest hit: scan every shape in order and keep the
/// strictly nearest. Decides `best_over` over all the scene's ids.
pub fn hit(shapes: &Vec<Shape>, ray: &Ray, t_min: i64, t_max: i64) -> (r: Option<(usize, Hit)>)
    requires
        scene_wf(shapes@),
        ray.wf(),
        0 <= t_min <= t_max <= T_LIMIT,
    ensures
        r == best_over(shapes@, ids_upto(shapes@.len() as int), *ray, t_min as int, t_max as int),
        r matches Some(p) ==> p.0 < shapes@.len() && p.1.wf() && t_min <= p.1.t <= t_max,
{
    let mut best: Option<(usize, Hit)> = None;
    let mut i: usize = 0;
    proof {
        assert(ids_upto(0).len() == 0);
    }
    while i < shapes.len()
        invariant
            scene_wf(shapes@),
            ray.wf(),
            0 <= t_min <= t_max <= T_LIMIT,
            i <= shapes@.len(),
            best == best_over(shapes@, ids_upto(i as int), *ray, t_min as int, t_max as int),
            best matches Some(p) ==> p.0 < i && p.1.wf() && t_min <= p.1.t <= t_max,
        decreases shapes@.len() - i,
    {
        let cur = shapes[i].hit(ray, t_min, t_max);
        proof {
            assert(ids_upto(i as int + 1).drop_last() =~= ids_upto(i as int));
            assert(ids_upto(i as int + 1).last() == i);
        }
        match cur {
            Some(h) => {
                match &best {
                    None => {
                        best = Some((i, h));
                    },
                    Some(p) => {
                        if h.t < p.1.t {
                            best = Some((i, h));
                        }
                    },
                }
            },
            None => {},
        }
        i = i + 1;
    }
    best
}

/// Wherever a shape reports a hit, the exact point at the accepted
/// parameter lies strictly inside the shape's padded box over any time
/// window holding the ray's time sample, and the parameter lies in the
/// query window. This is what justifies pruning a subtree whose box the
/// ray misses.
pub proof fn lemma_shape_hit_covers(
    s: Shape,
    ray: Ray,
    t_min: int,
    t_max: int,
    b0: i64,
    b1: i64,
    h: Hit,
)
    requires
        s.wf(),
        shape_hit_s(s, ray, t_min, t_max) == Some(h),
        b0 <= ray.time <= b1,
        0 <= t_min <= t_max <= T_LIMIT,
    ensures
        t_min <= h.t <= t_max,
        strictly_inside(shape_box_s(s, b0, b1), ray, h.t as int, 1),
{
    match s {
        Shape::Sphere(sp) => {},
        Shape::XyRect(r) => {},
        Shape::XzRect(r) => {},
        Shape::YzRect(r) => {},
        Shape::Cube(c) => {
            lemma_cube_hit_covers(c, ray, t_min, t_max, h);
        },
        Shape::MovingSphere(m) => {
            lemma_moving_box_contains(m, b0, b1, ray.time);
            crate::aabb::lemma_inside_monotone(
                moving_box_s(m, b0, b1),
                sphere_box_s(moving_center_s(m, ray.time), m.object.radius),
                ray,
                h.t as int,
                1,
            );
        },
    }
}

/// The cube case: whichever face produced the hit, its box sits inside
/// the cube box, and the chained windows keep the parameter in range.
proof fn lemma_cube_hit_covers(c: Cube, ray: Ray, t_min: int, t_max: int, h: Hit)
    requires
        c.wf(),
        cube_hit_s(c, ray, t_min, t_max) == Some(h),
        0 <= t_min <= t_max <= T_LIMIT,
    ensures
        t_min <= h.t <= t_max,
        strictly_inside(cube_box_s(c), ray, h.t as int, 1),
{
    let w0 = t_max;
    let c1 = xy_rect_hit_s(c.min.x, c.max.x, c.min.y, c.max.y, c.min.z, ray, t_min, w0);
    let w1 = if c1 is Some { c1.unwrap().t as int } else { w0 };
    let c2 = xy_rect_hit_s(c.min.x, c.max.x, c.min.y, c.max.y, c.max.z, ray, t_min, w1);
    let w2 = if c2 is Some { c2.unwrap().t as int } else { w1 };
    let c3 = xz_rect_hit_s(c.min.x, c.max.x, c.min.z, c.max.z, c.max.y, ray, t_min, w2);
    let w3 = if c3 is Some { c3.unwrap().t as int } else { w2 };
    let c4 = xz_rect_hit_s(c.min.x, c.max.x, c.min.z, c.max.z, c.min.y, ray, t_min, w3);
    let w4 = if c4 is Some { c4.unwrap().t as int } else { w3 };
    let c5 = yz_rect_hit_s(c.min.y, c.max.y, c.min.z, c.max.z, c.max.x, ray, t_min, w4);
    let w5 = if c5 is Some { c5.unwrap().t as int } else { w4 };
    let c6 = yz_rect_hit_s(c.min.y, c.max.y, c.min.z, c.max.z, c.min.x, ray, t_min, w5);

    assert(w1 <= w0 && w2 <= w1 && w3 <= w2 && w4 <= w3 && w5 <= w4);
    if c6 == Some(h) && c6 is Some {
        lemma_inside_face_box(c, ray, h.t as int, 0, c.min.x as int);
    } else if c5 == Some(h) && c5 is Some {
        lemma_inside_face_box(c, ray, h.t as int, 0, c.max.x as int);
    } else if c4 == Some(h) && c4 is Some {
        lemma_inside_face_box(c, ray, h.t as int, 1, c.min.y as int);
    } else if c3 == Some(h) && c3 is Some {
        lemma_inside_face_box(c, ray, h.t as int, 1, c.max.y as int);
    } else if c2 == Some(h) && c2 is Some {
        lemma_inside_face_box(c, ray, h.t as int, 2, c.max.z as int);
    } else {
        lemma_inside_face_box(c, ray, h.t as int, 2, c.min.z as int);
    }
}

/// The interpolation fraction is monotone in time.
proof fn lemma_frac_monotone(ts: i64, te: i64, u: i64, v: i64)
    requires
        ts < te,
        u <= v,
    ensures
        moving_frac_s(ts, te, u) <= moving_frac_s(ts, te, v),
        0 <= moving_frac_s(ts, te, u) <= 65536,
        0 <= moving_frac_s(ts, te, v) <= 65536,
{
    if ts < u < te {
        lemma_div_ratio_bounded(u as int - ts as int, te as int - ts as int);
    }
    if ts < v < te {
        lemma_div_ratio_bounded(v as int - ts as int, te as int - ts as int);
    }
    if ts < u < te && ts < v < te {
        vstd::arithmetic::div_mod::lemma_div_is_ordered(
            (u - ts) * 65536,
            (v - ts) * 65536,
            te as int - ts as int,
        );
    }
}

/// The floored product is monotone in its first factor, with the
/// direction set by the second's sign.
proof fn lemma_fp_mul_monotone(f1: int, f2: int, d: int)
    requires
        f1 <= f2,
    ensures
        d >= 0 ==> fp_mul_s(f1, d) <= fp_mul_s(f2, d),
        d < 0 ==> fp_mul_s(f2, d) <= fp_mul_s(f1, d),
{
    if d >= 0 {
        assert(f1 * d <= f2 * d) by (nonlinear_arith)
            requires
                f1 <= f2,
                d >= 0,
        ;
        vstd::arithmetic::div_mod::lemma_div_is_ordered(f1 * d, f2 * d, 65536);
    } else {
        assert(f2 * d <= f1 * d) by (nonlinear_arith)
            requires
                f1 <= f2,
                d < 0,
        ;
        vstd::arithmetic::div_mod::lemma_div_is_ordered(f2 * d, f1 * d, 65536);
    }
}

/// The box of the sphere at any in-window time sits inside the union of
/// the end-of-window boxes.
pub proof fn lemma_moving_box_contains(m: Moving, b0: i64, b1: i64, time: i64)
    requires
        m.wf(),
        b0 <= time <= b1,
    ensures
        crate::aabb::contains_box(
            moving_box_s(m, b0, b1),
            sphere_box_s(moving_center_s(m, time), m.object.radius),
        ),
{
    let f0 = moving_frac_s(m.time_start, m.time_end, b0);
    let f = moving_frac_s(m.time_start, m.time_end, time);
    let f1 = moving_frac_s(m.time_start, m.time_end, b1);
    lemma_frac_monotone(m.time_start, m.time_end, b0, time);
    lemma_frac_monotone(m.time_start, m.time_end, time, b1);
    lemma_fp_mul_monotone(f0, f, m.center_final.x - m.object.center.x);
    lemma_fp_mul_monotone(f, f1, m.center_final.x - m.object.center.x);
    lemma_fp_mul_monotone(f0, f, m.center_final.y - m.object.center.y);
    lemma_fp_mul_monotone(f, f1, m.center_final.y - m.object.center.y);
    lemma_fp_mul_monotone(f0, f, m.center_final.z - m.object.center.z);
    lemma_fp_mul_monotone(f, f1, m.center_final.z - m.object.center.z);
    let c0 = m.object.center;
    let c1 = m.center_final;
    lemma_lerp_between(f0, c0.x as int, c1.x as int);
    lemma_lerp_between(f, c0.x as int, c1.x as int);
    lemma_lerp_between(f1, c0.x as int, c1.x as int);
    lemma_lerp_between(f0, c0.y as int, c1.y as int);
    lemma_lerp_between(f, c0.y as int, c1.y as int);
    lemma_lerp_between(f1, c0.y as int, c1.y as int);
    lemma_lerp_between(f0, c0.z as int, c1.z as int);
    lemma_lerp_between(f, c0.z as int, c1.z as int);
    lemma_lerp_between(f1, c0.z as int, c1.z as int);
    let ca = moving_center_s(m, b0);
    let cb = moving_center_s(m, b1);
    let ct = moving_center_s(m, time);
    assert(ca.x == c0.x + fp_mul_s(f0, c1.x - c0.x));
    assert(cb.x == c0.x + fp_mul_s(f1, c1.x - c0.x));
    assert(ct.x == c0.x + fp_mul_s(f, c1.x - c0.x));
    assert(ca.y == c0.y + fp_mul_s(f0, c1.y - c0.y));
    assert(cb.y == c0.y + fp_mul_s(f1, c1.y - c0.y));
    assert(ct.y == c0.y + fp_mul_s(f, c1.y - c0.y));
    assert(ca.z == c0.z + fp_mul_s(f0, c1.z - c0.z));
    assert(cb.z == c0.z + fp_mul_s(f1, c1.z - c0.z));
    assert(ct.z == c0.z + fp_mul_s(f, c1.z - c0.z));
    assert(crate::aabb::imin(ca.x as int, cb.x as int) <= ct.x <= crate::aabb::imax(
        ca.x as int,
        cb.x as int,
    ));
    assert(crate::aabb::imin(ca.y as int, cb.y as int) <= ct.y <= crate::aabb::imax(
        ca.y as int,
        cb.y as int,
    ));
    assert(crate::aabb::imin(ca.z as int, cb.z as int) <= ct.z <= crate::aabb::imax(
        ca.z as int,
        cb.z as int,
    ));
}

} // verus!
