//! The camera: precomputed viewport vectors and per-sample ray creation.
//!
//! The viewport follows the usual thin-lens formula. The vertical field of
//! view enters as the tangent of its half angle, already a plain
//! fixed-point scalar, so the whole construction stays inside the exact
//! arithmetic; degenerate look directions fall back to the canonical
//! basis instead of dividing by zero.

use vstd::prelude::*;
use crate::fixed::{fp_mul, fp_mul_s, lemma_fp_mul_bound};
use crate::ray::{Ray, TIME_LIMIT};
use crate::rng::rng_unit;
use crate::vec3::{Vec3, cross_s, dot_s, in_range, unit_s};

verus! {

pub struct Camera {
    pub origin: Vec3,
    pub lower_left_corner: Vec3,
    pub horizontal: Vec3,
    pub vertical: Vec3,
    pub u: Vec3,
    pub v: Vec3,
    pub w: Vec3,
    pub lens_radius: i64,
    pub time_start: i64,
    pub time_end: i64,
}

impl Camera {
    /// Ranges that keep every generated ray within the tracer's working
    /// bounds.
    pub open spec fn wf(self) -> bool {
        &&& in_range(self.origin, 0x400_0000)
        &&& in_range(self.u, 131072)
        &&& in_range(self.v, 131072)
        &&& in_range(self.w, 131072)
        &&& in_range(self.horizontal, 0x110_0000)
        &&& in_range(self.vertical, 0x110_0000)
        &&& -0x130_0000 <= self.lower_left_corner.x - self.origin.x <= 0x130_0000
        &&& -0x130_0000 <= self.lower_left_corner.y - self.origin.y <= 0x130_0000
        &&& -0x130_0000 <= self.lower_left_corner.z - self.origin.z <= 0x130_0000
        &&& 0 <= self.lens_radius <= 131072
        &&& 0 <= self.time_start <= self.time_end <= TIME_LIMIT
    }

    /// Build a camera. `half_height` is the tangent of half the vertical
    /// field of view, as a fixed-point scalar; the two product bounds cap
    /// the viewport half extents at the focus plane at 64 units, which is
    /// what keeps every generated direction inside the tracer's working
    /// range.
    pub fn new(
        look_from: Vec3,
        look_at: Vec3,
        v_up: Vec3,
        half_height: i64,
        aspect: i64,
        aperture: i64,
        focus_distance: i64,
        time_start: i64,
        time_end: i64,
    ) -> (r: Camera)
        requires
            in_range(look_from, 0x400_0000),
            in_range(look_at, 0x400_0000),
            in_range(v_up, 131072),
            0 <= half_height <= 0x4_0000,
            0 < aspect <= 0x8_0000,
            0 <= aperture <= 131072,
            65536 <= focus_distance <= 0x10_0000,
            fp_mul_s(
                fp_mul_s(aspect as int, half_height as int),
                focus_distance as int,
            ) <= 0x40_0000,
            fp_mul_s(half_height as int, focus_distance as int) <= 0x40_0000,
            0 <= time_start <= time_end <= TIME_LIMIT,
        ensures
            r.wf(),
            r.origin == look_from,
            r.lens_radius == aperture as int / 2,
            r.time_start == time_start,
            r.time_end == time_end,
            r.w == camera_w_s(look_from, look_at),
            r.u == camera_u_s(v_up, r.w),
            r.v == camera_v_s(r.w, r.u),
            ({
                let hwf = fp_mul_s(
                    fp_mul_s(aspect as int, half_height as int),
                    focus_distance as int,
                );
                let hhf = fp_mul_s(half_height as int, focus_distance as int);
                &&& r.lower_left_corner == camera_corner_s(
                    look_from,
                    r.u,
                    r.v,
                    r.w,
                    hwf,
                    hhf,
                    focus_distance as int,
                )
                &&& r.horizontal == scaled_s(r.u, 2 * hwf)
                &&& r.vertical == scaled_s(r.v, 2 * hhf)
            }),
    {
        let lens_radius = aperture / 2;
        proof {
            lemma_fp_mul_bound(aspect as int, half_height as int, 0x8_0000, 0x4_0000);
            assert(fp_mul_s(aspect as int, half_height as int) >= 0) by (nonlinear_arith)
                requires
                    aspect >= 0,
                    half_height >= 0,
            ;
        }
        let half_width = fp_mul(aspect, half_height);

        let d = look_from.sub(&look_at);
        let dd = d.square_length();
        let w = if dd >= 1 {
            d.unit()
        } else {
            Vec3 { x: 0, y: 0, z: 65536 }
        };
        let c = v_up.cross(&w);
        proof {
            lemma_fp_mul_bound(v_up.y as int, w.z as int, 131072, 131072);
            lemma_fp_mul_bound(v_up.z as int, w.y as int, 131072, 131072);
            lemma_fp_mul_bound(v_up.z as int, w.x as int, 131072, 131072);
            lemma_fp_mul_bound(v_up.x as int, w.z as int, 131072, 131072);
            lemma_fp_mul_bound(v_up.x as int, w.y as int, 131072, 131072);
            lemma_fp_mul_bound(v_up.y as int, w.x as int, 131072, 131072);
        }
        let cc = c.square_length();
        let u = if cc >= 1 {
            c.unit()
        } else {
            Vec3 { x: 65536, y: 0, z: 0 }
        };
        proof {
            lemma_fp_mul_bound(w.y as int, u.z as int, 131072, 131072);
            lemma_fp_mul_bound(w.z as int, u.y as int, 131072, 131072);
            lemma_fp_mul_bound(w.z as int, u.x as int, 131072, 131072);
            lemma_fp_mul_bound(w.x as int, u.z as int, 131072, 131072);
            lemma_fp_mul_bound(w.x as int, u.y as int, 131072, 131072);
            lemma_fp_mul_bound(w.y as int, u.x as int, 131072, 131072);
        }
        let vc = w.cross(&u);
        let vv = vc.square_length();
        let v = if vv >= 1 {
            vc.unit()
        } else {
            Vec3 { x: 0, y: 65536, z: 0 }
        };

        proof {
            lemma_fp_mul_bound(half_width as int, focus_distance as int, 0x20_0001, 0x10_0000);
            lemma_fp_mul_bound(half_height as int, focus_distance as int, 0x4_0000, 0x10_0000);
            assert(fp_mul_s(half_width as int, focus_distance as int) >= 0
                && fp_mul_s(half_height as int, focus_distance as int) >= 0)
                by (nonlinear_arith)
                requires
                    half_width >= 0,
                    half_height >= 0,
                    focus_distance >= 0,
            ;
        }
        let hw_focus = fp_mul(half_width, focus_distance);
        let hh_focus = fp_mul(half_height, focus_distance);
        proof {
            lemma_scale_bounds(u, hw_focus as int, 0x40_0000);
            lemma_scale_bounds(v, hh_focus as int, 0x40_0000);
            lemma_scale_bounds(w, focus_distance as int, 0x10_0000);
        }
        let su = u.scale(hw_focus);
        let sv = v.scale(hh_focus);
        let sw = w.scale(focus_distance);
        let lower_left_corner = Vec3 {
            x: look_from.x - su.x - sv.x - sw.x,
            y: look_from.y - su.y - sv.y - sw.y,
            z: look_from.z - su.z - sv.z - sw.z,
        };
        proof {
            lemma_scale_bounds(u, 2 * hw_focus as int, 0x80_0000);
            lemma_scale_bounds(v, 2 * hh_focus as int, 0x80_0000);
        }
        let horizontal = u.scale(2 * hw_focus);
        let vertical = v.scale(2 * hh_focus);
        Camera {
            origin: look_from,
            lower_left_corner,
            horizontal,
            vertical,
            u,
            v,
            w,
            lens_radius,
            time_start,
            time_end,
        }
    }

    /// A camera ray through viewport coordinates (s, t), with a random
    /// lens offset and a random time inside the shutter interval: the
    /// origin is displaced within the lens aperture and the direction
    /// points from there at the focus-plane point the coordinates name.
    pub fn ray(&self, rng: &mut rand::rngs::SmallRng, s: i64, t: i64) -> (r: Ray)
        requires
            self.wf(),
            0 <= s <= 65536,
            0 <= t <= 65536,
        ensures
            r.wf(),
            self.time_start <= r.time <= self.time_end,
            exists|rd: Vec3|
                #[trigger] in_disk(rd) && r.origin == camera_origin_s(*self, rd) && r.direction
                    == camera_dir_s(*self, s as int, t as int, rd),
    {
        let rd = random_in_unit_disk(rng);
        proof {
            lemma_fp_mul_bound(self.lens_radius as int, rd.x as int, 131072, 65536);
            lemma_fp_mul_bound(self.lens_radius as int, rd.y as int, 131072, 65536);
        }
        let rx = fp_mul(self.lens_radius, rd.x);
        let ry = fp_mul(self.lens_radius, rd.y);
        proof {
            lemma_fp_mul_bound(self.u.x as int, rx as int, 131072, 131073);
            lemma_fp_mul_bound(self.u.y as int, rx as int, 131072, 131073);
            lemma_fp_mul_bound(self.u.z as int, rx as int, 131072, 131073);
            lemma_fp_mul_bound(self.v.x as int, ry as int, 131072, 131073);
            lemma_fp_mul_bound(self.v.y as int, ry as int, 131072, 131073);
            lemma_fp_mul_bound(self.v.z as int, ry as int, 131072, 131073);
        }
        let offset = Vec3 {
            x: fp_mul(self.u.x, rx) + fp_mul(self.v.x, ry),
            y: fp_mul(self.u.y, rx) + fp_mul(self.v.y, ry),
            z: fp_mul(self.u.z, rx) + fp_mul(self.v.z, ry),
        };
        proof {
            lemma_fp_mul_bound(s as int, self.horizontal.x as int, 65536, 0x140_0000);
            lemma_fp_mul_bound(s as int, self.horizontal.y as int, 65536, 0x140_0000);
            lemma_fp_mul_bound(s as int, self.horizontal.z as int, 65536, 0x140_0000);
            lemma_fp_mul_bound(t as int, self.vertical.x as int, 65536, 0x140_0000);
            lemma_fp_mul_bound(t as int, self.vertical.y as int, 65536, 0x140_0000);
            lemma_fp_mul_bound(t as int, self.vertical.z as int, 65536, 0x140_0000);
        }
        let direction = Vec3 {
            x: (self.lower_left_corner.x - self.origin.x) + fp_mul(s, self.horizontal.x) + fp_mul(
                t,
                self.vertical.x,
            ) - offset.x,
            y: (self.lower_left_corner.y - self.origin.y) + fp_mul(s, self.horizontal.y) + fp_mul(
                t,
                self.vertical.y,
            ) - offset.y,
            z: (self.lower_left_corner.z - self.origin.z) + fp_mul(s, self.horizontal.z) + fp_mul(
                t,
                self.vertical.z,
            ) - offset.z,
        };
        let jitter = rng_unit(rng);
        let span = self.time_end - self.time_start;
        proof {
            assert(0 <= fp_mul_s(jitter as int, span as int) <= span) by (nonlinear_arith)
                requires
                    0 <= jitter < 65536,
                    0 <= span,
            ;
        }
        let dt = fp_mul(jitter, span);
        let time = self.time_start + dt;
        let origin = Vec3 {
            x: self.origin.x + offset.x,
            y: self.origin.y + offset.y,
            z: self.origin.z + offset.z,
        };
        proof {
            assert(in_disk(rd) && origin == camera_origin_s(*self, rd) && direction
                == camera_dir_s(*self, s as int, t as int, rd));
        }
        Ray { origin, direction, time }
    }
}

/// The view direction basis vector: the unit vector from the target back
/// to the eye, or the canonical axis when the two coincide.
pub open spec fn camera_w_s(look_from: Vec3, look_at: Vec3) -> Vec3 {
    let d = Vec3 {
        x: (look_from.x - look_at.x) as i64,
        y: (look_from.y - look_at.y) as i64,
        z: (look_from.z - look_at.z) as i64,
    };
    if dot_s(d, d) >= 1 {
        unit_s(d)
    } else {
        Vec3 { x: 0, y: 0, z: 65536 }
    }
}

/// The right-hand basis vector: the normalized cross product of the up
/// hint with the view direction, or the canonical axis when parallel.
pub open spec fn camera_u_s(v_up: Vec3, w: Vec3) -> Vec3 {
    let c = cross_s(v_up, w);
    if dot_s(c, c) >= 1 {
        unit_s(c)
    } else {
        Vec3 { x: 65536, y: 0, z: 0 }
    }
}

/// The up basis vector: the normalized cross product of the view
/// direction with the right vector, or the canonical axis when parallel.
pub open spec fn camera_v_s(w: Vec3, u: Vec3) -> Vec3 {
    let c = cross_s(w, u);
    if dot_s(c, c) >= 1 {
        unit_s(c)
    } else {
        Vec3 { x: 0, y: 65536, z: 0 }
    }
}

/// A vector scaled by a fixed-point factor, componentwise.
pub open spec fn scaled_s(v: Vec3, s: int) -> Vec3 {
    Vec3 {
        x: fp_mul_s(s, v.x as int) as i64,
        y: fp_mul_s(s, v.y as int) as i64,
        z: fp_mul_s(s, v.z as int) as i64,
    }
}

/// The lower-left viewport corner: the eye, pushed down and left by the
/// half extents at the focus plane and forward by the focus distance.
pub open spec fn camera_corner_s(
    look_from: Vec3,
    u: Vec3,
    v: Vec3,
    w: Vec3,
    hwf: int,
    hhf: int,
    focus: int,
) -> Vec3 {
    Vec3 {
        x: (look_from.x - fp_mul_s(hwf, u.x as int) - fp_mul_s(hhf, v.x as int) - fp_mul_s(
            focus,
            w.x as int,
        )) as i64,
        y: (look_from.y - fp_mul_s(hwf, u.y as int) - fp_mul_s(hhf, v.y as int) - fp_mul_s(
            focus,
            w.y as int,
        )) as i64,
        z: (look_from.z - fp_mul_s(hwf, u.z as int) - fp_mul_s(hhf, v.z as int) - fp_mul_s(
            focus,
            w.z as int,
        )) as i64,
    }
}

/// A lens sample: a point of the unit disk in the lens plane.
pub open spec fn in_disk(rd: Vec3) -> bool {
    &&& in_range(rd, 65536)
    &&& rd.z == 0
    &&& dot_s(rd, rd) < 65536
}

/// The lens-plane displacement a disk sample produces.
pub open spec fn camera_offset_s(c: Camera, rd: Vec3) -> Vec3 {
    let rx = fp_mul_s(c.lens_radius as int, rd.x as int);
    let ry = fp_mul_s(c.lens_radius as int, rd.y as int);
    Vec3 {
        x: (fp_mul_s(c.u.x as int, rx) + fp_mul_s(c.v.x as int, ry)) as i64,
        y: (fp_mul_s(c.u.y as int, rx) + fp_mul_s(c.v.y as int, ry)) as i64,
        z: (fp_mul_s(c.u.z as int, rx) + fp_mul_s(c.v.z as int, ry)) as i64,
    }
}

/// The displaced ray origin.
pub open spec fn camera_origin_s(c: Camera, rd: Vec3) -> Vec3 {
    let o = camera_offset_s(c, rd);
    Vec3 {
        x: (c.origin.x + o.x) as i64,
        y: (c.origin.y + o.y) as i64,
        z: (c.origin.z + o.z) as i64,
    }
}

/// The exact viewport direction: toward the corner plus the scaled
/// viewport spans, back through the displaced origin.
pub open spec fn camera_dir_s(c: Camera, s: int, t: int, rd: Vec3) -> Vec3 {
    let o = camera_offset_s(c, rd);
    Vec3 {
        x: (c.lower_left_corner.x - c.origin.x + fp_mul_s(s, c.horizontal.x as int) + fp_mul_s(
            t,
            c.vertical.x as int,
        ) - o.x) as i64,
        y: (c.lower_left_corner.y - c.origin.y + fp_mul_s(s, c.horizontal.y as int) + fp_mul_s(
            t,
            c.vertical.y as int,
        ) - o.y) as i64,
        z: (c.lower_left_corner.z - c.origin.z + fp_mul_s(s, c.horizontal.z as int) + fp_mul_s(
            t,
            c.vertical.z as int,
        ) - o.z) as i64,
    }
}

/// Componentwise bound of a scale: if the scalar is within `sb` and the
/// vector within [-2, 2], every scaled component is within 2 sb + 1.
proof fn lemma_scale_bounds(v: Vec3, s: int, sb: int)
    requires
        in_range(v, 131072),
        -sb <= s <= sb,
        0 <= sb <= 0x1_0000_0000_0000,
    ensures
        i64::MIN <= fp_mul_s(s, v.x as int) <= i64::MAX,
        i64::MIN <= fp_mul_s(s, v.y as int) <= i64::MAX,
        i64::MIN <= fp_mul_s(s, v.z as int) <= i64::MAX,
        -2 * sb - 1 <= fp_mul_s(s, v.x as int) <= 2 * sb + 1,
        -2 * sb - 1 <= fp_mul_s(s, v.y as int) <= 2 * sb + 1,
        -2 * sb - 1 <= fp_mul_s(s, v.z as int) <= 2 * sb + 1,
{
    lemma_fp_mul_bound(s, v.x as int, sb, 131072);
    lemma_fp_mul_bound(s, v.y as int, sb, 131072);
    lemma_fp_mul_bound(s, v.z as int, sb, 131072);
    assert(sb * 131072 / 65536 == 2 * sb) by (nonlinear_arith);
}

/// A point drawn from the unit disk in the lens plane, by bounded
/// rejection with the center as the fallback.
pub fn random_in_unit_disk(rng: &mut rand::rngs::SmallRng) -> (r: Vec3)
    ensures
        in_range(r, 65536),
        r.z == 0,
        dot_s(r, r) < 65536,
{
    for _i in 0..64 {
        let x = 2 * rng_unit(rng) - 65536;
        let y = 2 * rng_unit(rng) - 65536;
        let p = Vec3 { x, y, z: 0 };
        let sq = p.square_length();
        if sq < 65536 {
            return p;
        }
    }
    let zero = Vec3 { x: 0, y: 0, z: 0 };
    proof {
        assert(dot_s(zero, zero) == 0);
    }
    zero
}

} // verus!
