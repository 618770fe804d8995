//! Rays: an origin, a direction and a time sample.

use vstd::prelude::*;
use crate::fixed::fp_mul_s;
use crate::vec3::{Vec3, in_range};

verus! {

/// Largest magnitude allowed for a ray origin component (2048 units).
pub const ORIGIN_LIMIT: i64 = 0x900_0000;

/// Largest magnitude allowed for a direction component (1024 units per t).
pub const DIR_LIMIT: i64 = 0x400_0000;

/// Largest time sample (1024 time units).
pub const TIME_LIMIT: i64 = 0x400_0000;

/// Largest ray parameter a query may use; stands in for infinity.
pub const T_LIMIT: i64 = 0x10_0000_0000;

#[derive(Clone, Copy)]
pub struct Ray {
    pub origin: Vec3,
    pub direction: Vec3,
    pub time: i64,
}

impl Ray {
    /// All components within the working ranges of the intersection code.
    pub open spec fn wf(self) -> bool {
        &&& in_range(self.origin, ORIGIN_LIMIT as int)
        &&& in_range(self.direction, DIR_LIMIT as int)
        &&& 0 <= self.time <= TIME_LIMIT
    }

    pub fn new(origin: Vec3, direction: Vec3, time: i64) -> (r: Ray)
        ensures
            r.origin == origin,
            r.direction == direction,
            r.time == time,
    {
        Ray { origin, direction, time }
    }

    pub fn origin(&self) -> (r: &Vec3)
        ensures
            *r == self.origin,
    {
        &self.origin
    }

    pub fn direction(&self) -> (r: &Vec3)
        ensures
            *r == self.direction,
    {
        &self.direction
    }

    pub fn time(&self) -> (r: i64)
        ensures
            r == self.time,
    {
        self.time
    }

    /// The point reached after parameter `t`: origin plus t times direction.
    pub fn point_at(&self, t: i64) -> (r: Vec3)
        requires
            self.wf(),
            -T_LIMIT <= t <= T_LIMIT,
        ensures
            r == point_at_s(*self, t as int),
    {
        proof {
            crate::fixed::lemma_fp_mul_bound(
                t as int,
                self.direction.x as int,
                T_LIMIT as int,
                DIR_LIMIT as int,
            );
            crate::fixed::lemma_fp_mul_bound(
                t as int,
                self.direction.y as int,
                T_LIMIT as int,
                DIR_LIMIT as int,
            );
            crate::fixed::lemma_fp_mul_bound(
                t as int,
                self.direction.z as int,
                T_LIMIT as int,
                DIR_LIMIT as int,
            );
        }
        let d = self.direction.scale(t);
        self.origin.add(&d)
    }
}

/// The exact value of `point_at` over the fixed-point arithmetic.
pub open spec fn point_at_s(r: Ray, t: int) -> Vec3 {
    Vec3 {
        x: (r.origin.x + fp_mul_s(t, r.direction.x as int)) as i64,
        y: (r.origin.y + fp_mul_s(t, r.direction.y as int)) as i64,
        z: (r.origin.z + fp_mul_s(t, r.direction.z as int)) as i64,
    }
}

} // verus!
