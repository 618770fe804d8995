//! The material model: how a surface answers a hit.
//!
//! `scatter` may draw from the worker's random generator, so its contract
//! states what holds of every outcome: the scattered ray always starts at
//! the hit point, keeps the incoming time sample, and its direction is the
//! deterministic part of the model plus a bounded random term, named by an
//! existential. With a fuzz of zero the metal direction is the exact
//! reflection, a pure function of the inputs.

use vstd::prelude::*;
use crate::color::{COLOR_LIMIT, color_ok};
use crate::fixed::{FP_ONE, fp_div, fp_div_s, fp_mul, fp_mul_s, fp_sqrt, sqrt_s, lemma_fp_mul_bound};
use crate::hittable::Hit;
use crate::ray::Ray;
use crate::rng::rng_unit;
use crate::texture::{Texture, texture_value_s};
use crate::vec3::{Vec3, dot_s, in_range, unit_s};

verus! {

pub struct Lambertian {
    pub albedo: Texture,
}

pub struct Metal {
    pub albedo: Vec3,
    pub fuzziness: i64,
}

pub struct Dielectric {
    pub ref_idx: i64,
}

pub struct DiffuseLight {
    pub texture: Texture,
}

pub enum Material {
    Lambertian(Lambertian),
    Dielectric(Dielectric),
    Metal(Metal),
    DiffuseLight(DiffuseLight),
}

pub struct ScatterResponse {
    pub scattered: Ray,
    pub attenuation: Vec3,
}

impl ScatterResponse {
    pub fn new(scattered: Ray, attenuation: Vec3) -> (r: ScatterResponse)
        ensures
            r.scattered == scattered,
            r.attenuation == attenuation,
    {
        ScatterResponse { scattered, attenuation }
    }

    pub fn scattered(&self) -> (r: &Ray)
        ensures
            *r == self.scattered,
    {
        &self.scattered
    }

    pub fn attenuation(&self) -> (r: &Vec3)
        ensures
            *r == self.attenuation,
    {
        &self.attenuation
    }
}

impl Lambertian {
    pub fn new(albedo: Texture) -> (r: Lambertian)
        requires
            albedo.wf(),
        ensures
            r.albedo == albedo,
            r.wf(),
    {
        Lambertian { albedo }
    }

    pub open spec fn wf(self) -> bool {
        self.albedo.wf()
    }
}

impl Metal {
    /// Fuzz is clamped into [0, 1]: the model reads it as the radius of
    /// the perturbation sphere.
    pub fn new(albedo: Vec3, fuzziness: i64) -> (r: Metal)
        requires
            color_ok(albedo),
        ensures
            r.albedo == albedo,
            r.fuzziness == if fuzziness > FP_ONE {
                FP_ONE as int
            } else if fuzziness < 0 {
                0int
            } else {
                fuzziness as int
            },
            r.wf(),
            fuzziness == 0 ==> r.fuzziness == 0,
    {
        let f = if fuzziness > FP_ONE {
            FP_ONE
        } else if fuzziness < 0 {
            0
        } else {
            fuzziness
        };
        Metal { albedo, fuzziness: f }
    }

    pub open spec fn wf(self) -> bool {
        &&& color_ok(self.albedo)
        &&& 0 <= self.fuzziness <= FP_ONE
    }
}

impl Dielectric {
    pub fn new(ref_idx: i64) -> (r: Dielectric)
        requires
            16384 <= ref_idx <= 0x8_0000,
        ensures
            r.ref_idx == ref_idx,
            r.wf(),
    {
        Dielectric { ref_idx }
    }

    pub open spec fn wf(self) -> bool {
        16384 <= self.ref_idx <= 0x8_0000
    }
}

impl DiffuseLight {
    pub fn new(texture: Texture) -> (r: DiffuseLight)
        requires
            texture.wf(),
        ensures
            r.texture == texture,
            r.wf(),
    {
        DiffuseLight { texture }
    }

    pub open spec fn wf(self) -> bool {
        self.texture.wf()
    }
}

impl Material {
    pub open spec fn wf(self) -> bool {
        match self {
            Material::Lambertian(m) => m.wf(),
            Material::Dielectric(m) => m.wf(),
            Material::Metal(m) => m.wf(),
            Material::DiffuseLight(m) => m.wf(),
        }
    }

    /// Decide `wf` at run time, for callers outside the proofs.
    pub fn is_wf(&self) -> (r: bool)
        ensures
            r == self.wf(),
    {
        match self {
            Material::Lambertian(m) => m.albedo.is_wf(),
            Material::Dielectric(m) => 16384 <= m.ref_idx && m.ref_idx <= 0x8_0000,
            Material::Metal(m) => {
                0 <= m.albedo.x && m.albedo.x <= COLOR_LIMIT && 0 <= m.albedo.y && m.albedo.y
                    <= COLOR_LIMIT && 0 <= m.albedo.z && m.albedo.z <= COLOR_LIMIT && 0
                    <= m.fuzziness && m.fuzziness <= FP_ONE
            },
            Material::DiffuseLight(m) => m.texture.is_wf(),
        }
    }

    pub fn lambertian(r: i64, g: i64, b: i64) -> (m: Material)
        requires
            0 <= r <= COLOR_LIMIT,
            0 <= g <= COLOR_LIMIT,
            0 <= b <= COLOR_LIMIT,
        ensures
            m == Material::Lambertian(
                Lambertian {
                    albedo: Texture::Constant(
                        crate::texture::ConstantTexture { color: Vec3 { x: r, y: g, z: b } },
                    ),
                },
            ),
            m.wf(),
    {
        Material::Lambertian(Lambertian { albedo: Texture::constant(r, g, b) })
    }

    pub fn textured(texture: Texture) -> (m: Material)
        requires
            texture.wf(),
        ensures
            m == Material::Lambertian(Lambertian { albedo: texture }),
            m.wf(),
    {
        Material::Lambertian(Lambertian { albedo: texture })
    }

    pub fn metal(e0: i64, e1: i64, e2: i64, fuzziness: i64) -> (m: Material)
        requires
            0 <= e0 <= COLOR_LIMIT,
            0 <= e1 <= COLOR_LIMIT,
            0 <= e2 <= COLOR_LIMIT,
        ensures
            m matches Material::Metal(mm) && mm.albedo == (Vec3 { x: e0, y: e1, z: e2 })
                && (fuzziness == 0 ==> mm.fuzziness == 0),
            m.wf(),
    {
        Material::Metal(Metal::new(Vec3 { x: e0, y: e1, z: e2 }, fuzziness))
    }

    pub fn dielectric(ref_idx: i64) -> (m: Material)
        requires
            16384 <= ref_idx <= 0x8_0000,
        ensures
            m == Material::Dielectric(Dielectric { ref_idx }),
            m.wf(),
    {
        Material::Dielectric(Dielectric { ref_idx })
    }

    pub fn diffuse_light(texture: Texture) -> (m: Material)
        requires
            texture.wf(),
        ensures
            m == Material::DiffuseLight(DiffuseLight { texture }),
            m.wf(),
    {
        Material::DiffuseLight(DiffuseLight { texture })
    }

    /// Light the material emits at the hit. Zero for everything but a
    /// diffuse light, which answers with its texture color.
    pub fn emit(&self, u: i64, v: i64, p: &Vec3) -> (r: Vec3)
        requires
            self.wf(),
            0 <= u <= FP_ONE,
            0 <= v <= FP_ONE,
        ensures
            r == emit_s(*self, u as int, v as int, *p),
            color_ok(r),
    {
        match self {
            Material::DiffuseLight(m) => m.texture.value(u, v, p),
            _ => Vec3 { x: 0, y: 0, z: 0 },
        }
    }

    /// The material's answer to a hit: absence, or a scattered ray with an
    /// attenuation color.
    pub fn scatter(
        &self,
        rng: &mut rand::rngs::SmallRng,
        ray: &Ray,
        hit: &Hit,
    ) -> (r: Option<ScatterResponse>)
        requires
            self.wf(),
            ray.wf(),
            hit.wf(),
        ensures
            scatter_post(*self, *ray, *hit, r),
    {
        match self {
            Material::Lambertian(m) => scatter_lambertian(m, rng, ray, hit),
            Material::Dielectric(m) => scatter_dielectric(m, rng, ray, hit),
            Material::Metal(m) => scatter_metal(m, rng, ray, hit),
            Material::DiffuseLight(_) => None,
        }
    }
}

/// The emitted color of each material.
pub open spec fn emit_s(m: Material, u: int, v: int, p: Vec3) -> Vec3 {
    match m {
        Material::DiffuseLight(l) => texture_value_s(l.texture, u, v, p),
        _ => Vec3 { x: 0, y: 0, z: 0 },
    }
}

/// What every scatter result satisfies, material by material.
pub open spec fn scatter_post(m: Material, ray: Ray, hit: Hit, r: Option<ScatterResponse>) -> bool {
    match m {
        Material::Lambertian(lam) => match r {
            Some(resp) => {
                &&& resp.scattered.origin == hit.p
                &&& resp.scattered.time == ray.time
                &&& resp.attenuation == texture_value_s(
                    lam.albedo,
                    hit.u as int,
                    hit.v as int,
                    hit.p,
                )
                &&& exists|rv: Vec3|
                    #[trigger] in_sphere(rv) && resp.scattered.direction == lambert_dir_s(
                        hit.normal,
                        rv,
                    )
                &&& resp.scattered.wf()
            },
            None => false,
        },
        Material::Metal(met) => match r {
            Some(resp) => {
                &&& resp.scattered.origin == hit.p
                &&& resp.scattered.time == ray.time
                &&& resp.attenuation == met.albedo
                &&& dot_s(resp.scattered.direction, hit.normal) > 0
                &&& exists|rv: Vec3|
                    #[trigger] in_sphere(rv) && resp.scattered.direction == metal_dir_s(
                        ray.direction,
                        hit.normal,
                        met.fuzziness as int,
                        rv,
                    )
                &&& met.fuzziness == 0 ==> resp.scattered.direction == reflect_s(
                    unit_s(ray.direction),
                    hit.normal,
                )
                &&& resp.scattered.wf()
            },
            None => {
                ||| dot_s(ray.direction, ray.direction) < 1
                ||| exists|rv: Vec3|
                    #[trigger] in_sphere(rv) && dot_s(
                        metal_dir_s(ray.direction, hit.normal, met.fuzziness as int, rv),
                        hit.normal,
                    ) <= 0
            },
        },
        Material::Dielectric(die) => match r {
            Some(resp) => {
                &&& resp.scattered.origin == hit.p
                &&& resp.scattered.time == ray.time
                &&& resp.attenuation == (Vec3 { x: FP_ONE, y: FP_ONE, z: FP_ONE })
                &&& {
                    let ud = unit_s(ray.direction);
                    let ratio = dielectric_ratio_s(die.ref_idx as int, hit.front_facing);
                    let cos = dielectric_cos_s(ud, hit.normal);
                    let dir = resp.scattered.direction;
                    &&& (dir == reflect_s(ud, hit.normal) || dir == refract_s(
                        ud,
                        hit.normal,
                        ratio,
                    ))
                    &&& cannot_refract_s(cos, ratio) ==> dir == reflect_s(ud, hit.normal)
                }
                &&& resp.scattered.wf()
            },
            None => dot_s(ray.direction, ray.direction) < 1,
        },
        Material::DiffuseLight(_) => r is None,
    }
}

/// A vector strictly inside the unit sphere, componentwise bounded by one.
pub open spec fn in_sphere(v: Vec3) -> bool {
    in_range(v, 65536) && dot_s(v, v) < 65536
}

/// The Lambertian scatter direction: surface normal plus a random point of
/// the unit sphere.
pub open spec fn lambert_dir_s(normal: Vec3, rv: Vec3) -> Vec3 {
    Vec3 {
        x: (normal.x + rv.x) as i64,
        y: (normal.y + rv.y) as i64,
        z: (normal.z + rv.z) as i64,
    }
}

/// The metal scatter direction: the reflection of the unit incoming
/// direction, fuzzed by a scaled random point of the unit sphere.
pub open spec fn metal_dir_s(incoming: Vec3, normal: Vec3, fuzz: int, rv: Vec3) -> Vec3 {
    let refl = reflect_s(unit_s(incoming), normal);
    Vec3 {
        x: (refl.x + fp_mul_s(fuzz, rv.x as int)) as i64,
        y: (refl.y + fp_mul_s(fuzz, rv.y as int)) as i64,
        z: (refl.z + fp_mul_s(fuzz, rv.z as int)) as i64,
    }
}

/// Mirror reflection: v - 2 (v . n) n.
pub open spec fn reflect_s(v: Vec3, n: Vec3) -> Vec3 {
    let d2 = 2 * dot_s(v, n);
    Vec3 {
        x: (v.x - fp_mul_s(d2, n.x as int)) as i64,
        y: (v.y - fp_mul_s(d2, n.y as int)) as i64,
        z: (v.z - fp_mul_s(d2, n.z as int)) as i64,
    }
}

/// The refraction ratio a dielectric uses: 1/index entering the surface,
/// the index itself leaving it.
pub open spec fn dielectric_ratio_s(ref_idx: int, front_facing: bool) -> int {
    if front_facing {
        fp_div_s(65536, ref_idx)
    } else {
        ref_idx
    }
}

/// Cosine of the incoming angle, capped at one.
pub open spec fn dielectric_cos_s(ud: Vec3, n: Vec3) -> int {
    let c = dot_s(Vec3 { x: -ud.x as i64, y: -ud.y as i64, z: -ud.z as i64 }, n);
    if c > 65536 {
        65536
    } else {
        c
    }
}

/// Total internal reflection: ratio * sin(theta) exceeds one.
pub open spec fn cannot_refract_s(cos: int, ratio: int) -> bool {
    let sin2 = 65536 - fp_mul_s(cos, cos);
    let sin = sqrt_s(if sin2 >= 0 {
        sin2 * 65536
    } else {
        0
    });
    fp_mul_s(ratio, sin) > 65536
}

/// Snell refraction of a unit direction.
pub open spec fn refract_s(uv: Vec3, n: Vec3, ratio: int) -> Vec3 {
    let cos = dielectric_cos_s(uv, n);
    let px = fp_mul_s(ratio, uv.x + fp_mul_s(cos, n.x as int));
    let py = fp_mul_s(ratio, uv.y + fp_mul_s(cos, n.y as int));
    let pz = fp_mul_s(ratio, uv.z + fp_mul_s(cos, n.z as int));
    let sq = fp_mul_s(px, px) + fp_mul_s(py, py) + fp_mul_s(pz, pz);
    let k = 65536 - sq;
    let ka = if k >= 0 {
        k
    } else {
        -k
    };
    let pr = sqrt_s(ka * 65536);
    let par = if pr > 131072 {
        131072
    } else {
        pr
    };
    Vec3 {
        x: (px - fp_mul_s(par, n.x as int)) as i64,
        y: (py - fp_mul_s(par, n.y as int)) as i64,
        z: (pz - fp_mul_s(par, n.z as int)) as i64,
    }
}

/// Schlick's base reflectance r0 = ((1 - n) / (1 + n))^2.
pub open spec fn schlick_r0_s(ref_idx: int) -> int {
    let r = fp_div_s(65536 - ref_idx, 65536 + ref_idx);
    fp_mul_s(r, r)
}

/// Schlick's approximation r0 + (1 - r0)(1 - cos)^5.
pub open spec fn schlick_s(cosine: int, ref_idx: int) -> int {
    let r0 = schlick_r0_s(ref_idx);
    let q = 65536 - cosine;
    let q2 = fp_mul_s(q, q);
    let q4 = fp_mul_s(q2, q2);
    let q5 = fp_mul_s(q4, q);
    r0 + fp_mul_s(65536 - r0, q5)
}

/// At normal incidence the (1 - cos)^5 term vanishes exactly, so the
/// reflectance is exactly r0.
pub proof fn lemma_schlick_normal_incidence(ref_idx: int)
    ensures
        schlick_s(65536, ref_idx) == schlick_r0_s(ref_idx),
{
    let r0 = schlick_r0_s(ref_idx);
    assert(fp_mul_s(0, 0) == 0) by (nonlinear_arith);
    assert(fp_mul_s(65536 - r0, 0) == 0) by (nonlinear_arith);
}

/// With a fuzz of zero the metal direction is exactly the reflection of
/// the unit incoming direction, whatever the random draw: two calls with
/// the same incoming direction and normal scatter identically.
pub proof fn lemma_metal_fuzz_zero_deterministic(incoming: Vec3, normal: Vec3, rv: Vec3)
    ensures
        metal_dir_s(incoming, normal, 0, rv) == reflect_s(unit_s(incoming), normal),
{
    assert(fp_mul_s(0, rv.x as int) == 0) by (nonlinear_arith);
    assert(fp_mul_s(0, rv.y as int) == 0) by (nonlinear_arith);
    assert(fp_mul_s(0, rv.z as int) == 0) by (nonlinear_arith);
}

/// A vector drawn uniformly from the unit sphere, by bounded rejection;
/// after too many rejections the center is used, which also lies inside.
pub fn random_in_unit_sphere(rng: &mut rand::rngs::SmallRng) -> (r: Vec3)
    ensures
        in_sphere(r),
{
    for _i in 0..64 {
        let x = 2 * rng_unit(rng) - 65536;
        let y = 2 * rng_unit(rng) - 65536;
        let z = 2 * rng_unit(rng) - 65536;
        let p = Vec3 { x, y, z };
        let sq = p.square_length();
        if sq < 65536 {
            return p;
        }
    }
    let zero = Vec3 { x: 0, y: 0, z: 0 };
    proof {
        assert(dot_s(zero, zero) == 0);
    }
    zero
}

/// Mirror reflection of `v` about `n`.
pub fn reflect(v: &Vec3, n: &Vec3) -> (r: Vec3)
    requires
        in_range(*v, 262144),
        in_range(*n, 131072),
    ensures
        r == reflect_s(*v, *n),
        in_range(r, 0x80_0000),
{
    proof {
        lemma_fp_mul_bound(v.x as int, n.x as int, 262144, 131072);
        lemma_fp_mul_bound(v.y as int, n.y as int, 262144, 131072);
        lemma_fp_mul_bound(v.z as int, n.z as int, 262144, 131072);
    }
    let d = v.dot(n);
    let d2 = 2 * d;
    proof {
        lemma_fp_mul_bound(d2 as int, n.x as int, 3145736, 131072);
        lemma_fp_mul_bound(d2 as int, n.y as int, 3145736, 131072);
        lemma_fp_mul_bound(d2 as int, n.z as int, 3145736, 131072);
    }
    Vec3 {
        x: v.x - fp_mul(d2, n.x),
        y: v.y - fp_mul(d2, n.y),
        z: v.z - fp_mul(d2, n.z),
    }
}

/// Snell refraction of the unit direction `uv` at normal `n`.
pub fn refract(uv: &Vec3, n: &Vec3, ratio: i64) -> (r: Vec3)
    requires
        in_range(*uv, 131072),
        in_range(*n, 131072),
        0 <= ratio <= 0x8_0000,
    ensures
        r == refract_s(*uv, *n, ratio as int),
        in_range(r, 0x140_0000),
{
    proof {
        lemma_fp_mul_bound(-(uv.x as int), n.x as int, 131072, 131072);
        lemma_fp_mul_bound(-(uv.y as int), n.y as int, 131072, 131072);
        lemma_fp_mul_bound(-(uv.z as int), n.z as int, 131072, 131072);
    }
    let c0 = uv.neg().dot(n);
    let cos = crate::fixed::fp_min(c0, 65536);
    proof {
        lemma_fp_mul_bound(cos as int, n.x as int, 786435, 131072);
        lemma_fp_mul_bound(cos as int, n.y as int, 786435, 131072);
        lemma_fp_mul_bound(cos as int, n.z as int, 786435, 131072);
    }
    let ix = uv.x + fp_mul(cos, n.x);
    let iy = uv.y + fp_mul(cos, n.y);
    let iz = uv.z + fp_mul(cos, n.z);
    proof {
        lemma_fp_mul_bound(ratio as int, ix as int, 0x8_0000, 0x20_0000);
        lemma_fp_mul_bound(ratio as int, iy as int, 0x8_0000, 0x20_0000);
        lemma_fp_mul_bound(ratio as int, iz as int, 0x8_0000, 0x20_0000);
    }
    let px = fp_mul(ratio, ix);
    let py = fp_mul(ratio, iy);
    let pz = fp_mul(ratio, iz);
    proof {
        lemma_fp_mul_bound(px as int, px as int, 0x100_0001, 0x100_0001);
        lemma_fp_mul_bound(py as int, py as int, 0x100_0001, 0x100_0001);
        lemma_fp_mul_bound(pz as int, pz as int, 0x100_0001, 0x100_0001);
    }
    let sq = fp_mul(px, px) + fp_mul(py, py) + fp_mul(pz, pz);
    let k = 65536 - sq;
    let ka = if k >= 0 {
        k
    } else {
        -k
    };
    let pr = fp_sqrt(ka);
    let par = if pr > 131072 {
        131072
    } else {
        pr
    };
    proof {
        lemma_fp_mul_bound(par as int, n.x as int, 131072, 131072);
        lemma_fp_mul_bound(par as int, n.y as int, 131072, 131072);
        lemma_fp_mul_bound(par as int, n.z as int, 131072, 131072);
    }
    Vec3 {
        x: px - fp_mul(par, n.x),
        y: py - fp_mul(par, n.y),
        z: pz - fp_mul(par, n.z),
    }
}

/// Schlick's reflectance, exactly per `schlick_s`.
pub fn schlick(cosine: i64, ref_idx: i64) -> (r: i64)
    requires
        0 <= cosine <= 65536,
        0 <= ref_idx <= 0x40_0000,
    ensures
        r == schlick_s(cosine as int, ref_idx as int),
{
    let num = 65536 - ref_idx;
    let den = 65536 + ref_idx;
    proof {
        lemma_r0_div_fits(num as int, den as int);
    }
    let r0a = fp_div(num, den);
    proof {
        lemma_fp_mul_bound(r0a as int, r0a as int, 0x40_0000, 0x40_0000);
    }
    let r0 = fp_mul(r0a, r0a);
    let q = 65536 - cosine;
    proof {
        lemma_unit_interval_mul(q as int, q as int);
    }
    let q2 = fp_mul(q, q);
    proof {
        lemma_unit_interval_mul(q2 as int, q2 as int);
    }
    let q4 = fp_mul(q2, q2);
    proof {
        lemma_unit_interval_mul(q4 as int, q as int);
    }
    let q5 = fp_mul(q4, q);
    proof {
        lemma_fp_mul_bound(65536 - r0 as int, q5 as int, 0x1_0040_0000, 65536);
    }
    r0 + fp_mul(65536 - r0, q5)
}

/// Division by a denominator at least one keeps the quotient within the
/// numerator's own scale.
proof fn lemma_r0_div_fits(num: int, den: int)
    by (nonlinear_arith)
    requires
        den >= 65536,
        -0x40_0000 <= num <= 0x40_0000,
    ensures
        -0x40_0000 <= fp_div_s(num, den) <= 0x40_0000,
{
    assert(num * 65536 <= 0x40_0000 * 65536);
    assert((-0x40_0000) * 65536 <= num * 65536);
}

/// A floored product of two values in [0, 1] is again in [0, 1].
proof fn lemma_unit_interval_mul(a: int, b: int)
    by (nonlinear_arith)
    requires
        0 <= a <= 65536,
        0 <= b <= 65536,
    ensures
        0 <= fp_mul_s(a, b) <= 65536,
{
}

fn scatter_lambertian(
    m: &Lambertian,
    rng: &mut rand::rngs::SmallRng,
    ray: &Ray,
    hit: &Hit,
) -> (r: Option<ScatterResponse>)
    requires
        m.wf(),
        ray.wf(),
        hit.wf(),
    ensures
        scatter_post(Material::Lambertian(Lambertian { albedo: m.albedo }), *ray, *hit, r),
{
    let rv = random_in_unit_sphere(rng);
    let direction = Vec3 {
        x: hit.normal.x + rv.x,
        y: hit.normal.y + rv.y,
        z: hit.normal.z + rv.z,
    };
    let scattered = Ray::new(hit.p, direction, ray.time);
    let attenuation = m.albedo.value(hit.u, hit.v, &hit.p);
    proof {
        assert(in_sphere(rv) && scattered.direction == lambert_dir_s(hit.normal, rv));
    }
    Some(ScatterResponse::new(scattered, attenuation))
}

fn scatter_metal(
    m: &Metal,
    rng: &mut rand::rngs::SmallRng,
    ray: &Ray,
    hit: &Hit,
) -> (r: Option<ScatterResponse>)
    requires
        m.wf(),
        ray.wf(),
        hit.wf(),
    ensures
        scatter_post(
            Material::Metal(Metal { albedo: m.albedo, fuzziness: m.fuzziness }),
            *ray,
            *hit,
            r,
        ),
{
    let sq = ray.direction.square_length();
    if sq < 1 {
        return None;
    }
    let ud = ray.direction.unit();
    let refl = reflect(&ud, &hit.normal);
    let rv = random_in_unit_sphere(rng);
    proof {
        lemma_fp_mul_bound(m.fuzziness as int, rv.x as int, 65536, 65536);
        lemma_fp_mul_bound(m.fuzziness as int, rv.y as int, 65536, 65536);
        lemma_fp_mul_bound(m.fuzziness as int, rv.z as int, 65536, 65536);
    }
    let direction = Vec3 {
        x: refl.x + fp_mul(m.fuzziness, rv.x),
        y: refl.y + fp_mul(m.fuzziness, rv.y),
        z: refl.z + fp_mul(m.fuzziness, rv.z),
    };
    proof {
        if m.fuzziness == 0 {
            assert(fp_mul_s(0, rv.x as int) == 0) by (nonlinear_arith);
            assert(fp_mul_s(0, rv.y as int) == 0) by (nonlinear_arith);
            assert(fp_mul_s(0, rv.z as int) == 0) by (nonlinear_arith);
        }
    }
    let scattered = Ray::new(hit.p, direction, ray.time);
    proof {
        assert(scattered.direction == metal_dir_s(
            ray.direction,
            hit.normal,
            m.fuzziness as int,
            rv,
        ));
    }
    if scattered.direction.dot(&hit.normal) > 0 {
        proof {
            assert(in_sphere(rv) && scattered.direction == metal_dir_s(
                ray.direction,
                hit.normal,
                m.fuzziness as int,
                rv,
            ));
        }
        Some(ScatterResponse::new(scattered, m.albedo))
    } else {
        None
    }
}

fn scatter_dielectric(
    m: &Dielectric,
    rng: &mut rand::rngs::SmallRng,
    ray: &Ray,
    hit: &Hit,
) -> (r: Option<ScatterResponse>)
    requires
        m.wf(),
        ray.wf(),
        hit.wf(),
    ensures
        scatter_post(Material::Dielectric(Dielectric { ref_idx: m.ref_idx }), *ray, *hit, r),
{
    let sq = ray.direction.square_length();
    if sq < 1 {
        return None;
    }
    let ud = ray.direction.unit();
    let ratio: i64 = if hit.front_facing {
        fp_div(65536, m.ref_idx)
    } else {
        m.ref_idx
    };
    proof {
        lemma_ratio_bound(m.ref_idx as int, hit.front_facing);
    }
    proof {
        lemma_fp_mul_bound(-(ud.x as int), hit.normal.x as int, 131072, 131072);
        lemma_fp_mul_bound(-(ud.y as int), hit.normal.y as int, 131072, 131072);
        lemma_fp_mul_bound(-(ud.z as int), hit.normal.z as int, 131072, 131072);
    }
    let c0 = ud.neg().dot(&hit.normal);
    let cos = crate::fixed::fp_min(c0, 65536);
    proof {
        lemma_fp_mul_bound(cos as int, cos as int, 786435, 786435);
    }
    let cc = fp_mul(cos, cos);
    let sin2 = 65536 - cc;
    let s2 = if sin2 >= 0 {
        sin2
    } else {
        0
    };
    let sin = fp_sqrt(s2);
    proof {
        lemma_sin_bound(s2 as int);
        lemma_fp_mul_bound(ratio as int, sin as int, 0x8_0000, 0x200_0000);
    }
    let cannot_refract = fp_mul(ratio, sin) > 65536;
    let cos_for_schlick = if cos < 0 {
        0
    } else {
        cos
    };
    let reflecting = cannot_refract || schlick(cos_for_schlick, ratio) > rng_unit(rng);
    let direction = if reflecting {
        reflect(&ud, &hit.normal)
    } else {
        refract(&ud, &hit.normal, ratio)
    };
    let scattered = Ray::new(hit.p, direction, ray.time);
    let attenuation = Vec3 { x: FP_ONE, y: FP_ONE, z: FP_ONE };
    Some(ScatterResponse::new(scattered, attenuation))
}

/// The refraction ratio stays within the working range.
proof fn lemma_ratio_bound(ref_idx: int, front: bool)
    requires
        16384 <= ref_idx <= 0x8_0000,
    ensures
        0 <= dielectric_ratio_s(ref_idx, front) <= 0x8_0000,
        i64::MIN <= fp_div_s(65536, ref_idx) <= i64::MAX,
{
    assert(0 <= (65536int * 65536) / ref_idx <= 0x4_0000) by (nonlinear_arith)
        requires
            16384 <= ref_idx,
    ;
}

/// The sine root in the dielectric stays small.
proof fn lemma_sin_bound(s2: int)
    requires
        0 <= s2 <= 0x4000_0000,
    ensures
        0 <= sqrt_s(s2 * 65536) <= 0x200_0000,
{
    crate::fixed::lemma_sqrt_exists(s2 * 65536);
    let r = sqrt_s(s2 * 65536);
    if r > 0x200_0000 {
        assert(r * r > 0x4000_0000 * 65536) by (nonlinear_arith)
            requires
                r > 0x200_0000,
        ;
    }
}

} // verus!
