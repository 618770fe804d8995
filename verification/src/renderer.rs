//! The radiance integrator and the pixel renderer.
//!
//! `color` estimates radiance along one ray: find the nearest hit (through
//! the hierarchy or by linear scan), add what the surface emits, and
//! recurse along the scattered ray with the attenuation applied; the depth
//! parameter is a hard energy cutoff. Its whole recursive behaviour is
//! pinned by `radiance_post`, with the random draws named existentially.
//! `render` accumulates jittered camera samples for one pixel, averages,
//! applies square-root gamma and scales to a byte; `pixel_post` ties every
//! produced byte triple to admissible camera rays of that pixel and to the
//! integrator's postcondition along them. `render_world` lays the pixels
//! out top row first, sequentially or through a parallel worker pool.

use vstd::prelude::*;
use crate::bvh::BoundingVolumeHierarchy;
use crate::camera::{Camera, camera_dir_s, camera_origin_s, in_disk};
use crate::color::{cadd, cadd_s, cmul, cmul_s, color_ok};
use crate::fixed::{fp_mul, fp_mul_s, fp_sqrt, sqrt_s, lemma_fp_mul_bound};
use crate::hittable::{Shape, best_over, ids_upto, lemma_shape_material_wf};
use crate::material::{ScatterResponse, emit_s, scatter_post};
use crate::ray::{Ray, T_LIMIT};
use crate::rng::{new_rng, rng_unit};
use crate::vec3::{Vec3, dot_s, unit_s};

verus! {

/// The minimum hit distance: queries start a little off the surface so a
/// scattered ray does not immediately hit its own origin.
pub const SHADOW_EPS: i64 = 66;

/// What a ray that escapes the scene sees.
pub enum Background {
    /// A constant color.
    Fixed(Vec3),
    /// The vertical white-to-blue gradient of a clear sky.
    Sky,
}

impl Background {
    pub open spec fn wf(self) -> bool {
        match self {
            Background::Fixed(c) => color_ok(c),
            Background::Sky => true,
        }
    }
}

/// The background color seen along a direction: the fixed color, or the
/// sky gradient interpolated on the unit direction's height; a degenerate
/// direction sees white.
pub open spec fn background_color_s(bg: Background, ray: Ray) -> Vec3 {
    match bg {
        Background::Fixed(c) => c,
        Background::Sky => {
            if dot_s(ray.direction, ray.direction) < 1 {
                Vec3 { x: 65536, y: 65536, z: 65536 }
            } else {
                let uy = unit_s(ray.direction).y as int;
                let tt = crate::hittable::uclamp_s((uy + 65536) / 2);
                Vec3 {
                    x: (65536 - tt + fp_mul_s(tt, 32768)) as i64,
                    y: (65536 - tt + fp_mul_s(tt, 45875)) as i64,
                    z: (65536 - tt + fp_mul_s(tt, 65536)) as i64,
                }
            }
        },
    }
}

/// The background color, exactly per `background_color_s`.
pub fn background_color(bg: &Background, ray: &Ray) -> (r: Vec3)
    requires
        bg.wf(),
        ray.wf(),
    ensures
        r == background_color_s(*bg, *ray),
        color_ok(r),
{
    match bg {
        Background::Fixed(c) => *c,
        Background::Sky => {
            let sq = ray.direction.square_length();
            if sq < 1 {
                Vec3 { x: 65536, y: 65536, z: 65536 }
            } else {
                let ud = ray.direction.unit();
                let ys = ud.y + 65536;
                let tt: i64;
                if ys < 0 {
                    tt = 0;
                } else {
                    let half = (ys as u64 / 2) as i64;
                    tt = if half > 65536 {
                        65536
                    } else {
                        half
                    };
                }
                proof {
                    lemma_fp_mul_bound(tt as int, 32768, 65536, 32768);
                    lemma_fp_mul_bound(tt as int, 45875, 65536, 45875);
                    lemma_fp_mul_bound(tt as int, 65536, 65536, 65536);
                    assert(fp_mul_s(tt as int, 32768) >= 0 && fp_mul_s(tt as int, 45875) >= 0
                        && fp_mul_s(tt as int, 65536) >= 0) by (nonlinear_arith)
                        requires
                            tt >= 0,
                    ;
                }
                Vec3 {
                    x: 65536 - tt + fp_mul(tt, 32768),
                    y: 65536 - tt + fp_mul(tt, 45875),
                    z: 65536 - tt + fp_mul(tt, 65536),
                }
            }
        },
    }
}

/// One admissible bounce at a hit: the scatter outcome is admissible for
/// the hit material and the result adds the emitted light to the
/// attenuated further radiance.
pub open spec fn bounce_of(
    shapes: Seq<Shape>,
    ray: Ray,
    p: (usize, crate::hittable::Hit),
    resp: ScatterResponse,
    rec: Vec3,
    r: Vec3,
) -> bool {
    &&& scatter_post(shapes[p.0 as int].material_s(), ray, p.1, Some(resp))
    &&& color_ok(rec)
    &&& r == cadd_s(
        emit_s(shapes[p.0 as int].material_s(), p.1.u as int, p.1.v as int, p.1.p),
        cmul_s(resp.attenuation, rec),
    )
}

/// Everything the integrator may return for a ray at a depth, over the id
/// list its nearest-hit query scans: black at the depth cutoff; the
/// background on a miss; and on a hit, what the surface emits plus the
/// attenuation of an admissible scatter outcome times an admissible
/// radiance of the scattered ray one depth down — or the emitted light
/// alone, when the material admits no scatter for the drawn sample (a
/// diffuse light never scatters, so for it this case is forced).
pub open spec fn radiance_post(
    shapes: Seq<Shape>,
    ids: Seq<usize>,
    bg: Background,
    ray: Ray,
    depth: int,
    r: Vec3,
) -> bool
    decreases depth,
{
    if depth <= 0 {
        r == (Vec3 { x: 0, y: 0, z: 0 })
    } else {
        match best_over(shapes, ids, ray, SHADOW_EPS as int, T_LIMIT as int) {
            None => r == background_color_s(bg, ray),
            Some(p) => {
                ||| exists|resp: ScatterResponse, rec: Vec3|
                    #[trigger] bounce_of(shapes, ray, p, resp, rec, r) && radiance_post(
                        shapes,
                        ids,
                        bg,
                        resp.scattered,
                        depth - 1,
                        rec,
                    )
                ||| (scatter_post(shapes[p.0 as int].material_s(), ray, p.1, None) && r == emit_s(
                    shapes[p.0 as int].material_s(),
                    p.1.u as int,
                    p.1.v as int,
                    p.1.p,
                ))
            },
        }
    }
}

/// A hit whose material scattered: emitted light plus the attenuated
/// recursive radiance satisfies the integrator's postcondition.
#[verifier::rlimit(100)]
proof fn lemma_radiance_hit_scatter(
    shapes: Seq<Shape>,
    ids: Seq<usize>,
    bg: Background,
    ray: Ray,
    depth: int,
    p: (usize, crate::hittable::Hit),
    resp: ScatterResponse,
    rec: Vec3,
    r: Vec3,
)
    requires
        depth > 0,
        best_over(shapes, ids, ray, SHADOW_EPS as int, T_LIMIT as int) == Some(p),
        scatter_post(shapes[p.0 as int].material_s(), ray, p.1, Some(resp)),
        radiance_post(shapes, ids, bg, resp.scattered, depth - 1, rec),
        color_ok(rec),
        r == cadd_s(
            emit_s(shapes[p.0 as int].material_s(), p.1.u as int, p.1.v as int, p.1.p),
            cmul_s(resp.attenuation, rec),
        ),
    ensures
        radiance_post(shapes, ids, bg, ray, depth, r),
{
    let pp = best_over(shapes, ids, ray, SHADOW_EPS as int, T_LIMIT as int).unwrap();
    assert(pp == p);
    assert(bounce_of(shapes, ray, pp, resp, rec, r));
    assert(exists|resp2: ScatterResponse, rec2: Vec3|
        #[trigger] bounce_of(shapes, ray, pp, resp2, rec2, r) && radiance_post(
            shapes,
            ids,
            bg,
            resp2.scattered,
            depth - 1,
            rec2,
        ));
}

/// A hit whose material absorbed the sample: the emitted light alone
/// satisfies the integrator's postcondition.
#[verifier::rlimit(100)]
proof fn lemma_radiance_hit_absorbed(
    shapes: Seq<Shape>,
    ids: Seq<usize>,
    bg: Background,
    ray: Ray,
    depth: int,
    p: (usize, crate::hittable::Hit),
    r: Vec3,
)
    requires
        depth > 0,
        best_over(shapes, ids, ray, SHADOW_EPS as int, T_LIMIT as int) == Some(p),
        scatter_post(shapes[p.0 as int].material_s(), ray, p.1, None),
        r == emit_s(shapes[p.0 as int].material_s(), p.1.u as int, p.1.v as int, p.1.p),
    ensures
        radiance_post(shapes, ids, bg, ray, depth, r),
{
}

/// The radiance along a ray, to the given recursion depth. The result is
/// pinned by `radiance_post` over the id list the chosen query path
/// scans; the depth-zero and miss cases are also stated directly.
#[verifier::rlimit(100)]
pub fn color(
    rng: &mut rand::rngs::SmallRng,
    ray: &Ray,
    background: &Background,
    world: &BoundingVolumeHierarchy,
    max_depth: u8,
    use_bounding_volume: bool,
) -> (r: Vec3)
    requires
        world.wf(),
        background.wf(),
        ray.wf(),
        world.time_start <= ray.time <= world.time_end,
    ensures
        color_ok(r),
        max_depth == 0 ==> r == (Vec3 { x: 0, y: 0, z: 0 }),
        max_depth > 0 && best_over(
            world.shapes@,
            ids_upto(world.shapes@.len() as int),
            *ray,
            SHADOW_EPS as int,
            T_LIMIT as int,
        ) is None ==> r == background_color_s(*background, *ray),
        !use_bounding_volume ==> radiance_post(
            world.shapes@,
            ids_upto(world.shapes@.len() as int),
            *background,
            *ray,
            max_depth as int,
            r,
        ),
        use_bounding_volume ==> radiance_post(
            world.shapes@,
            crate::bvh::subtree_ids(world.nodes@, world.root_i()),
            *background,
            *ray,
            max_depth as int,
            r,
        ),
    decreases max_depth,
{
    if max_depth == 0 {
        return Vec3 { x: 0, y: 0, z: 0 };
    }

    let ghost ids = if use_bounding_volume {
        crate::bvh::subtree_ids(world.nodes@, world.root_i())
    } else {
        ids_upto(world.shapes@.len() as int)
    };

    let nearest = if use_bounding_volume {
        proof {
            crate::bvh::lemma_bvh_matches_scan(*world, *ray, SHADOW_EPS as int, T_LIMIT as int);
        }
        world.hit(ray, SHADOW_EPS, T_LIMIT)
    } else {
        crate::hittable::hit(&world.shapes, ray, SHADOW_EPS, T_LIMIT)
    };

    match nearest {
        Some(p) => {
            let (index, hit) = p;
            let shape = &world.shapes[index];
            proof {
                lemma_shape_material_wf(world.shapes@[index as int]);
            }
            let material = shape.material();
            let emitted = material.emit(hit.u, hit.v, &hit.p);
            match material.scatter(rng, ray, &hit) {
                Some(scatter) => {
                    let bounced = color(
                        rng,
                        scatter.scattered(),
                        background,
                        world,
                        max_depth - 1,
                        use_bounding_volume,
                    );
                    let weighted = cmul(scatter.attenuation(), &bounced);
                    let out = cadd(&emitted, &weighted);
                    proof {
                        lemma_radiance_hit_scatter(
                            world.shapes@,
                            ids,
                            *background,
                            *ray,
                            max_depth as int,
                            (index, hit),
                            scatter,
                            bounced,
                            out,
                        );
                    }
                    out
                },
                None => {
                    proof {
                        lemma_radiance_hit_absorbed(
                            world.shapes@,
                            ids,
                            *background,
                            *ray,
                            max_depth as int,
                            (index, hit),
                            emitted,
                        );
                    }
                    emitted
                },
            }
        },
        None => {
            let bgc = background_color(background, ray);
            proof {
                assert(radiance_post(world.shapes@, ids, *background, *ray, max_depth as int, bgc));
            }
            bgc
        },
    }
}

/// Gamma correction and byte scaling of one averaged channel: the square
/// root of the fixed-point value, scaled by 255.99 and clamped to a byte.
pub open spec fn gamma_byte_s(c: int) -> int {
    let g = sqrt_s(c * 65536);
    let scaled = (g * 25599) / 6553600;
    if scaled > 255 {
        255
    } else {
        scaled
    }
}

pub fn gamma_byte(c: i64) -> (r: u8)
    requires
        c >= 0,
    ensures
        r == gamma_byte_s(c as int),
{
    let g = fp_sqrt(c);
    let scaled = ((g as u128) * 25599) / 6553600;
    if scaled > 255 {
        255
    } else {
        scaled as u8
    }
}

/// One pixel's bytes from an accumulated color and a sample count.
pub open spec fn pixel_bytes_s(acc: Vec3, n: int) -> (int, int, int) {
    (gamma_byte_s(acc.x as int / n), gamma_byte_s(acc.y as int / n), gamma_byte_s(acc.z as int / n))
}

/// An admissible sample ray of a pixel: sub-pixel jitters, a lens-disk
/// sample and a shutter time, mapped through the camera. The pixel index
/// runs row-major from the top-left; the row is flipped so viewport v
/// grows upward.
pub open spec fn is_pixel_ray(
    camera: Camera,
    screen_width: int,
    screen_height: int,
    idx: int,
    ju: int,
    jv: int,
    rd: Vec3,
    ray: Ray,
) -> bool {
    &&& 0 <= ju < 65536
    &&& 0 <= jv < 65536
    &&& in_disk(rd)
    &&& ray.wf()
    &&& camera.time_start <= ray.time <= camera.time_end
    &&& ray.origin == camera_origin_s(camera, rd)
    &&& ray.direction == camera_dir_s(
        camera,
        ((idx % screen_width) * 65536 + ju) / screen_width,
        ((screen_height - 1 - idx / screen_width) * 65536 + jv) / screen_height,
        rd,
    )
}

/// One integrator sample for a pixel: the radiance, to the standard
/// depth, along some admissible sample ray of that pixel.
pub open spec fn pixel_sample(
    world: BoundingVolumeHierarchy,
    camera: Camera,
    bg: Background,
    screen_width: int,
    screen_height: int,
    use_bvh: bool,
    idx: int,
    c: Vec3,
) -> bool {
    exists|ju: int, jv: int, rd: Vec3, ray: Ray|
        #[trigger] is_pixel_ray(camera, screen_width, screen_height, idx, ju, jv, rd, ray)
            && color_ok(c) && (use_bvh ==> radiance_post(
            world.shapes@,
            crate::bvh::subtree_ids(world.nodes@, world.root_i()),
            bg,
            ray,
            50,
            c,
        )) && (!use_bvh ==> radiance_post(
            world.shapes@,
            ids_upto(world.shapes@.len() as int),
            bg,
            ray,
            50,
            c,
        ))
}

/// The saturating sum of a sequence of sample colors.
pub open spec fn sum_of(cs: Seq<Vec3>) -> Vec3
    decreases cs.len(),
{
    if cs.len() == 0 {
        Vec3 { x: 0, y: 0, z: 0 }
    } else {
        cadd_s(sum_of(cs.drop_last()), cs.last())
    }
}

/// Every entry of `cs` is an admissible integrator sample of the pixel.
pub open spec fn all_pixel_samples(
    world: BoundingVolumeHierarchy,
    camera: Camera,
    bg: Background,
    screen_width: int,
    screen_height: int,
    use_bvh: bool,
    idx: int,
    cs: Seq<Vec3>,
) -> bool {
    forall|k: int|
        0 <= k < cs.len() ==> pixel_sample(
            world,
            camera,
            bg,
            screen_width,
            screen_height,
            use_bvh,
            idx,
            #[trigger] cs[k],
        )
}

/// What one rendered pixel satisfies: its bytes are the gamma-corrected
/// per-channel averages of the saturating sum of `n` admissible
/// integrator samples of that pixel.
pub open spec fn pixel_post(
    world: BoundingVolumeHierarchy,
    camera: Camera,
    bg: Background,
    screen_width: int,
    screen_height: int,
    n: int,
    use_bvh: bool,
    idx: int,
    r: (u8, u8, u8),
) -> bool {
    exists|cs: Seq<Vec3>|
        #[trigger] all_pixel_samples(
            world,
            camera,
            bg,
            screen_width,
            screen_height,
            use_bvh,
            idx,
            cs,
        ) && cs.len() == n && color_ok(sum_of(cs)) && (r.0 as int, r.1 as int, r.2 as int)
            == pixel_bytes_s(sum_of(cs), n)
}

/// Folding one more admissible sample into the running sample sequence.
proof fn lemma_sample_step(
    world: BoundingVolumeHierarchy,
    camera: Camera,
    bg: Background,
    screen_width: int,
    screen_height: int,
    use_bvh: bool,
    idx: int,
    cs: Seq<Vec3>,
    c: Vec3,
    ju: int,
    jv: int,
    rd: Vec3,
    ray: Ray,
    u: int,
    v: int,
)
    requires
        all_pixel_samples(world, camera, bg, screen_width, screen_height, use_bvh, idx, cs),
        0 <= ju < 65536,
        0 <= jv < 65536,
        in_disk(rd),
        ray.wf(),
        camera.time_start <= ray.time <= camera.time_end,
        ray.origin == camera_origin_s(camera, rd),
        ray.direction == camera_dir_s(camera, u, v, rd),
        u == ((idx % screen_width) * 65536 + ju) / screen_width,
        v == ((screen_height - 1 - idx / screen_width) * 65536 + jv) / screen_height,
        color_ok(c),
        use_bvh ==> radiance_post(
            world.shapes@,
            crate::bvh::subtree_ids(world.nodes@, world.root_i()),
            bg,
            ray,
            50,
            c,
        ),
        !use_bvh ==> radiance_post(
            world.shapes@,
            ids_upto(world.shapes@.len() as int),
            bg,
            ray,
            50,
            c,
        ),
    ensures
        all_pixel_samples(
            world,
            camera,
            bg,
            screen_width,
            screen_height,
            use_bvh,
            idx,
            cs.push(c),
        ),
        sum_of(cs.push(c)) == cadd_s(sum_of(cs), c),
{
    assert(is_pixel_ray(camera, screen_width, screen_height, idx, ju, jv, rd, ray));
    assert(pixel_sample(world, camera, bg, screen_width, screen_height, use_bvh, idx, c));
    let cs2 = cs.push(c);
    assert(cs2.drop_last() =~= cs);
    assert(cs2.last() == c);
    assert forall|k: int| 0 <= k < cs2.len() implies pixel_sample(
        world,
        camera,
        bg,
        screen_width,
        screen_height,
        use_bvh,
        idx,
        #[trigger] cs2[k],
    ) by {
        if k < cs.len() {
            assert(cs2[k] == cs[k]);
        } else {
            assert(cs2[k] == c);
        }
    }
}

/// Render one pixel: `antialias_iterations` jittered camera samples,
/// averaged, gamma-corrected and scaled to bytes.
#[verifier::rlimit(100)]
pub fn render(
    rng: &mut rand::rngs::SmallRng,
    background: &Background,
    world: &BoundingVolumeHierarchy,
    camera: &Camera,
    screen_width: usize,
    screen_height: usize,
    antialias_iterations: usize,
    use_bounding_volume: bool,
    idx: usize,
) -> (r: (u8, u8, u8))
    requires
        world.wf(),
        background.wf(),
        camera.wf(),
        world.time_start <= camera.time_start,
        camera.time_end <= world.time_end,
        1 <= screen_width <= 0x1_0000_0000,
        1 <= screen_height <= 0x1_0000_0000,
        1 <= antialias_iterations,
        idx < screen_width * screen_height,
    ensures
        pixel_post(
            *world,
            *camera,
            *background,
            screen_width as int,
            screen_height as int,
            antialias_iterations as int,
            use_bounding_volume,
            idx as int,
            r,
        ),
{
    let i = idx % screen_width;
    proof {
        assert(idx / screen_width < screen_height) by (nonlinear_arith)
            requires
                idx < screen_width * screen_height,
                1 <= screen_width,
        ;
    }
    let j = screen_height - 1 - idx / screen_width;

    let mut acc = Vec3 { x: 0, y: 0, z: 0 };
    let ghost mut cs: Seq<Vec3> = Seq::empty();
    let mut sample: usize = 0;
    while sample < antialias_iterations
        invariant
            world.wf(),
            background.wf(),
            camera.wf(),
            world.time_start <= camera.time_start,
            camera.time_end <= world.time_end,
            1 <= screen_width <= 0x1_0000_0000,
            1 <= screen_height <= 0x1_0000_0000,
            idx < screen_width * screen_height,
            i == idx % screen_width,
            j == screen_height - 1 - idx / screen_width,
            i < screen_width,
            j < screen_height,
            sample <= antialias_iterations,
            color_ok(acc),
            cs.len() == sample as int,
            acc == sum_of(cs),
            all_pixel_samples(
                *world,
                *camera,
                *background,
                screen_width as int,
                screen_height as int,
                use_bounding_volume,
                idx as int,
                cs,
            ),
        decreases antialias_iterations - sample,
    {
        let ju = rng_unit(rng);
        let jv = rng_unit(rng);
        proof {
            lemma_pixel_coord(i as int, ju as int, screen_width as int);
            lemma_pixel_coord(j as int, jv as int, screen_height as int);
        }
        let u = (((i as u64) * 65536 + ju as u64) / screen_width as u64) as i64;
        let v = (((j as u64) * 65536 + jv as u64) / screen_height as u64) as i64;
        let ray = camera.ray(rng, u, v);
        let c = color(rng, &ray, background, world, 50, use_bounding_volume);
        acc = cadd(&acc, &c);
        proof {
            let rd = choose|rd: Vec3|
                #[trigger] in_disk(rd) && ray.origin == camera_origin_s(*camera, rd)
                    && ray.direction == camera_dir_s(*camera, u as int, v as int, rd);
            lemma_sample_step(
                *world,
                *camera,
                *background,
                screen_width as int,
                screen_height as int,
                use_bounding_volume,
                idx as int,
                cs,
                c,
                ju as int,
                jv as int,
                rd,
                ray,
                u as int,
                v as int,
            );
            cs = cs.push(c);
        }
        sample = sample + 1;
    }

    let n = antialias_iterations as u64;
    let ax = ((acc.x as u64) / n) as i64;
    let ay = ((acc.y as u64) / n) as i64;
    let az = ((acc.z as u64) / n) as i64;
    let out = (gamma_byte(ax), gamma_byte(ay), gamma_byte(az));
    proof {
        assert(ax == acc.x as int / antialias_iterations as int);
        assert(ay == acc.y as int / antialias_iterations as int);
        assert(az == acc.z as int / antialias_iterations as int);
        assert((out.0 as int, out.1 as int, out.2 as int) == pixel_bytes_s(
            acc,
            antialias_iterations as int,
        ));
        assert(all_pixel_samples(
            *world,
            *camera,
            *background,
            screen_width as int,
            screen_height as int,
            use_bounding_volume,
            idx as int,
            cs,
        ) && cs.len() == antialias_iterations as int && color_ok(sum_of(cs)));
    }
    out
}

/// A jittered pixel coordinate scales into [0, 1].
proof fn lemma_pixel_coord(i: int, jit: int, w: int)
    by (nonlinear_arith)
    requires
        0 <= i < w,
        0 <= jit < 65536,
        1 <= w <= 0x1_0000_0000,
    ensures
        0 <= (i * 65536 + jit) / w <= 65536,
        i * 65536 + jit <= 0x1_0000_0000_0000,
{
    assert(i * 65536 + jit < w * 65536);
}

/// Render one pixel from a per-pixel deterministic seed.
pub fn render_seeded(
    seed: u64,
    idx: usize,
    background: &Background,
    world: &BoundingVolumeHierarchy,
    camera: &Camera,
    screen_width: usize,
    screen_height: usize,
    antialias_iterations: usize,
    use_bounding_volume: bool,
) -> (r: (u8, u8, u8))
    requires
        world.wf(),
        background.wf(),
        camera.wf(),
        world.time_start <= camera.time_start,
        camera.time_end <= world.time_end,
        1 <= screen_width <= 0x1_0000_0000,
        1 <= screen_height <= 0x1_0000_0000,
        1 <= antialias_iterations,
        idx < screen_width * screen_height,
    ensures
        pixel_post(
            *world,
            *camera,
            *background,
            screen_width as int,
            screen_height as int,
            antialias_iterations as int,
            use_bounding_volume,
            idx as int,
            r,
        ),
{
    let mixed = seed ^ (idx as u64).wrapping_mul(0x9E37_79B9_7F4A_7C15);
    let mut rng = new_rng(mixed);
    render(
        &mut rng,
        background,
        world,
        camera,
        screen_width,
        screen_height,
        antialias_iterations,
        use_bounding_volume,
        idx,
    )
}

/// Relies on rayon's IntoParallelIterator for ranges with map, flat_map
/// and collect: the pipeline applies the closure to every pixel index and
/// concatenates, in index order, the three bytes each yields, so the
/// buffer holds one triple per pixel. The closure only calls the verified
/// `render_seeded` and lists its bytes, so each stored triple is an
/// output of `render_seeded` for its index and satisfies that function's
/// postcondition.
#[verifier::external_body]
fn par_render(
    seed: u64,
    background: &Background,
    world: &BoundingVolumeHierarchy,
    camera: &Camera,
    screen_width: usize,
    screen_height: usize,
    antialias_iterations: usize,
    use_bounding_volume: bool,
) -> (r: Vec<u8>)
    requires
        world.wf(),
        background.wf(),
        camera.wf(),
        world.time_start <= camera.time_start,
        camera.time_end <= world.time_end,
        1 <= screen_width <= 0x1_0000_0000,
        1 <= screen_height <= 0x1_0000_0000,
        screen_width * screen_height <= usize::MAX / 4,
        1 <= antialias_iterations,
    ensures
        r@.len() == 3 * screen_width * screen_height,
        forall|i: int|
            0 <= i < screen_width * screen_height ==> pixel_post(
                *world,
                *camera,
                *background,
                screen_width as int,
                screen_height as int,
                antialias_iterations as int,
                use_bounding_volume,
                i,
                (#[trigger] r@[3 * i], r@[3 * i + 1], r@[3 * i + 2]),
            ),
{
    let pixels = rayon::iter::ParallelIterator::map(
        rayon::iter::IntoParallelIterator::into_par_iter(0..screen_width * screen_height),
        |idx| render_seeded(seed, idx, background, world, camera, screen_width,
            screen_height, antialias_iterations, use_bounding_volume),
    );
    rayon::iter::ParallelIterator::collect(
        rayon::iter::ParallelIterator::flat_map(pixels, |p: (u8, u8, u8)| vec![p.0, p.1, p.2]),
    )
}

/// Render the whole image into an interleaved RGB byte buffer, top row
/// first: three bytes per pixel, each pixel satisfying `pixel_post`. With
/// `render_parallel` the pixels are spread over a worker pool; each
/// pixel's generator is seeded from `seed` and its index, so a fixed seed
/// renders the same image on both paths. The pixel-count bound is the
/// machine limit that keeps the byte buffer addressable.
pub fn render_world(
    background: &Background,
    world: &BoundingVolumeHierarchy,
    camera: &Camera,
    screen_width: usize,
    screen_height: usize,
    antialias_iterations: usize,
    render_parallel: bool,
    use_bounding_volume: bool,
    seed: u64,
) -> (r: Vec<u8>)
    requires
        world.wf(),
        background.wf(),
        camera.wf(),
        world.time_start <= camera.time_start,
        camera.time_end <= world.time_end,
        1 <= screen_width <= 0x1_0000_0000,
        1 <= screen_height <= 0x1_0000_0000,
        screen_width * screen_height <= usize::MAX / 4,
        1 <= antialias_iterations,
    ensures
        r@.len() == 3 * screen_width * screen_height,
        forall|i: int|
            0 <= i < screen_width * screen_height ==> pixel_post(
                *world,
                *camera,
                *background,
                screen_width as int,
                screen_height as int,
                antialias_iterations as int,
                use_bounding_volume,
                i,
                (#[trigger] r@[3 * i], r@[3 * i + 1], r@[3 * i + 2]),
            ),
{
    if render_parallel {
        return par_render(
            seed,
            background,
            world,
            camera,
            screen_width,
            screen_height,
            antialias_iterations,
            use_bounding_volume,
        );
    }
    let total = screen_width * screen_height;
    let mut buffer: Vec<u8> = Vec::new();
    let mut idx: usize = 0;
    while idx < total
        invariant
            world.wf(),
            background.wf(),
            camera.wf(),
            world.time_start <= camera.time_start,
            camera.time_end <= world.time_end,
            1 <= screen_width <= 0x1_0000_0000,
            1 <= screen_height <= 0x1_0000_0000,
            total == screen_width * screen_height,
            total <= usize::MAX / 4,
            1 <= antialias_iterations,
            idx <= total,
            buffer@.len() == 3 * idx,
            forall|i: int|
                0 <= i < idx ==> pixel_post(
                    *world,
                    *camera,
                    *background,
                    screen_width as int,
                    screen_height as int,
                    antialias_iterations as int,
                    use_bounding_volume,
                    i,
                    (#[trigger] buffer@[3 * i], buffer@[3 * i + 1], buffer@[3 * i + 2]),
                ),
        decreases total - idx,
    {
        let p = render_seeded(
            seed,
            idx,
            background,
            world,
            camera,
            screen_width,
            screen_height,
            antialias_iterations,
            use_bounding_volume,
        );
        let ghost bufold = buffer@;
        buffer.push(p.0);
        buffer.push(p.1);
        buffer.push(p.2);
        proof {
            assert forall|i: int| 0 <= i < idx as int + 1 implies pixel_post(
                *world,
                *camera,
                *background,
                screen_width as int,
                screen_height as int,
                antialias_iterations as int,
                use_bounding_volume,
                i,
                (#[trigger] buffer@[3 * i], buffer@[3 * i + 1], buffer@[3 * i + 2]),
            ) by {
                if i < idx as int {
                    assert(buffer@[3 * i] == bufold[3 * i]);
                    assert(buffer@[3 * i + 1] == bufold[3 * i + 1]);
                    assert(buffer@[3 * i + 2] == bufold[3 * i + 2]);
                } else {
                    assert(buffer@[3 * i] == p.0);
                    assert(buffer@[3 * i + 1] == p.1);
                    assert(buffer@[3 * i + 2] == p.2);
                }
            }
        }
        idx = idx + 1;
    }
    proof {
        assert(3 * (screen_width * screen_height) == 3 * screen_width * screen_height)
            by (nonlinear_arith);
    }
    buffer
}

} // verus!
