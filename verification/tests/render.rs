//! Scenario tests for materials, the hierarchy and the renderer.

use tracer::bvh::{BVHMember, BoundingVolumeHierarchy};
use tracer::camera::Camera;
use tracer::config::{OutputConfig, RendererConfig, WorldConfig};
use tracer::hittable::{Hit, Shape};
use tracer::material::{reflect, schlick, Material};
use tracer::ray::{Ray, T_LIMIT};
use tracer::renderer::{background_color, color, gamma_byte, render_world, Background};
use tracer::rng::{new_rng, rng_axis, rng_unit};
use tracer::texture::Texture;
use tracer::util::clamp;
use tracer::vec3::Vec3;

const S: i64 = 65536;

fn v(x: i64, y: i64, z: i64) -> Vec3 {
    Vec3::new(x, y, z)
}

fn small_scene() -> Vec<Shape> {
    vec![
        Shape::sphere(0, 0, -3 * S, S, Material::lambertian(S / 2, S / 4, S / 4)),
        Shape::sphere(3 * S, 0, -4 * S, S / 2, Material::metal(S / 2, S / 2, S / 2, 0)),
        Shape::xy_rect(-2 * S, 2 * S, -2 * S, 2 * S, -6 * S, Material::lambertian(S / 4, S / 2, S / 4)),
        Shape::cube(-4 * S, -S, -5 * S, -2 * S, S, -3 * S, Material::dielectric(3 * S / 2)),
        Shape::moving_sphere(0, 3 * S, -4 * S, 0, 4 * S, -4 * S, S / 2, Material::lambertian(S / 2, S / 2, 0), 0, S),
    ]
}

#[test]
fn bvh_matches_linear_scan() {
    let mut rng = new_rng(11);
    let shapes = small_scene();
    let world = BoundingVolumeHierarchy::new(&mut rng, shapes, 0, S);
    let probe = small_scene();
    let mut checked = 0;
    let mut srng = new_rng(99);
    for _ in 0..200 {
        let ox = 2 * rng_unit(&mut srng) - S;
        let oy = 2 * rng_unit(&mut srng) - S;
        let dx = 2 * rng_unit(&mut srng) - S;
        let dy = 2 * rng_unit(&mut srng) - S;
        let time = rng_unit(&mut srng);
        let ray = Ray::new(v(ox, oy, 0), v(dx, dy, -S), time);
        let tree = world.hit(&ray, 66, T_LIMIT);
        let scan = tracer::hittable::hit(&probe, &ray, 66, T_LIMIT);
        match (tree, scan) {
            (None, None) => {}
            (Some(a), Some(b)) => {
                assert_eq!(a.1.t(), b.1.t());
                checked += 1;
            }
            (a, b) => panic!("tree {:?} vs scan {:?}", a.map(|p| p.0), b.map(|p| p.0)),
        }
    }
    assert!(checked > 0);
}

#[test]
fn bvh_leaf_count_equals_shape_count() {
    let mut rng = new_rng(5);
    let shapes = small_scene();
    let n = shapes.len();
    let world = BoundingVolumeHierarchy::new(&mut rng, shapes, 0, S);
    let mut leaves = Vec::new();
    for node in world.nodes.iter() {
        if let BVHMember::Leaf(k) = node {
            leaves.push(*k);
        }
    }
    assert_eq!(leaves.len(), n);
    leaves.sort();
    for (want, got) in leaves.iter().enumerate() {
        assert_eq!(want, *got); // every index exactly once
    }
    // a strictly binary tree over n leaves: 2n - 1 nodes in all
    assert_eq!(world.nodes.len(), 2 * n - 1);
    // strictly binary: every internal node has both children
    for node in world.nodes.iter() {
        if let BVHMember::Node { left, right, .. } = node {
            assert!(left.is_some() && right.is_some());
        }
    }
}

#[test]
fn camera_builds_the_documented_basis() {
    let cam = Camera::new(
        v(0, 0, 0),
        v(0, 0, -S),
        v(0, S, 0),
        S / 2,
        S,
        0,
        S,
        0,
        S,
    );
    // w = unit(from - at), u = unit(up x w), v = w x u
    assert_eq!(cam.w, v(0, 0, S));
    assert_eq!(cam.u, v(S, 0, 0));
    assert_eq!(cam.v, v(0, S, 0));
    assert_eq!(cam.origin, v(0, 0, 0));
    assert_eq!(cam.lens_radius, 0);
    // the corner sits half a viewport down-left, one focus length ahead
    assert_eq!(cam.lower_left_corner, v(-S / 2, -S / 2, -S));
    assert_eq!(cam.horizontal, v(S, 0, 0));
    assert_eq!(cam.vertical, v(0, S, 0));
}

#[test]
fn metal_negative_fuzz_clamps_to_zero() {
    // Fuzz is a perturbation radius: a negative setting means none.
    let m = Material::metal(S / 2, S / 2, S / 2, -S);
    let ray = Ray::new(v(0, 0, 0), v(S, -S, 0), 0);
    let hit = Hit::new(S, 0, 0, v(S, -S, 0), &ray, v(0, S, 0));
    let mut rng1 = new_rng(21);
    let mut rng2 = new_rng(12);
    let a = m.scatter(&mut rng1, &ray, &hit).unwrap();
    let b = m.scatter(&mut rng2, &ray, &hit).unwrap();
    assert_eq!(a.scattered().direction(), b.scattered().direction());
}

#[test]
fn every_pixel_of_an_empty_view_is_the_background() {
    // One sphere behind the camera: every pixel ray misses, so the whole
    // image must be exactly the gamma-mapped fixed background.
    let mut rng = new_rng(4);
    let shapes = vec![Shape::sphere(0, 0, 5 * S, S, Material::lambertian(S / 2, 0, 0))];
    let world = BoundingVolumeHierarchy::new(&mut rng, shapes, 0, S);
    let camera = Camera::new(
        v(0, 0, 0),
        v(0, 0, -S),
        v(0, S, 0),
        S / 2,
        S,
        0,
        S,
        0,
        S,
    );
    let bg = Background::Fixed(v(S / 4, S / 4, S / 4));
    let image = render_world(&bg, &world, &camera, 4, 4, 3, false, true, 9);
    // gamma of 0.25 is sqrt(0.25) * 255.99 = 127
    assert_eq!(image, vec![127u8; 48]);
}

#[test]
fn schlick_normal_incidence_is_r0() {
    let idx = 3 * S / 2; // 1.5
    // r0 = ((1 - 1.5) / (1 + 1.5))^2 over the exact fixed-point steps
    let r0a = tracer::fixed::fp_div(S - idx, S + idx);
    let r0 = tracer::fixed::fp_mul(r0a, r0a);
    assert_eq!(schlick(S, idx), r0);
    // away from normal incidence the reflectance grows
    assert!(schlick(S / 8, idx) > r0);
}

#[test]
fn metal_zero_fuzz_is_deterministic() {
    let m = Material::metal(S / 2, S / 2, S / 2, 0);
    let ray = Ray::new(v(0, 0, 0), v(S, -S, 0), 0);
    let hit = Hit::new(S, 0, 0, v(S, -S, 0), &ray, v(0, S, 0));
    let mut rng1 = new_rng(1);
    let mut rng2 = new_rng(424242);
    let a = m.scatter(&mut rng1, &ray, &hit).unwrap();
    let b = m.scatter(&mut rng2, &ray, &hit).unwrap();
    assert_eq!(a.scattered().direction(), b.scattered().direction());
    let expected = reflect(&ray.direction().unit(), hit.normal());
    assert_eq!(*a.scattered().direction(), expected);
}

#[test]
fn dielectric_always_answers() {
    let m = Material::dielectric(3 * S / 2);
    let ray = Ray::new(v(0, 0, 0), v(0, -S, 0), 0);
    let hit = Hit::new(S, 0, 0, v(0, -S, 0), &ray, v(0, S, 0));
    let mut rng = new_rng(3);
    let resp = m.scatter(&mut rng, &ray, &hit).unwrap();
    assert_eq!(*resp.attenuation(), v(S, S, S));
}

#[test]
fn diffuse_light_emits_and_never_scatters() {
    let m = Material::diffuse_light(Texture::constant(4 * S, 4 * S, 4 * S));
    let ray = Ray::new(v(0, 0, 0), v(0, -S, 0), 0);
    let hit = Hit::new(S, S / 2, S / 2, v(0, -S, 0), &ray, v(0, S, 0));
    let mut rng = new_rng(3);
    assert!(m.scatter(&mut rng, &ray, &hit).is_none());
    assert_eq!(m.emit(hit.u(), hit.v(), hit.p()), v(4 * S, 4 * S, 4 * S));
    // other materials emit nothing
    let lam = Material::lambertian(S / 2, 0, 0);
    assert_eq!(lam.emit(hit.u(), hit.v(), hit.p()), v(0, 0, 0));
}

#[test]
fn checker_texture_alternates() {
    let even = v(S, S, S);
    let odd = v(0, 0, 0);
    let t = Texture::checker_color(S, S, S, 0, 0, 0);
    // 10 * 0 / pi is in band zero: even
    assert_eq!(t.value(0, 0, &v(0, 0, 0)), even);
    // 10 * 0.4 / pi = 1.27...: odd band along x
    assert_eq!(t.value(0, 0, &v(26214, 0, 0)), odd);
}

#[test]
fn image_texture_samples_bytes() {
    let t = Texture::image(1, 1, vec![255u8, 0u8, 127u8]);
    let c = t.value(S / 2, S / 2, &v(0, 0, 0));
    assert_eq!(c, v(S, 0, 127 * S / 255));
}

#[test]
fn radiance_at_depth_zero_is_black() {
    let mut rng = new_rng(2);
    let shapes = small_scene();
    let world = BoundingVolumeHierarchy::new(&mut rng, shapes, 0, S);
    let ray = Ray::new(v(0, 0, 0), v(0, 0, -S), 0);
    let c = color(&mut rng, &ray, &Background::Sky, &world, 0, true);
    assert_eq!(c, v(0, 0, 0));
}

#[test]
fn radiance_miss_is_background() {
    let mut rng = new_rng(2);
    let shapes = vec![Shape::sphere(0, 0, -3 * S, S, Material::lambertian(S / 2, 0, 0))];
    let world = BoundingVolumeHierarchy::new(&mut rng, shapes, 0, S);
    let bg = Background::Fixed(v(S / 4, S / 2, S));
    let away = Ray::new(v(0, 0, 0), v(0, 0, S), 0);
    let c = color(&mut rng, &away, &bg, &world, 50, true);
    assert_eq!(c, v(S / 4, S / 2, S));
    assert_eq!(background_color(&bg, &away), v(S / 4, S / 2, S));
}

#[test]
fn gamma_byte_formula() {
    assert_eq!(gamma_byte(0), 0);
    assert_eq!(gamma_byte(S), 255); // sqrt(1) * 255.99, clamped
    assert_eq!(gamma_byte(S / 4), 127); // sqrt(0.25) * 255.99
}

#[test]
fn end_to_end_fixed_seed_image() {
    let mut rng = new_rng(7);
    // A single red diffuse sphere of radius one half at (0, 0, -1).
    let shapes = vec![Shape::sphere(0, 0, -S, S / 2, Material::lambertian(S / 2, S / 8, S / 8))];
    let world = BoundingVolumeHierarchy::new(&mut rng, shapes, 0, S);
    let camera = Camera::new(
        v(0, 0, 0),
        v(0, 0, -S),
        v(0, S, 0),
        S, // tan of 45 degrees: a 90 degree field of view
        S,
        0,
        S,
        0,
        S,
    );
    let bg = Background::Sky;
    let first = render_world(&bg, &world, &camera, 5, 5, 1, false, true, 123);
    let second = render_world(&bg, &world, &camera, 5, 5, 1, false, true, 123);
    assert_eq!(first, second); // identical output for a fixed seed
    let parallel = render_world(&bg, &world, &camera, 5, 5, 1, true, true, 123);
    assert_eq!(first, parallel); // the worker pool renders the same image
    assert_eq!(first.len(), 75);

    let center = 3 * (2 * 5 + 2);
    let corner = 0;
    let center_px = (first[center], first[center + 1], first[center + 2]);
    let corner_px = (first[corner], first[corner + 1], first[corner + 2]);
    // the center ray strikes the sphere, the corner ray sees the sky
    assert_ne!(center_px, corner_px);
    // the sky gradient never has more red than blue
    assert!(corner_px.0 <= corner_px.2);
    // the red sphere reflects more red than blue
    assert!(center_px.0 > center_px.2);
}

fn random_spheres(seed: u64) -> Vec<Shape> {
    let mut srng = new_rng(seed);
    let mut shapes = Vec::new();
    for _ in 0..40 {
        let x = 8 * (rng_unit(&mut srng) - S / 2);
        let y = 8 * (rng_unit(&mut srng) - S / 2);
        let z = -2 * S - 8 * rng_unit(&mut srng);
        let r = S / 4 + rng_unit(&mut srng) / 2;
        shapes.push(Shape::sphere(x, y, z, r, Material::lambertian(S / 2, S / 2, S / 2)));
    }
    shapes
}

#[test]
fn bvh_matches_scan_on_random_spheres() {
    let shapes = random_spheres(31);
    let probe = random_spheres(31);
    let mut rng = new_rng(77);
    let world = BoundingVolumeHierarchy::new(&mut rng, shapes, 0, S);
    let mut srng = new_rng(32);
    for _ in 0..300 {
        let dx = rng_unit(&mut srng) - S / 2;
        let dy = rng_unit(&mut srng) - S / 2;
        let ray = Ray::new(v(0, 0, 0), v(dx, dy, -S), 0);
        let tree = world.hit(&ray, 66, T_LIMIT);
        let scan = tracer::hittable::hit(&probe, &ray, 66, T_LIMIT);
        assert_eq!(tree.is_some(), scan.is_some());
        if let (Some(a), Some(b)) = (tree, scan) {
            assert_eq!(a.1.t(), b.1.t());
            assert_eq!(a.0, b.0);
        }
    }
}

#[test]
fn total_internal_reflection_forces_a_mirror() {
    // Leaving glass at a grazing angle: ratio * sin exceeds one, so the
    // scattered direction must be the exact reflection every time.
    let m = Material::dielectric(3 * S / 2);
    let d = v(S, -S / 8, 0);
    let ray = Ray::new(v(0, 0, 0), d, 0);
    // leaving the surface: not front facing, outward normal points down
    let hit = Hit::new(S, 0, 0, v(S, -S / 8, 0), &ray, v(0, -S, 0));
    assert!(!hit.is_front_facing());
    let expected = reflect(&ray.direction().unit(), hit.normal());
    for seed in 0..16 {
        let mut rng = new_rng(seed);
        let resp = m.scatter(&mut rng, &ray, &hit).unwrap();
        assert_eq!(*resp.scattered().direction(), expected);
    }
}

#[test]
fn sky_gradient_exact_values() {
    // A level ray sits halfway up the gradient.
    let level = Ray::new(v(0, 0, 0), v(0, 0, -S), 0);
    let c = background_color(&Background::Sky, &level);
    assert_eq!(c, v(49152, 55705, 65536));
    // Straight up is the full sky color; straight down is white.
    let up = Ray::new(v(0, 0, 0), v(0, S, 0), 0);
    assert_eq!(background_color(&Background::Sky, &up), v(32768, 45875, 65536));
    let down = Ray::new(v(0, 0, 0), v(0, -S, 0), 0);
    assert_eq!(background_color(&Background::Sky, &down), v(65536, 65536, 65536));
}

#[test]
fn lambertian_scatters_from_the_hit_point() {
    let m = Material::lambertian(S / 2, S / 4, S / 8);
    let ray = Ray::new(v(0, 0, 0), v(0, 0, -S), 12345);
    let hit = Hit::new(S, S / 2, S / 2, v(0, 0, -S), &ray, v(0, 0, S));
    let mut rng = new_rng(8);
    let resp = m.scatter(&mut rng, &ray, &hit).unwrap();
    assert_eq!(resp.scattered().origin(), hit.p());
    assert_eq!(resp.scattered().time(), 12345);
    assert_eq!(*resp.attenuation(), v(S / 2, S / 4, S / 8));
}

#[test]
fn generators_are_seeded_and_in_range() {
    let mut a = new_rng(99);
    let mut b = new_rng(99);
    for _ in 0..100 {
        let x = rng_unit(&mut a);
        let y = rng_unit(&mut b);
        assert_eq!(x, y);
        assert!((0..S).contains(&x));
        assert!(rng_axis(&mut a) < 3);
        let _ = rng_axis(&mut b);
    }
}

#[test]
fn config_defaults_and_getters() {
    assert_eq!(RendererConfig::default_screen_width(), 200);
    assert_eq!(RendererConfig::default_screen_height(), 100);
    assert_eq!(RendererConfig::default_antialias_iterations(), 100);
    assert_eq!(OutputConfig::default_output_path(), "./resources/output.ppm");
    assert_eq!(WorldConfig::default_max_objects(), 10);
    assert!(matches!(WorldConfig::default(), WorldConfig::Basic));
    let rc = RendererConfig {
        screen_width: 64,
        screen_height: 32,
        antialias_iterations: 4,
        render_parallel: true,
        use_bounding_volume: false,
    };
    assert_eq!(rc.screen_width(), 64);
    assert_eq!(rc.screen_height(), 32);
    assert_eq!(rc.antialias_iterations(), 4);
    assert!(rc.render_parallel());
    assert!(!rc.use_bounding_volume());
    assert_eq!(clamp(5, 1, 3), 3);
    assert_eq!(clamp(0, 1, 3), 1);
    assert_eq!(clamp(2, 1, 3), 2);
}
