use tikus::camera::{Camera, background, get_ray, initialize, ray_color, render};
use tikus::color::{color, format_color};
use tikus::constants::PI;
use tikus::fixed::FX_ONE;
use tikus::hittable_list::HittableList;
use tikus::material::Material;
use tikus::math::{Vec3, point3};
use tikus::ray::Ray;
use tikus::rng::rng_from_seed;
use tikus::sphere::Sphere;

fn gray() -> Material {
    Material::new_lambertian(color(32768, 32768, 32768))
}

fn small_scene() -> HittableList {
    let mut world = HittableList::new();
    world.add(Sphere { center: point3(0, 0, -2 * FX_ONE), radius: FX_ONE, mat: gray() });
    world
}

/// The two-sphere scene: one small sphere ahead, one large ground sphere.
fn two_sphere_scene() -> HittableList {
    let mut world = HittableList::new();
    world.add(Sphere {
        center: point3(0, 0, -FX_ONE),
        radius: FX_ONE / 2,
        mat: gray(),
    });
    world.add(Sphere {
        // y = -100.5, radius 100
        center: point3(0, -6586368, -FX_ONE),
        radius: 6553600,
        mat: gray(),
    });
    world
}

fn test_camera(width: usize, spp: usize, depth: i32) -> Camera {
    Camera {
        // 16:9
        aspect_ratio: 116508,
        img_width: width,
        samples_per_pixel: spp,
        max_depth: depth,
        // 90 degrees: the viewport is two units tall at focus distance one.
        vfov: PI / 2,
        lookfrom: point3(0, 0, 0),
        lookat: point3(0, 0, -FX_ONE),
        vup: Vec3 { x: 0, y: FX_ONE, z: 0 },
        defocus_angle: 0,
        focus_dist: FX_ONE,
    }
}

#[test]
fn depth_zero_returns_exact_black() {
    let world = two_sphere_scene();
    let mut rng = rng_from_seed(3);
    let rays = [
        Ray::new(point3(0, 0, 0), Vec3 { x: 0, y: 0, z: -FX_ONE }),
        Ray::new(point3(0, 0, 0), Vec3 { x: 0, y: FX_ONE, z: 0 }),
        Ray::new(point3(FX_ONE, FX_ONE, 0), Vec3 { x: 100, y: -200, z: -FX_ONE }),
    ];
    for ray in rays.iter() {
        let c = ray_color(&mut rng, 0, ray, &world);
        assert_eq!((c.x, c.y, c.z), (0, 0, 0));
        let c2 = ray_color(&mut rng, -3, ray, &world);
        assert_eq!((c2.x, c2.y, c2.z), (0, 0, 0));
    }
}

#[test]
fn missing_rays_lie_on_the_gradient_whatever_the_scene() {
    // A ray pointing straight up misses everything in this scene; its color
    // is the gradient value, independent of scene content.
    let up = Ray::new(point3(0, 0, 0), Vec3 { x: 0, y: FX_ONE, z: 0 });
    let expected = background(&up);
    // Straight up: fully sky blue.
    assert_eq!((expected.x, expected.y, expected.z), (32768, 45875, 65536));
    let mut rng = rng_from_seed(5);
    let scenes = [HittableList::new(), small_scene(), two_sphere_scene()];
    for world in scenes.iter() {
        let c = ray_color(&mut rng, 8, &up, world);
        assert_eq!((c.x, c.y, c.z), (expected.x, expected.y, expected.z));
    }
}

#[test]
fn gradient_endpoints() {
    // Straight down: fully white.
    let down = Ray::new(point3(0, 0, 0), Vec3 { x: 0, y: -FX_ONE, z: 0 });
    let c = background(&down);
    assert_eq!((c.x, c.y, c.z), (FX_ONE, FX_ONE, FX_ONE));
    // Horizontal: the exact midpoint of the two colors.
    let level = Ray::new(point3(0, 0, 0), Vec3 { x: 0, y: 0, z: -FX_ONE });
    let m = background(&level);
    assert_eq!((m.x, m.y, m.z), (49152, 55705, 65536));
}

fn channels(ppm: &str) -> Vec<f64> {
    let mut out = Vec::new();
    for line in ppm.lines().skip(3) {
        for tok in line.split(' ') {
            out.push(tok.parse::<f64>().unwrap());
        }
    }
    out
}

fn rms_diff(a: &[f64], b: &[f64]) -> f64 {
    assert_eq!(a.len(), b.len());
    let sum: f64 = a.iter().zip(b.iter()).map(|(x, y)| (x - y) * (x - y)).sum();
    (sum / a.len() as f64).sqrt()
}

#[test]
fn sample_count_convergence() {
    // A Lambertian sphere lit only by the background: each pixel's Monte
    // Carlo estimate settles as the sample count grows. Against the
    // 256-sample reference, the per-pixel noise of the 16-sample image is
    // well below that of the 1-sample image (the standard deviation of the
    // mean shrinks like one over the square root of the sample count).
    let world = two_sphere_scene();
    let c1 = channels(&render(&test_camera(16, 1, 8), &world).unwrap());
    let c16 = channels(&render(&test_camera(16, 16, 8), &world).unwrap());
    let c256 = channels(&render(&test_camera(16, 256, 8), &world).unwrap());
    let noise1 = rms_diff(&c1, &c256);
    let noise16 = rms_diff(&c16, &c256);
    assert!(noise1 > 0.0, "one-sample estimates are noisy");
    assert!(noise16 < 0.7 * noise1, "noise: {} vs {}", noise16, noise1);
    // All images describe a scene lit between black and full sky.
    for c in [&c1, &c16, &c256] {
        let mean: f64 = c.iter().sum::<f64>() / c.len() as f64;
        assert!(0.0 < mean && mean < 255.0);
    }
}

#[test]
fn render_shape_and_header() {
    let world = small_scene();
    let out = render(&test_camera(20, 1, 4), &world).unwrap();
    let lines: Vec<&str> = out.lines().collect();
    assert_eq!(lines[0], "P3");
    // 20 wide, 20 * 9 / 16 = 11 tall
    assert_eq!(lines[1], "20 11");
    assert_eq!(lines[2], "255");
    assert_eq!(lines.len(), 3 + 20 * 11);
    for line in lines.iter().skip(3) {
        let mut parts: u32 = 0;
        for tok in line.split(' ') {
            let v: i32 = tok.parse().unwrap();
            assert!((0..=255).contains(&v));
            parts += 1;
        }
        assert_eq!(parts, 3);
    }
}

#[test]
fn end_to_end_corner_matches_gradient_center_hits_sphere() {
    let camera = test_camera(400, 1, 1);
    let world = two_sphere_scene();
    let out = render(&camera, &world).unwrap();
    let lines: Vec<&str> = out.lines().collect();
    assert_eq!(lines[1], "400 225");

    let v_data = initialize(&camera).unwrap();
    assert_eq!(v_data.img_height, 225);

    // Replay the renderer's deterministic per-pixel stream for the corner
    // pixel (0, 0): its single sample misses everything, so its color is
    // exactly the background of its own jittered ray.
    let mut rng = rng_from_seed(0 ^ 1234);
    let ray = get_ray(&mut rng, &v_data, 0, 0);
    let expected = format_color(background(&ray));
    assert_eq!(lines[3], expected.as_str());

    // The same for the other top corner.
    let i_last: usize = 399;
    let seed = (0 * 400 + i_last) as u64 ^ 1234;
    let mut rng2 = rng_from_seed(seed);
    let ray2 = get_ray(&mut rng2, &v_data, i_last, 0);
    let expected2 = format_color(background(&ray2));
    assert_eq!(lines[3 + 399], expected2.as_str());

    // The center pixel hits the small sphere: it does not equal the
    // background of its own ray.
    let j_mid: usize = 112;
    let i_mid: usize = 200;
    let seed_mid = (j_mid * 400 + i_mid) as u64 ^ 1234;
    let mut rng3 = rng_from_seed(seed_mid);
    let ray3 = get_ray(&mut rng3, &v_data, i_mid, j_mid);
    let gradient_line = format_color(background(&ray3));
    let rendered_line = lines[3 + j_mid * 400 + i_mid];
    assert_ne!(rendered_line, gradient_line.as_str());
}

#[test]
fn render_rejects_degenerate_camera() {
    // Looking at the camera's own position leaves no view direction.
    let mut camera = test_camera(20, 1, 4);
    camera.lookat = camera.lookfrom;
    assert!(render(&camera, &small_scene()).is_err());
}
