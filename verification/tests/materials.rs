use tikus::math::{Vec3, point3};
use tikus::fixed::FX_ONE;
use tikus::ray::Ray;
use tikus::hittable::Hittable;
use tikus::sphere::Sphere;
use tikus::material::Material;
use tikus::color::color;
use tikus::constants::INFINITY;
use tikus::rng::rng_from_seed;

fn axis_ray() -> Ray {
    Ray::new(point3(0, 0, 0), Vec3 { x: 0, y: 0, z: -FX_ONE })
}

fn hit_axis_sphere(mat: Material) -> (Ray, tikus::hittable::HitRecord) {
    let s = Sphere {
        center: point3(0, 0, -2 * FX_ONE),
        radius: FX_ONE,
        mat,
    };
    let ray = axis_ray();
    let rec = s.hit(&ray, 66, INFINITY).expect("must hit");
    (ray, rec)
}

#[test]
fn lambertian_always_scatters_with_albedo() {
    let albedo = color(13107, 26214, 39321);
    let (ray, rec) = hit_axis_sphere(Material::new_lambertian(albedo));
    let mut rng = rng_from_seed(7);
    for _ in 0..32 {
        let sc = rec.mat.scatter(&mut rng, &ray, &rec).expect("never absorbs");
        assert_eq!(sc.attenuation, albedo);
        assert_eq!(sc.ray.origin(), rec.point);
        // The direction leans along the normal: within two units of it.
        let d = sc.ray.direction();
        assert!(d.x.abs() <= 4 * FX_ONE && d.y.abs() <= 4 * FX_ONE && d.z.abs() <= 4 * FX_ONE);
    }
}

#[test]
fn metal_zero_fuzz_is_exact_mirror() {
    let albedo = color(52428, 52428, 52428);
    let (ray, rec) = hit_axis_sphere(Material::new_metal(albedo, 0));
    let mut rng = rng_from_seed(11);
    for _ in 0..16 {
        let sc = rec.mat.scatter(&mut rng, &ray, &rec).expect("head-on reflects");
        // The mirror of (0,0,-1) about the normal (0,0,1) is (0,0,1),
        // normalized: exactly (0,0,1). No fuzz term may perturb it.
        let d = sc.ray.direction();
        assert_eq!((d.x, d.y, d.z), (0, 0, FX_ONE));
        assert_eq!(sc.attenuation, albedo);
    }
}

#[test]
fn metal_fuzz_stays_above_surface_or_absorbs() {
    let albedo = color(52428, 52428, 52428);
    let (ray, rec) = hit_axis_sphere(Material::new_metal(albedo, FX_ONE));
    let mut rng = rng_from_seed(13);
    let mut scattered = 0u32;
    for _ in 0..64 {
        if let Some(sc) = rec.mat.scatter(&mut rng, &ray, &rec) {
            scattered += 1;
            // Accepted directions point away from the surface.
            let d = sc.ray.direction();
            assert!(d.dot(&rec.normal) > 0);
        }
    }
    assert!(scattered > 0);
}

#[test]
fn dielectric_unit_index_passes_straight_through() {
    // With a refraction index of one there is no optical boundary: the
    // head-on ray continues in its own direction, on every draw.
    let (ray, rec) = hit_axis_sphere(Material::new_dielectric(FX_ONE));
    let mut rng = rng_from_seed(17);
    for _ in 0..32 {
        let sc = rec.mat.scatter(&mut rng, &ray, &rec).expect("never absorbs");
        let d = sc.ray.direction();
        assert_eq!((d.x, d.y, d.z), (0, 0, -FX_ONE));
        // Attenuation is the unit color: fully transparent.
        assert_eq!(sc.attenuation, color(FX_ONE, FX_ONE, FX_ONE));
    }
}

#[test]
fn dielectric_glass_head_on_mostly_refracts() {
    // Glass (index 1.5), head-on: reflectance is Schlick's r0 = 0.04, so
    // most draws refract straight on; every outcome is one of the two
    // head-on directions.
    let (ray, rec) = hit_axis_sphere(Material::new_dielectric(98304));
    let mut rng = rng_from_seed(19);
    let mut refracted = 0u32;
    let mut reflected = 0u32;
    for _ in 0..128 {
        let sc = rec.mat.scatter(&mut rng, &ray, &rec).expect("never absorbs");
        let d = sc.ray.direction();
        assert_eq!((d.x, d.y), (0, 0));
        if d.z < 0 {
            refracted += 1;
        } else {
            reflected += 1;
        }
    }
    assert!(refracted > reflected);
}
