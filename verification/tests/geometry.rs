use tikus::math::{Vec3, point3, near_zero};
use tikus::fixed::FX_ONE;
use tikus::ray::Ray;
use tikus::sphere::Sphere;
use tikus::material::Material;
use tikus::hittable::Hittable;
use tikus::hittable_list::HittableList;
use tikus::color::color;
use tikus::constants::INFINITY;

fn gray() -> Material {
    Material::new_lambertian(color(FX_HALF_C, FX_HALF_C, FX_HALF_C))
}

const FX_HALF_C: i128 = 32768;

fn axis_ray() -> Ray {
    // From the origin, straight down the negative z axis, unit speed.
    Ray::new(point3(0, 0, 0), Vec3 { x: 0, y: 0, z: -FX_ONE })
}

#[test]
fn vec3_componentwise_arithmetic() {
    let a = Vec3 { x: FX_ONE, y: 2 * FX_ONE, z: 3 * FX_ONE };
    let b = Vec3 { x: 4 * FX_ONE, y: 5 * FX_ONE, z: 6 * FX_ONE };
    let s = a.add(&b);
    assert_eq!((s.x, s.y, s.z), (5 * FX_ONE, 7 * FX_ONE, 9 * FX_ONE));
    let d = b.sub(&a);
    assert_eq!((d.x, d.y, d.z), (3 * FX_ONE, 3 * FX_ONE, 3 * FX_ONE));
    let n = a.neg();
    assert_eq!((n.x, n.y, n.z), (-FX_ONE, -2 * FX_ONE, -3 * FX_ONE));
    assert_eq!(a.dot(&b), 32 * FX_ONE);
    assert_eq!(a.mag2(), 14 * FX_ONE);
}

#[test]
fn vec3_cross_of_axes() {
    let x = Vec3 { x: FX_ONE, y: 0, z: 0 };
    let y = Vec3 { x: 0, y: FX_ONE, z: 0 };
    let z = x.cross(&y);
    assert_eq!((z.x, z.y, z.z), (0, 0, FX_ONE));
    let back = y.cross(&x);
    assert_eq!((back.x, back.y, back.z), (0, 0, -FX_ONE));
}

#[test]
fn vec3_norm_of_three_four_five() {
    let v = Vec3 { x: 3 * FX_ONE, y: 4 * FX_ONE, z: 0 };
    assert_eq!(v.mag(), 5 * FX_ONE);
    let u = v.norm();
    // 0.6 and 0.8, truncated: 39321.6 and 52428.8
    assert_eq!((u.x, u.y, u.z), (39321, 52428, 0));
}

#[test]
fn vec3_reflect_mirrors_about_normal() {
    let d = Vec3 { x: FX_ONE, y: -FX_ONE, z: 0 };
    let n = Vec3 { x: 0, y: FX_ONE, z: 0 };
    let r = d.reflect(&n);
    assert_eq!((r.x, r.y, r.z), (FX_ONE, FX_ONE, 0));
}

#[test]
fn near_zero_threshold() {
    assert!(near_zero(Vec3 { x: 0, y: 0, z: 0 }));
    assert!(near_zero(Vec3 { x: 255, y: -255, z: 1 }));
    assert!(!near_zero(Vec3 { x: 256, y: 0, z: 0 }));
}

#[test]
fn ray_at_walks_the_parameter() {
    let r = Ray::new(point3(FX_ONE, 0, 0), Vec3 { x: 0, y: 2 * FX_ONE, z: 0 });
    let p = r.at(FX_ONE / 2);
    assert_eq!((p.x, p.y, p.z), (FX_ONE, FX_ONE, 0));
    assert_eq!(r.origin().x, FX_ONE);
    assert_eq!(r.direction().y, 2 * FX_ONE);
}

#[test]
fn sphere_hit_on_axis_exact_record() {
    let s = Sphere {
        center: point3(0, 0, -2 * FX_ONE),
        radius: FX_ONE,
        mat: gray(),
    };
    let rec = s.hit(&axis_ray(), 66, INFINITY).expect("must hit");
    // Nearest intersection at t = 1, on the front of the sphere.
    assert_eq!(rec.t, FX_ONE);
    assert_eq!((rec.point.x, rec.point.y, rec.point.z), (0, 0, -FX_ONE));
    assert_eq!((rec.normal.x, rec.normal.y, rec.normal.z), (0, 0, FX_ONE));
    assert!(rec.front_face);
}

#[test]
fn sphere_hit_zero_radius_reports_none() {
    let s = Sphere {
        center: point3(0, 0, -2 * FX_ONE),
        radius: 0,
        mat: gray(),
    };
    assert!(s.hit(&axis_ray(), 66, INFINITY).is_none());
}

#[test]
fn sphere_hit_picks_nearer_of_two_roots() {
    // Both roots (t = 1 and t = 3) are positive and in the window; the
    // nearer one must win.
    let s = Sphere {
        center: point3(0, 0, -2 * FX_ONE),
        radius: FX_ONE,
        mat: gray(),
    };
    let rec = s.hit(&axis_ray(), 66, INFINITY).expect("must hit");
    assert_eq!(rec.t, FX_ONE);
    // Excluding the nearer root from the window exposes the farther one.
    let rec2 = s.hit(&axis_ray(), 2 * FX_ONE, INFINITY).expect("must hit");
    assert_eq!(rec2.t, 3 * FX_ONE);
}

#[test]
fn sphere_hit_miss_reports_none() {
    let s = Sphere {
        center: point3(10 * FX_ONE, 0, -2 * FX_ONE),
        radius: FX_ONE,
        mat: gray(),
    };
    assert!(s.hit(&axis_ray(), 66, INFINITY).is_none());
}

#[test]
fn scene_closest_hit_is_order_independent() {
    let a = Sphere { center: point3(0, 0, -2 * FX_ONE), radius: FX_ONE, mat: gray() };
    let b = Sphere { center: point3(0, 0, -6 * FX_ONE), radius: FX_ONE, mat: gray() };
    let c = Sphere { center: point3(4 * FX_ONE, 0, -2 * FX_ONE), radius: FX_ONE, mat: gray() };
    let orders: [[Sphere; 3]; 3] = [[a, b, c], [c, b, a], [b, a, c]];
    let mut results = Vec::new();
    for order in orders.iter() {
        let mut world = HittableList::new();
        for s in order.iter() {
            world.add(*s);
        }
        let rec = world.hit(&axis_ray(), 66, INFINITY).expect("must hit");
        results.push((rec.t, rec.point.x, rec.point.y, rec.point.z));
    }
    assert_eq!(results[0], results[1]);
    assert_eq!(results[0], results[2]);
    // And it is the nearest sphere's parameter.
    assert_eq!(results[0].0, FX_ONE);
}

#[test]
fn scene_empty_reports_none() {
    let world = HittableList::new();
    assert!(world.hit(&axis_ray(), 66, INFINITY).is_none());
}

#[test]
fn scene_clear_forgets_spheres() {
    let mut world = HittableList::new();
    world.add(Sphere { center: point3(0, 0, -2 * FX_ONE), radius: FX_ONE, mat: gray() });
    assert!(world.hit(&axis_ray(), 66, INFINITY).is_some());
    world.clear();
    assert!(world.hit(&axis_ray(), 66, INFINITY).is_none());
}
