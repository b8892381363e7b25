//! The sphere primitive and its intersection test.

use vstd::prelude::*;
use crate::hittable::{HitRecord, Hittable, NORMAL_MAX};
use crate::material::Material;
use crate::math::{Point3, Vec3, lemma_dot_le, lemma_mag2_le, lemma_mag2_nonneg,
    lemma_fx_mul_le};
use crate::ray::{Ray, RAY_ORIGIN_MAX};
use crate::constants::INFINITY;
use crate::fixed::{fx_mul, fx_div, sqrt_fx, fx_mul_e, fx_div_e, sqrt_fx_e,
    lemma_isqrt_spec, lemma_isqrt_le, lemma_tdiv_le, lemma_tdiv_mono};

verus! {

/// 2^36: the magnitude cap on sphere-center components and radii.
pub const SPHERE_MAX: i128 = 0x1000000000;

#[derive(Clone, Copy, Debug, PartialEq, Eq, Structural)]
pub struct Sphere {
    pub center: Point3,
    pub radius: i128,
    pub mat: Material,
}

impl Sphere {
    pub open spec fn wf(self) -> bool {
        &&& self.center.bounded(SPHERE_MAX as int)
        &&& 0 <= self.radius <= SPHERE_MAX
        &&& self.mat.wf()
    }

    /// The outward normal at a surface point: `(p - center) / radius`.
    pub open spec fn outward_normal_spec(self, p: Point3) -> Vec3 {
        Vec3 {
            x: fx_div(p.x - self.center.x, self.radius as int) as i128,
            y: fx_div(p.y - self.center.y, self.radius as int) as i128,
            z: fx_div(p.z - self.center.z, self.radius as int) as i128,
        }
    }

    /// The record for a hit at parameter `root`, if the hit point and normal
    /// stay representable (genuine intersections of well-formed scenes do).
    pub open spec fn record_spec(self, ray: Ray, root: int) -> Option<HitRecord> {
        let p = ray.at_spec(root);
        let outward = self.outward_normal_spec(p);
        if p.bounded(RAY_ORIGIN_MAX as int) && outward.bounded(NORMAL_MAX as int) {
            Some(HitRecord::with_face_normal_spec(p, root, self.mat, ray, outward))
        } else {
            None
        }
    }

}

impl Hittable for Sphere {
    open spec fn hit_wf(&self) -> bool {
        self.wf()
    }

    /// The quadratic `|origin + t dir - center|^2 = radius^2` in half-angle
    /// form, solved over fixed-point numbers; roots are accepted against the
    /// half-open window `[tmin, tmax)`, nearer root first. A sphere of zero
    /// radius reports nothing.
    open spec fn hit_spec(&self, ray: Ray, tmin: int, tmax: int) -> Option<HitRecord> {
        if self.radius <= 0 {
            None
        } else {
            let a = ray.dir.mag2_spec();
            if a < 1 {
                None
            } else {
                let oc = self.center.sub_spec(ray.orig);
                let h = ray.dir.dot_spec(oc);
                let c = oc.mag2_spec() - fx_mul(self.radius as int, self.radius as int);
                let disc = fx_mul(h, h) - fx_mul(a, c);
                if disc < 0 {
                    None
                } else {
                    let sqrtd = sqrt_fx(disc);
                    let root1 = fx_div(h - sqrtd, a);
                    let root2 = fx_div(h + sqrtd, a);
                    if tmin <= root1 < tmax {
                        self.record_spec(ray, root1)
                    } else if tmin <= root2 < tmax {
                        self.record_spec(ray, root2)
                    } else {
                        None
                    }
                }
            }
        }
    }

    fn hit(&self, ray: &Ray, tmin: i128, tmax: i128) -> (r: Option<HitRecord>) {
        if self.radius <= 0 {
            return None;
        }
        let a = ray.direction().mag2();
        proof {
            lemma_mag2_le(ray.dir, crate::ray::RAY_DIR_MAX as int);
        }
        if a < 1 {
            return None;
        }
        let oc = self.center.sub(&ray.origin());
        proof {
            lemma_dot_le(ray.dir, oc, crate::ray::RAY_DIR_MAX as int, 0x4000000000int);
            lemma_mag2_le(oc, 0x4000000000int);
            lemma_fx_mul_le(self.radius as int, self.radius as int,
                SPHERE_MAX as int, SPHERE_MAX as int);
        }
        let h = ray.direction().dot(&oc);
        let c = oc.mag2() - fx_mul_e(self.radius, self.radius);
        proof {
            lemma_fx_mul_le(h as int, h as int, 0x40000000000000int, 0x40000000000000int);
            lemma_fx_mul_le(a as int, c as int, 0x10000000000000int, 0x4000000000000000int);
        }
        let discriminant = fx_mul_e(h, h) - fx_mul_e(a, c);
        if discriminant < 0 {
            return None;
        }
        proof {
            lemma_isqrt_spec(discriminant as int * 65536);
            lemma_isqrt_le(discriminant as int * 65536, 0x400000000000000int);
        }
        let sqrtd = sqrt_fx_e(discriminant);
        let mut root = fx_div_e(h - sqrtd, a);
        if !(tmin <= root && root < tmax) {
            root = fx_div_e(h + sqrtd, a);
            if !(tmin <= root && root < tmax) {
                return None;
            }
        }
        let p = ray.at(root);
        if !(-RAY_ORIGIN_MAX <= p.x && p.x <= RAY_ORIGIN_MAX
            && -RAY_ORIGIN_MAX <= p.y && p.y <= RAY_ORIGIN_MAX
            && -RAY_ORIGIN_MAX <= p.z && p.z <= RAY_ORIGIN_MAX)
        {
            return None;
        }
        let outward = Vec3 {
            x: fx_div_e(p.x - self.center.x, self.radius),
            y: fx_div_e(p.y - self.center.y, self.radius),
            z: fx_div_e(p.z - self.center.z, self.radius),
        };
        if !(-NORMAL_MAX <= outward.x && outward.x <= NORMAL_MAX
            && -NORMAL_MAX <= outward.y && outward.y <= NORMAL_MAX
            && -NORMAL_MAX <= outward.z && outward.z <= NORMAL_MAX)
        {
            return None;
        }
        let record = HitRecord::with_face_normal(p, root, &self.mat, ray, outward);
        Some(record)
    }
}

/// A sphere without extent is never hit.
pub proof fn lemma_zero_radius_never_hits(s: Sphere, ray: Ray, tmin: int, tmax: int)
    requires
        s.radius <= 0,
    ensures
        s.hit_spec(ray, tmin, tmax) is None,
{
}

/// A reported hit lies in the window, at a point determined by the ray and
/// the hit parameter alone.
pub proof fn lemma_hit_some_props(s: Sphere, ray: Ray, tmin: int, tmax: int)
    requires
        -INFINITY <= tmin <= INFINITY,
        -INFINITY <= tmax <= INFINITY,
    ensures
        s.hit_spec(ray, tmin, tmax) matches Some(rec) ==> tmin <= rec.t < tmax
            && rec.point == ray.at_spec(rec.t as int)
            && rec.mat == s.mat,
{
}

/// Shrinking the upper end of the window to `b` keeps a hit that is nearer
/// than `b` unchanged and discards everything else.
pub proof fn lemma_hit_window(s: Sphere, ray: Ray, tmin: int, tmax: int, b: int)
    requires
        -INFINITY <= tmin <= INFINITY,
        -INFINITY <= tmax <= INFINITY,
        -INFINITY <= b <= tmax,
    ensures
        s.hit_spec(ray, tmin, tmax) is None ==> s.hit_spec(ray, tmin, b) is None,
        (s.hit_spec(ray, tmin, tmax) matches Some(rec) && rec.t < b)
            ==> s.hit_spec(ray, tmin, b) == s.hit_spec(ray, tmin, tmax),
        (s.hit_spec(ray, tmin, tmax) matches Some(rec) && rec.t >= b)
            ==> s.hit_spec(ray, tmin, b) is None,
{
    if s.radius <= 0 {
    } else {
        let a = ray.dir.mag2_spec();
        if a < 1 {
        } else {
            let oc = s.center.sub_spec(ray.orig);
            let h = ray.dir.dot_spec(oc);
            let c = oc.mag2_spec() - fx_mul(s.radius as int, s.radius as int);
            let disc = fx_mul(h, h) - fx_mul(a, c);
            if disc < 0 {
            } else {
                let sqrtd = sqrt_fx(disc);
                lemma_isqrt_spec(disc * 65536);
                assert(disc * 65536 >= 0) by (nonlinear_arith)
                    requires disc >= 0;
                assert(sqrtd >= 0);
                let root1 = fx_div(h - sqrtd, a);
                let root2 = fx_div(h + sqrtd, a);
                lemma_tdiv_mono((h - sqrtd) * 65536, (h + sqrtd) * 65536, a);
                assert((h - sqrtd) * 65536 <= (h + sqrtd) * 65536) by (nonlinear_arith)
                    requires sqrtd >= 0;
                assert(root1 <= root2);
                lemma_hit_some_props(s, ray, tmin, tmax);
                lemma_hit_some_props(s, ray, tmin, b);
            }
        }
    }
}

/// The nearer root wins: whenever the discriminant is nonnegative and the
/// nearer root lies in the window, the hit is reported at the nearer root,
/// which never exceeds the farther one. The preconditions are exactly the
/// intersection test's own admission gates — a sphere of radius below one
/// grain or a ray whose direction's squared length rounds to zero reports
/// no hit at all, so no root exists to speak of.
pub proof fn lemma_hit_picks_nearer_root(s: Sphere, ray: Ray, tmin: int, tmax: int)
    requires
        s.radius >= 1,
        ray.dir.mag2_spec() >= 1,
        ({
            let oc = s.center.sub_spec(ray.orig);
            let h = ray.dir.dot_spec(oc);
            let c = oc.mag2_spec() - fx_mul(s.radius as int, s.radius as int);
            fx_mul(h, h) - fx_mul(ray.dir.mag2_spec(), c) >= 0
        }),
        ({
            let oc = s.center.sub_spec(ray.orig);
            let h = ray.dir.dot_spec(oc);
            let c = oc.mag2_spec() - fx_mul(s.radius as int, s.radius as int);
            let disc = fx_mul(h, h) - fx_mul(ray.dir.mag2_spec(), c);
            tmin <= fx_div(h - sqrt_fx(disc), ray.dir.mag2_spec()) < tmax
        }),
    ensures
        ({
            let oc = s.center.sub_spec(ray.orig);
            let h = ray.dir.dot_spec(oc);
            let c = oc.mag2_spec() - fx_mul(s.radius as int, s.radius as int);
            let disc = fx_mul(h, h) - fx_mul(ray.dir.mag2_spec(), c);
            let root1 = fx_div(h - sqrt_fx(disc), ray.dir.mag2_spec());
            let root2 = fx_div(h + sqrt_fx(disc), ray.dir.mag2_spec());
            s.hit_spec(ray, tmin, tmax) == s.record_spec(ray, root1) && root1 <= root2
        }),
{
    let a = ray.dir.mag2_spec();
    let oc = s.center.sub_spec(ray.orig);
    let h = ray.dir.dot_spec(oc);
    let c = oc.mag2_spec() - fx_mul(s.radius as int, s.radius as int);
    let disc = fx_mul(h, h) - fx_mul(a, c);
    lemma_isqrt_spec(disc * 65536);
    assert(disc * 65536 >= 0) by (nonlinear_arith)
        requires disc >= 0;
    lemma_tdiv_mono((h - sqrt_fx(disc)) * 65536, (h + sqrt_fx(disc)) * 65536, a);
}

} // verus!
