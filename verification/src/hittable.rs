//! The result record of a successful ray-primitive intersection.

use vstd::prelude::*;
use crate::material::Material;
use crate::math::{Point3, Vec3};
use crate::ray::{Ray, RAY_ORIGIN_MAX};
use crate::constants::INFINITY;

verus! {

/// Anything a ray can intersect within a parameter window.
///
/// `hit_spec` is the implementor's mathematical account of its intersection
/// test; `hit` computes exactly that. A reported record is well-formed, lies
/// in the half-open window, and sits on the ray at its parameter.
pub trait Hittable {
    spec fn hit_wf(&self) -> bool;

    spec fn hit_spec(&self, ray: Ray, tmin: int, tmax: int) -> Option<HitRecord>;

    fn hit(&self, ray: &Ray, tmin: i128, tmax: i128) -> (r: Option<HitRecord>)
        requires
            self.hit_wf(),
            ray.wf(),
            -INFINITY <= tmin <= INFINITY,
            -INFINITY <= tmax <= INFINITY,
        ensures
            r == self.hit_spec(*ray, tmin as int, tmax as int),
            r matches Some(rec) ==> rec.wf() && tmin <= rec.t < tmax
                && ray.dir.mag2_spec() >= 1
                && rec.point == ray.at_spec(rec.t as int);
}

/// 2^17: the magnitude cap on stored surface-normal components (twice the
/// fixed-point unit; true normals have roughly unit length).
pub const NORMAL_MAX: i128 = 131072;

#[derive(Clone, Copy, Debug, PartialEq, Eq, Structural)]
pub struct HitRecord {
    pub point: Point3,
    pub t: i128,
    pub normal: Vec3,
    pub mat: Material,
    pub front_face: bool,
}

impl HitRecord {
    /// Records handed out by intersection tests satisfy this: the hit point
    /// is a valid ray origin, the normal is near unit length, the material is
    /// valid, and the parameter lies within the horizon.
    pub open spec fn wf(self) -> bool {
        &&& self.point.bounded(RAY_ORIGIN_MAX as int)
        &&& self.normal.bounded(NORMAL_MAX as int)
        &&& self.mat.wf()
        &&& -INFINITY <= self.t <= INFINITY
    }

    /// Whether the ray hits the outside of the surface: its direction opposes
    /// the outward normal.
    pub open spec fn front_face_spec(ray: Ray, outward_normal: Vec3) -> bool {
        ray.dir.dot_spec(outward_normal) < 0
    }

    /// The stored normal: the outward normal, oriented against the ray.
    pub open spec fn oriented_normal_spec(ray: Ray, outward_normal: Vec3) -> Vec3 {
        if Self::front_face_spec(ray, outward_normal) {
            outward_normal
        } else {
            outward_normal.neg_spec()
        }
    }

    pub open spec fn with_face_normal_spec(
        point: Point3,
        t: int,
        mat: Material,
        ray: Ray,
        outward_normal: Vec3,
    ) -> HitRecord {
        HitRecord {
            point,
            t: t as i128,
            normal: Self::oriented_normal_spec(ray, outward_normal),
            mat,
            front_face: Self::front_face_spec(ray, outward_normal),
        }
    }

    pub fn with_face_normal(
        point: Point3,
        t: i128,
        mat: &Material,
        ray: &Ray,
        outward_normal: Vec3,
    ) -> (r: HitRecord)
        requires
            ray.wf(),
            outward_normal.bounded(NORMAL_MAX as int),
        ensures
            r == Self::with_face_normal_spec(point, t as int, *mat, *ray, outward_normal),
    {
        let (front_face, normal) = Self::calculate_face_normal(ray, outward_normal);
        HitRecord { point, t, normal, mat: *mat, front_face }
    }

    fn calculate_face_normal(ray: &Ray, outward_normal: Vec3) -> (r: (bool, Vec3))
        requires
            ray.wf(),
            outward_normal.bounded(NORMAL_MAX as int),
        ensures
            r.0 == Self::front_face_spec(*ray, outward_normal),
            r.1 == Self::oriented_normal_spec(*ray, outward_normal),
    {
        let front_face = ray.direction().dot(&outward_normal) < 0;
        let normal = if front_face {
            outward_normal
        } else {
            outward_normal.neg()
        };
        (front_face, normal)
    }
}

} // verus!
