//! The scene: an ordered collection of spheres, searched for the closest hit.

use vstd::prelude::*;
use crate::hittable::{HitRecord, Hittable};
use crate::ray::Ray;
use crate::sphere::Sphere;
use crate::constants::INFINITY;

verus! {

pub struct HittableList {
    pub objects: Vec<Sphere>,
}

/// The parameter at which a single sphere reports a hit over the full
/// window, if it reports one.
pub open spec fn best_t(s: Sphere, ray: Ray, tmin: int, tmax: int) -> Option<int> {
    match s.hit_spec(ray, tmin, tmax) {
        Some(rec) => Some(rec.t as int),
        None => None,
    }
}

/// The record found by scanning the spheres left to right, each tested
/// against a window shrunk to the closest hit so far.
pub open spec fn first_hit(objs: Seq<Sphere>, ray: Ray, tmin: int, tmax: int)
    -> Option<HitRecord>
    decreases objs.len(),
{
    if objs.len() == 0 {
        None
    } else {
        let prev = first_hit(objs.drop_last(), ray, tmin, tmax);
        let closest = match prev {
            Some(rec) => rec.t as int,
            None => tmax,
        };
        match objs.last().hit_spec(ray, tmin, closest) {
            Some(rec) => Some(rec),
            None => prev,
        }
    }
}

impl HittableList {
    pub open spec fn wf(self) -> bool {
        forall|i: int|
            #![trigger self.objects@[i]]
            0 <= i < self.objects@.len() ==> self.objects@[i].wf()
    }

    pub fn new() -> (r: HittableList)
        ensures
            r.objects@.len() == 0,
            r.wf(),
    {
        HittableList { objects: Vec::new() }
    }

    pub fn clear(&mut self)
        ensures
            final(self).objects@.len() == 0,
            final(self).wf(),
    {
        self.objects.clear();
    }

    pub fn add(&mut self, object: Sphere)
        requires
            object.wf(),
        ensures
            final(self).objects@ == old(self).objects@.push(object),
            old(self).wf() ==> final(self).wf(),
    {
        self.objects.push(object);
        proof {
            assert forall|i: int|
                0 <= i < self.objects@.len() && old(self).wf()
                implies (#[trigger] self.objects@[i]).wf() by {
                if i < old(self).objects@.len() {
                    assert(self.objects@[i] == old(self).objects@[i]);
                }
            }
        }
    }

}

impl Hittable for HittableList {
    open spec fn hit_wf(&self) -> bool {
        self.wf()
    }

    open spec fn hit_spec(&self, ray: Ray, tmin: int, tmax: int) -> Option<HitRecord> {
        first_hit(self.objects@, ray, tmin, tmax)
    }

    /// Linear scan for the globally nearest intersection within
    /// `[tmin, tmax)`.
    fn hit(&self, ray: &Ray, tmin: i128, tmax: i128) -> (r: Option<HitRecord>) {
        let mut temp_rec: Option<HitRecord> = None;
        let mut closest_so_far: i128 = tmax;
        let n = self.objects.len();
        let mut idx: usize = 0;
        while idx < n
            invariant
                n == self.objects@.len(),
                0 <= idx <= n,
                self.wf(),
                ray.wf(),
                -INFINITY <= tmin <= INFINITY,
                -INFINITY <= tmax <= INFINITY,
                temp_rec == first_hit(self.objects@.take(idx as int), *ray,
                    tmin as int, tmax as int),
                temp_rec matches Some(rec) ==> rec.wf() && tmin <= rec.t < tmax
                    && ray.dir.mag2_spec() >= 1
                    && rec.point == ray.at_spec(rec.t as int)
                    && closest_so_far == rec.t,
                temp_rec is None ==> closest_so_far == tmax,
            decreases n - idx,
        {
            let obj = &self.objects[idx];
            let ghost prefix = self.objects@.take(idx as int);
            let ghost full = self.objects@.take(idx as int + 1);
            proof {
                assert(full.drop_last() =~= prefix);
                assert(full.last() == self.objects@[idx as int]);
            }
            match obj.hit(ray, tmin, closest_so_far) {
                Some(rec) => {
                    proof {
                        crate::sphere::lemma_hit_some_props(*obj, *ray, tmin as int,
                            closest_so_far as int);
                    }
                    closest_so_far = rec.t;
                    temp_rec = Some(rec);
                },
                None => {},
            }
            idx = idx + 1;
        }
        proof {
            assert(self.objects@.take(n as int) =~= self.objects@);
        }
        temp_rec
    }
}

/// What the scan computes: when it reports no hit, no sphere reports one
/// over the full window; when it reports one, the hit parameter is achieved
/// by some sphere and is minimal among all spheres' hit parameters, and the
/// hit point is the ray evaluated there.
#[verifier::rlimit(100)]
pub proof fn lemma_first_hit_characterization(objs: Seq<Sphere>, ray: Ray, tmin: int, tmax: int)
    requires
        -INFINITY <= tmin <= INFINITY,
        -INFINITY <= tmax <= INFINITY,
    ensures
        first_hit(objs, ray, tmin, tmax) is None ==> forall|i: int|
            #![trigger objs[i]]
            0 <= i < objs.len() ==> best_t(objs[i], ray, tmin, tmax) is None,
        first_hit(objs, ray, tmin, tmax) matches Some(rec) ==> {
            &&& tmin <= rec.t < tmax
            &&& rec.point == ray.at_spec(rec.t as int)
            &&& exists|i: int| 0 <= i < objs.len()
                && #[trigger] best_t(objs[i], ray, tmin, tmax) == Some(rec.t as int)
            &&& forall|i: int|
                #![trigger objs[i]]
                0 <= i < objs.len() ==> match best_t(objs[i], ray, tmin, tmax) {
                    Some(u) => rec.t <= u,
                    None => true,
                }
        },
    decreases objs.len(),
{
    if objs.len() == 0 {
    } else {
        let pre = objs.drop_last();
        let s = objs.last();
        lemma_first_hit_characterization(pre, ray, tmin, tmax);
        let prev = first_hit(pre, ray, tmin, tmax);
        let closest = match prev {
            Some(rec) => rec.t as int,
            None => tmax,
        };
        crate::sphere::lemma_hit_some_props(s, ray, tmin, closest);
        crate::sphere::lemma_hit_some_props(s, ray, tmin, tmax);
        crate::sphere::lemma_hit_window(s, ray, tmin, tmax, closest);
        assert(forall|i: int| 0 <= i < pre.len() ==> #[trigger] objs[i] == pre[i]);
        assert(objs[objs.len() - 1] == s);
        match first_hit(objs, ray, tmin, tmax) {
            Some(rec) => {
                match s.hit_spec(ray, tmin, closest) {
                    Some(r2) => {
                        assert(rec == r2);
                        // The sub-window hit is the sphere's full-window hit.
                        match best_t(s, ray, tmin, tmax) {
                            Some(u) => {
                                if u >= closest {
                                    assert(s.hit_spec(ray, tmin, closest) is None);
                                    assert(false);
                                }
                                assert(s.hit_spec(ray, tmin, closest)
                                    == s.hit_spec(ray, tmin, tmax));
                                assert(u == rec.t as int);
                                assert(best_t(objs[objs.len() - 1], ray, tmin, tmax)
                                    == Some(rec.t as int));
                            },
                            None => {
                                assert(s.hit_spec(ray, tmin, closest) is None);
                                assert(false);
                            },
                        }
                        assert(rec.t < closest);
                        assert forall|i: int|
                            0 <= i < objs.len() implies match best_t(#[trigger] objs[i],
                                ray, tmin, tmax) {
                            Some(u) => rec.t <= u,
                            None => true,
                        } by {
                            if i < objs.len() - 1 {
                                assert(objs[i] == pre[i]);
                                match best_t(pre[i], ray, tmin, tmax) {
                                    Some(u) => {
                                        match prev {
                                            Some(p) => {
                                                assert(p.t <= u);
                                                assert(rec.t < closest == p.t);
                                            },
                                            None => {
                                                assert(best_t(pre[i], ray, tmin, tmax)
                                                    is None);
                                            },
                                        }
                                    },
                                    None => {},
                                }
                            }
                        }
                    },
                    None => {
                        // The result is the previous one; the last sphere hits
                        // nothing nearer.
                        let p = prev.unwrap();
                        assert(rec == p);
                        assert(exists|i: int| 0 <= i < pre.len()
                            && #[trigger] best_t(pre[i], ray, tmin, tmax)
                                == Some(rec.t as int));
                        let wit = choose|i: int| 0 <= i < pre.len()
                            && #[trigger] best_t(pre[i], ray, tmin, tmax)
                                == Some(rec.t as int);
                        assert(objs[wit] == pre[wit]);
                        assert(best_t(objs[wit], ray, tmin, tmax) == Some(rec.t as int));
                        assert forall|i: int|
                            0 <= i < objs.len() implies match best_t(#[trigger] objs[i],
                                ray, tmin, tmax) {
                            Some(u) => rec.t <= u,
                            None => true,
                        } by {
                            if i == objs.len() - 1 {
                                match best_t(s, ray, tmin, tmax) {
                                    Some(u) => {
                                        if u < closest {
                                            assert(s.hit_spec(ray, tmin, closest)
                                                == s.hit_spec(ray, tmin, tmax));
                                            assert(false);
                                        }
                                        assert(rec.t as int == closest);
                                    },
                                    None => {},
                                }
                            } else {
                                assert(objs[i] == pre[i]);
                            }
                        }
                    },
                }
            },
            None => {
                // Both the previous scan and the last sphere found nothing.
                assert(prev is None);
                assert(closest == tmax);
                assert(s.hit_spec(ray, tmin, tmax) is None);
                assert forall|i: int|
                    0 <= i < objs.len() implies best_t(#[trigger] objs[i], ray, tmin,
                        tmax) is None by {
                    if i < objs.len() - 1 {
                        assert(objs[i] == pre[i]);
                    }
                }
            },
        }
    }
}

/// Closest-hit order independence: scenes holding the same spheres, in any
/// order, report the same hit parameter and the same hit point for the same
/// ray and window.
pub proof fn lemma_hit_order_independent(
    l1: Seq<Sphere>,
    l2: Seq<Sphere>,
    ray: Ray,
    tmin: int,
    tmax: int,
)
    requires
        l1.to_multiset() == l2.to_multiset(),
        -INFINITY <= tmin <= INFINITY,
        -INFINITY <= tmax <= INFINITY,
    ensures
        first_hit(l1, ray, tmin, tmax) is None <==> first_hit(l2, ray, tmin, tmax) is None,
        first_hit(l1, ray, tmin, tmax) matches Some(r1)
            ==> (first_hit(l2, ray, tmin, tmax) matches Some(r2)
                ==> r1.t == r2.t && r1.point == r2.point),
{
    broadcast use vstd::seq_lib::group_to_multiset_ensures;

    lemma_first_hit_characterization(l1, ray, tmin, tmax);
    lemma_first_hit_characterization(l2, ray, tmin, tmax);
    lemma_hit_witness_transfers(l1, l2, ray, tmin, tmax);
    lemma_hit_witness_transfers(l2, l1, ray, tmin, tmax);
}

/// If the first scene reports a hit, the second scene (same multiset of
/// spheres) reports one at a parameter no larger.
proof fn lemma_hit_witness_transfers(
    l1: Seq<Sphere>,
    l2: Seq<Sphere>,
    ray: Ray,
    tmin: int,
    tmax: int,
)
    requires
        l1.to_multiset() == l2.to_multiset(),
        -INFINITY <= tmin <= INFINITY,
        -INFINITY <= tmax <= INFINITY,
    ensures
        first_hit(l1, ray, tmin, tmax) matches Some(r1) ==> {
            &&& !(first_hit(l2, ray, tmin, tmax) is None)
            &&& (first_hit(l2, ray, tmin, tmax) matches Some(r2) ==> r2.t <= r1.t)
        },
{
    broadcast use vstd::seq_lib::group_to_multiset_ensures;

    lemma_first_hit_characterization(l1, ray, tmin, tmax);
    lemma_first_hit_characterization(l2, ray, tmin, tmax);
    match first_hit(l1, ray, tmin, tmax) {
        Some(r1) => {
            let wit = choose|i: int| 0 <= i < l1.len()
                && #[trigger] best_t(l1[i], ray, tmin, tmax) == Some(r1.t as int);
            let s = l1[wit];
            assert(l1.contains(s));
            assert(l1.to_multiset().count(s) > 0);
            assert(l2.contains(s));
            let j = choose|j: int| 0 <= j < l2.len() && l2[j] == s;
            assert(best_t(l2[j], ray, tmin, tmax) == Some(r1.t as int));
            match first_hit(l2, ray, tmin, tmax) {
                Some(r2) => {
                    assert(r2.t <= r1.t);
                },
                None => {
                    assert(best_t(l2[j], ray, tmin, tmax) is None);
                    assert(false);
                },
            }
        },
        None => {},
    }
}

} // verus!
