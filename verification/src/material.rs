//! Surface materials and their scattering behavior.

use vstd::prelude::*;
use rand_xoshiro::Xoshiro256Plus;
use crate::color::{Color, color_wf};
use crate::fixed::{FX_ONE, fx_mul, fx_div, sqrt_fx, tdiv, fx_mul_e, fx_div_e, sqrt_fx_e,
    lemma_tdiv_le, lemma_tdiv_shrinks};
use crate::hittable::{HitRecord, NORMAL_MAX};
use crate::math::{Vec3, near_zero, near_zero_spec, random_unit_vector, is_unit_sample,
    lemma_fx_mul_le, lemma_dot_le, lemma_mag2_le, lemma_mag2_nonneg, lemma_unit_bounded};
use crate::ray::{Ray, RAY_DIR_MAX};
use crate::rng::rand_fx;
use crate::utility::clamp_spec;

verus! {

/// An outgoing ray together with its color attenuation.
#[derive(Clone, Copy, Debug, PartialEq, Eq, Structural)]
pub struct ScatteredRay {
    pub ray: Ray,
    pub attenuation: Color,
}

/// 1/8 in fixed-point form: the smallest accepted refraction index. The
/// `[1/8, 8]` window is a representability cap of the fixed-point
/// reflectance and refraction arithmetic, not an optical rule; it covers
/// every physical material.
pub const RI_MIN: i128 = 8192;

/// 8 in fixed-point form: the largest accepted refraction index.
pub const RI_MAX: i128 = 524288;

#[derive(Clone, Copy, Debug, PartialEq, Eq, Structural)]
pub enum Material {
    Lambertian { albedo: Color },
    Metal { albedo: Color, fuzz: i128 },
    Dielectric { refraction_index: i128 },
}

impl Material {
    /// Valid material parameters: albedos are colors in `[0, 1]`, fuzz lies
    /// in `[0, 1]`, and refraction indices lie in `[1/8, 8]`.
    pub open spec fn wf(self) -> bool {
        match self {
            Material::Lambertian { albedo } => color_wf(albedo),
            Material::Metal { albedo, fuzz } => color_wf(albedo) && 0 <= fuzz <= FX_ONE,
            Material::Dielectric { refraction_index } => RI_MIN <= refraction_index <= RI_MAX,
        }
    }

    pub fn new_lambertian(albedo: Color) -> (r: Material)
        requires
            color_wf(albedo),
        ensures
            r == (Material::Lambertian { albedo }),
            r.wf(),
    {
        Material::Lambertian { albedo }
    }

    /// Fuzz must lie in `[0, 1]`.
    pub fn new_metal(albedo: Color, fuzz: i128) -> (r: Material)
        requires
            color_wf(albedo),
            0 <= fuzz <= FX_ONE,
        ensures
            r == (Material::Metal { albedo, fuzz }),
            r.wf(),
    {
        Material::Metal { albedo, fuzz }
    }

    /// The refraction index must lie in `[1/8, 8]`.
    pub fn new_dielectric(refraction_index: i128) -> (r: Material)
        requires
            RI_MIN <= refraction_index <= RI_MAX,
        ensures
            r == (Material::Dielectric { refraction_index }),
            r.wf(),
    {
        Material::Dielectric { refraction_index }
    }
}

/// The diffuse scatter direction: the normal plus a unit sample, with the
/// bare normal standing in when the sum is numerically zero.
pub open spec fn lambertian_dir_spec(normal: Vec3, u: Vec3) -> Vec3 {
    if near_zero_spec(normal.add_spec(u)) {
        normal
    } else {
        normal.add_spec(u)
    }
}

/// The metallic scatter direction: the normalized mirror reflection,
/// perturbed by `fuzz` times a unit sample.
pub open spec fn metal_dir_spec(d: Vec3, n: Vec3, fuzz: int, u: Vec3) -> Vec3 {
    d.reflect_spec(n).unit_spec().add_spec(u.scale_spec(fuzz))
}

/// The fifth power of a fixed-point number.
pub open spec fn pow5_spec(x: int) -> int {
    fx_mul(fx_mul(fx_mul(fx_mul(x, x), x), x), x)
}

/// The Schlick reflectance approximation:
/// `r0 + (1 - r0) (1 - cos)^5` with `r0 = ((1 - ratio) / (1 + ratio))^2`.
pub open spec fn reflectance_spec(cos: int, ratio: int) -> int {
    let t = fx_div(FX_ONE - ratio, FX_ONE + ratio);
    let r0 = fx_mul(t, t);
    r0 + fx_mul(FX_ONE - r0, pow5_spec(FX_ONE - cos))
}

/// The effective refraction ratio at the boundary: inverted when entering
/// through the front face.
pub open spec fn refraction_ratio_spec(ri: int, front_face: bool) -> int {
    if front_face {
        fx_div(FX_ONE as int, ri)
    } else {
        ri
    }
}

/// The incidence cosine, clamped into `[-1, 1]`.
pub open spec fn cos_theta_spec(uv: Vec3, n: Vec3) -> int {
    clamp_spec(-(FX_ONE as int), FX_ONE as int, -uv.dot_spec(n))
}

/// Snell refraction of the unit direction `uv` about `n`:
/// `perp = ratio (uv + cos n)`, `out = perp - sqrt(|1 - |perp|^2|) n`.
pub open spec fn refract_spec(uv: Vec3, n: Vec3, ratio: int, cos: int) -> Vec3 {
    let perp = uv.add_spec(n.scale_spec(cos)).scale_spec(ratio);
    let k = FX_ONE - perp.mag2_spec();
    let kk = if k >= 0 { k } else { -k };
    perp.sub_spec(n.scale_spec(sqrt_fx(kk)))
}

/// The dielectric scatter direction for one uniform draw `rand`: reflect on
/// total internal reflection or when the reflectance exceeds the draw,
/// refract otherwise.
pub open spec fn dielectric_dir_spec(uv: Vec3, n: Vec3, front_face: bool, ri: int, rand: int)
    -> Vec3
{
    let ratio = refraction_ratio_spec(ri, front_face);
    let cos = cos_theta_spec(uv, n);
    let sin = sqrt_fx(FX_ONE - fx_mul(cos, cos));
    if fx_mul(ratio, sin) > FX_ONE || reflectance_spec(cos, ratio) > rand {
        uv.reflect_spec(n)
    } else {
        refract_spec(uv, n, ratio, cos)
    }
}

/// What holds of every scattered ray `sc` that `scatter` hands back for
/// material `m`, incoming ray `ray_in` and hit `rec`: it starts at the hit
/// point, is well-formed, carries a color attenuation, and its direction
/// obeys the material's law for the random draws made.
pub open spec fn scatter_post(m: Material, ray_in: Ray, rec: HitRecord, sc: ScatteredRay)
    -> bool
{
    &&& sc.ray.orig == rec.point
    &&& sc.ray.wf()
    &&& color_wf(sc.attenuation)
    &&& match m {
        Material::Lambertian { albedo } => sc.attenuation == albedo
            && exists|u: Vec3| (#[trigger] is_unit_sample(u))
                && sc.ray.dir == lambertian_dir_spec(rec.normal, u),
        Material::Metal { albedo, fuzz } => sc.attenuation == albedo
            && ray_in.dir.reflect_spec(rec.normal).mag2_spec() >= 1
            && exists|u: Vec3| (#[trigger] is_unit_sample(u))
                && sc.ray.dir == metal_dir_spec(ray_in.dir, rec.normal, fuzz as int, u)
                && sc.ray.dir.dot_spec(rec.normal) > 0,
        Material::Dielectric { refraction_index } => sc.attenuation
            == (Vec3 { x: FX_ONE, y: FX_ONE, z: FX_ONE })
            && exists|rand: int| 0 <= rand < FX_ONE
                && sc.ray.dir == #[trigger] dielectric_dir_spec(ray_in.dir.unit_spec(),
                    rec.normal, rec.front_face, refraction_index as int, rand),
    }
}

impl Material {
    /// Scatter an incoming ray at a hit. `None` signals absorption; only
    /// metal absorbs, and only when the fuzzed reflection degenerates or
    /// points into the surface. Every scattered ray obeys `scatter_post`.
    pub fn scatter(&self, rng: &mut Xoshiro256Plus, ray_in: &Ray, hit_record: &HitRecord)
        -> (r: Option<ScatteredRay>)
        requires
            self.wf(),
            hit_record.wf(),
            ray_in.wf(),
            ray_in.dir.mag2_spec() >= 1,
        ensures
            r matches Some(sc) ==> scatter_post(*self, *ray_in, *hit_record, sc),
            self is Lambertian ==> r is Some,
            self is Dielectric ==> r is Some,
            self matches Material::Metal { albedo, fuzz }
                ==> (r is None
                    ==> ray_in.dir.reflect_spec(hit_record.normal).mag2_spec() < 1
                        || exists|u: Vec3| (#[trigger] is_unit_sample(u))
                            && metal_dir_spec(ray_in.dir, hit_record.normal, fuzz as int, u)
                                .dot_spec(hit_record.normal) <= 0),
    {
        let normal = hit_record.normal;
        match *self {
            Material::Lambertian { albedo } => {
                let u = random_unit_vector(rng);
                let mut scatter_direction = normal.add(&u);
                if near_zero(scatter_direction) {
                    scatter_direction = normal;
                }
                let sc = ScatteredRay {
                    ray: Ray::new(hit_record.point, scatter_direction),
                    attenuation: albedo,
                };
                proof {
                    assert(is_unit_sample(u)
                        && sc.ray.dir == lambertian_dir_spec(normal, u));
                }
                Some(sc)
            },
            Material::Metal { albedo, fuzz } => {
                let reflected = ray_in.direction().reflect(&normal);
                proof {
                    lemma_metal_reflect_bound(ray_in.dir, normal);
                    lemma_mag2_le(reflected, 0x400000000int);
                }
                if reflected.mag2() < 1 {
                    return None;
                }
                let unit = reflected.norm();
                let u = random_unit_vector(rng);
                let fuzzed = u.scale(fuzz);
                proof {
                    lemma_fx_mul_le(u.x as int, fuzz as int, 2 * FX_ONE as int, FX_ONE as int);
                    lemma_fx_mul_le(u.y as int, fuzz as int, 2 * FX_ONE as int, FX_ONE as int);
                    lemma_fx_mul_le(u.z as int, fuzz as int, 2 * FX_ONE as int, FX_ONE as int);
                }
                let out = unit.add(&fuzzed);
                let sc = ScatteredRay {
                    ray: Ray::new(hit_record.point, out),
                    attenuation: albedo,
                };
                if sc.ray.direction().dot(&normal) > 0 {
                    proof {
                        assert(is_unit_sample(u)
                            && sc.ray.dir == metal_dir_spec(ray_in.dir, normal, fuzz as int, u)
                            && sc.ray.dir.dot_spec(normal) > 0);
                    }
                    Some(sc)
                } else {
                    proof {
                        assert(is_unit_sample(u)
                            && metal_dir_spec(ray_in.dir, normal, fuzz as int, u)
                                .dot_spec(normal) <= 0);
                    }
                    None
                }
            },
            Material::Dielectric { refraction_index } => {
                let attenuation = Vec3 { x: FX_ONE, y: FX_ONE, z: FX_ONE };
                let ri = if hit_record.front_face {
                    fx_div_e(FX_ONE, refraction_index)
                } else {
                    refraction_index
                };
                proof {
                    lemma_ratio_bounds(refraction_index as int);
                }
                let unit_dir = ray_in.direction().norm();
                proof {
                    lemma_dot_le(ray_in.dir.unit_spec(), normal, 2 * FX_ONE as int,
                        NORMAL_MAX as int);
                }
                let d = unit_dir.dot(&normal);
                let cos_theta = if -d > FX_ONE {
                    FX_ONE
                } else if -d < -FX_ONE {
                    -FX_ONE
                } else {
                    -d
                };
                proof {
                    assert(cos_theta == cos_theta_spec(ray_in.dir.unit_spec(), normal));
                    assert((cos_theta as int) * (cos_theta as int) <= 65536 * 65536)
                        by (nonlinear_arith)
                        requires -65536 <= cos_theta as int <= 65536;
                    assert((cos_theta as int) * (cos_theta as int) >= 0) by (nonlinear_arith);
                    lemma_tdiv_le((cos_theta as int) * (cos_theta as int), FX_ONE as int,
                        FX_ONE as int);
                    lemma_tdiv_shrinks((cos_theta as int) * (cos_theta as int), FX_ONE as int);
                }
                let sin_theta = sqrt_fx_e(FX_ONE - fx_mul_e(cos_theta, cos_theta));
                proof {
                    crate::fixed::lemma_isqrt_le(
                        (FX_ONE - fx_mul(cos_theta as int, cos_theta as int)) * 65536,
                        FX_ONE as int);
                    assert((FX_ONE - fx_mul(cos_theta as int, cos_theta as int)) * 65536
                        <= 65536 * 65536) by (nonlinear_arith)
                        requires 0 <= FX_ONE - fx_mul(cos_theta as int, cos_theta as int)
                            <= 65536;
                }
                let random_double = rand_fx(rng);
                let cannot_refract = fx_mul_e(ri, sin_theta) > FX_ONE;
                let direction = if cannot_refract
                    || self.reflectance(cos_theta, ri) > random_double {
                    unit_dir.reflect(&normal)
                } else {
                    refract(&unit_dir, &normal, ri, cos_theta)
                };
                proof {
                    lemma_unit_reflect_bound(ray_in.dir.unit_spec(), normal);
                    assert(direction == dielectric_dir_spec(ray_in.dir.unit_spec(), normal,
                        hit_record.front_face, refraction_index as int,
                        random_double as int));
                }
                let sc = ScatteredRay {
                    ray: Ray::new(hit_record.point, direction),
                    attenuation,
                };
                proof {
                    assert(0 <= random_double < FX_ONE
                        && sc.ray.dir == dielectric_dir_spec(ray_in.dir.unit_spec(), normal,
                            hit_record.front_face, refraction_index as int,
                            random_double as int));
                }
                Some(sc)
            },
        }
    }

    /// The Schlick reflectance of one boundary crossing.
    fn reflectance(&self, cosine: i128, refraction_index: i128) -> (r: i128)
        requires
            -FX_ONE <= cosine <= FX_ONE,
            0 <= refraction_index <= 0x80000,
        ensures
            r == reflectance_spec(cosine as int, refraction_index as int),
            0 <= r <= 33 * FX_ONE,
    {
        let ratio = refraction_index;
        proof {
            assert(((FX_ONE - ratio) as int) * 65536 <= (FX_ONE as int) * ((FX_ONE + ratio) as int)
                && -((FX_ONE as int) * ((FX_ONE + ratio) as int))
                    <= ((FX_ONE - ratio) as int) * 65536) by (nonlinear_arith)
                requires 0 <= ratio as int <= 0x80000;
            lemma_tdiv_le((FX_ONE - ratio) as int * 65536, (FX_ONE + ratio) as int,
                FX_ONE as int);
        }
        let t = fx_div_e(FX_ONE - ratio, FX_ONE + ratio);
        proof {
            assert((t as int) * (t as int) >= 0) by (nonlinear_arith);
            assert((t as int) * (t as int) <= 65536 * 65536) by (nonlinear_arith)
                requires -65536 <= t as int <= 65536;
            lemma_tdiv_shrinks((t as int) * (t as int), FX_ONE as int);
            lemma_tdiv_le((t as int) * (t as int), FX_ONE as int, FX_ONE as int);
        }
        let r0 = fx_mul_e(t, t);
        let p = pow5(FX_ONE - cosine);
        proof {
            lemma_fx_mul_le((FX_ONE - r0) as int, p as int, FX_ONE as int,
                32 * FX_ONE as int);
            assert(((FX_ONE - r0) as int) * (p as int) >= 0) by (nonlinear_arith)
                requires 0 <= (FX_ONE - r0) as int && 0 <= p as int;
            assert(((FX_ONE - r0) as int) * (p as int)
                <= (32 * FX_ONE as int) * (FX_ONE as int)) by (nonlinear_arith)
                requires 0 <= (FX_ONE - r0) as int <= 65536
                    && 0 <= p as int <= 32 * 65536;
            lemma_tdiv_shrinks(((FX_ONE - r0) as int) * (p as int), FX_ONE as int);
            lemma_tdiv_le(((FX_ONE - r0) as int) * (p as int), FX_ONE as int,
                32 * FX_ONE as int);
        }
        r0 + fx_mul_e(FX_ONE - r0, p)
    }
}

/// The fifth power of a fixed-point number in `[0, 2]`.
fn pow5(x: i128) -> (r: i128)
    requires
        0 <= x <= 2 * FX_ONE,
    ensures
        r == pow5_spec(x as int),
        0 <= r <= 32 * FX_ONE,
{
    proof {
        lemma_pow5_bounds(x as int);
    }
    let x2 = fx_mul_e(x, x);
    let x3 = fx_mul_e(x2, x);
    let x4 = fx_mul_e(x3, x);
    fx_mul_e(x4, x)
}

/// Stepwise bounds for the fifth power.
proof fn lemma_pow5_bounds(x: int)
    requires
        0 <= x <= 2 * FX_ONE,
    ensures
        0 <= fx_mul(x, x) <= 4 * FX_ONE,
        0 <= fx_mul(fx_mul(x, x), x) <= 8 * FX_ONE,
        0 <= fx_mul(fx_mul(fx_mul(x, x), x), x) <= 16 * FX_ONE,
        0 <= pow5_spec(x) <= 32 * FX_ONE,
{
    let s = FX_ONE as int;
    assert(x * x >= 0) by (nonlinear_arith);
    assert(x * x <= (4 * s) * s) by (nonlinear_arith)
        requires 0 <= x <= 2 * s && s == 65536;
    lemma_tdiv_shrinks(x * x, s);
    lemma_tdiv_le(x * x, s, 4 * s);
    let x2 = fx_mul(x, x);
    assert(x2 * x >= 0 && x2 * x <= (8 * s) * s) by (nonlinear_arith)
        requires 0 <= x2 <= 4 * s && 0 <= x <= 2 * s && s == 65536;
    lemma_tdiv_shrinks(x2 * x, s);
    lemma_tdiv_le(x2 * x, s, 8 * s);
    let x3 = fx_mul(x2, x);
    assert(x3 * x >= 0 && x3 * x <= (16 * s) * s) by (nonlinear_arith)
        requires 0 <= x3 <= 8 * s && 0 <= x <= 2 * s && s == 65536;
    lemma_tdiv_shrinks(x3 * x, s);
    lemma_tdiv_le(x3 * x, s, 16 * s);
    let x4 = fx_mul(x3, x);
    assert(x4 * x >= 0 && x4 * x <= (32 * s) * s) by (nonlinear_arith)
        requires 0 <= x4 <= 16 * s && 0 <= x <= 2 * s && s == 65536;
    lemma_tdiv_shrinks(x4 * x, s);
    lemma_tdiv_le(x4 * x, s, 32 * s);
}

/// The refraction of `uv` about `n` with the given ratio and cosine.
fn refract(uv: &Vec3, n: &Vec3, ratio: i128, cos: i128) -> (r: Vec3)
    requires
        uv.bounded(2 * FX_ONE as int),
        n.bounded(NORMAL_MAX as int),
        0 <= ratio <= 0x80000,
        -FX_ONE <= cos <= FX_ONE,
    ensures
        r == refract_spec(*uv, *n, ratio as int, cos as int),
        r.bounded(0x4000000int),
{
    proof {
        let s = FX_ONE as int;
        lemma_fx_mul_le(n.x as int, cos as int, NORMAL_MAX as int, s);
        lemma_fx_mul_le(n.y as int, cos as int, NORMAL_MAX as int, s);
        lemma_fx_mul_le(n.z as int, cos as int, NORMAL_MAX as int, s);
    }
    let cn = n.scale(cos);
    let summed = uv.add(&cn);
    proof {
        let sm = summed;
        lemma_fx_mul_le(sm.x as int, ratio as int, 0x40001int, 0x80000int);
        lemma_fx_mul_le(sm.y as int, ratio as int, 0x40001int, 0x80000int);
        lemma_fx_mul_le(sm.z as int, ratio as int, 0x40001int, 0x80000int);
    }
    let perp = summed.scale(ratio);
    proof {
        lemma_mag2_le(perp, 0x400000int);
        lemma_mag2_nonneg(perp);
    }
    let m2 = perp.mag2();
    let k = FX_ONE - m2;
    let kk = if k >= 0 { k } else { -k };
    proof {
        assert(0 <= kk as int <= 0x40000000);
        crate::fixed::lemma_isqrt_le((kk as int) * 65536, 0x1000000int);
        crate::fixed::lemma_isqrt_spec((kk as int) * 65536);
    }
    let coef = sqrt_fx_e(kk);
    proof {
        lemma_fx_mul_le(n.x as int, coef as int, NORMAL_MAX as int, 0x1000000int);
        lemma_fx_mul_le(n.y as int, coef as int, NORMAL_MAX as int, 0x1000000int);
        lemma_fx_mul_le(n.z as int, coef as int, NORMAL_MAX as int, 0x1000000int);
    }
    let par = n.scale(coef);
    perp.sub(&par)
}

/// The mirror reflection of a ray direction about a near-unit normal stays
/// within modest bounds.
proof fn lemma_metal_reflect_bound(d: Vec3, n: Vec3)
    requires
        d.bounded(RAY_DIR_MAX as int),
        n.bounded(NORMAL_MAX as int),
    ensures
        d.reflect_spec(n).bounded(0x400000000int),
{
    lemma_dot_le(d, n, RAY_DIR_MAX as int, NORMAL_MAX as int);
    let dd = d.dot_spec(n);
    lemma_fx_mul_le(n.x as int, 2 * dd, NORMAL_MAX as int, 0x100000000int);
    lemma_fx_mul_le(n.y as int, 2 * dd, NORMAL_MAX as int, 0x100000000int);
    lemma_fx_mul_le(n.z as int, 2 * dd, NORMAL_MAX as int, 0x100000000int);
}

/// The mirror reflection of a near-unit direction about a near-unit normal
/// stays well within the ray-direction cap.
proof fn lemma_unit_reflect_bound(d: Vec3, n: Vec3)
    requires
        d.bounded(2 * FX_ONE as int),
        n.bounded(NORMAL_MAX as int),
    ensures
        d.reflect_spec(n).bounded(0x800000int),
{
    lemma_dot_le(d, n, 2 * FX_ONE as int, NORMAL_MAX as int);
    let dd = d.dot_spec(n);
    lemma_fx_mul_le(n.x as int, 2 * dd, NORMAL_MAX as int, 0x200000int);
    lemma_fx_mul_le(n.y as int, 2 * dd, NORMAL_MAX as int, 0x200000int);
    lemma_fx_mul_le(n.z as int, 2 * dd, NORMAL_MAX as int, 0x200000int);
}

/// Mirror degeneracy of metal: with zero fuzz, the scatter direction is
/// exactly the normalized mirror reflection of the incoming direction,
/// whatever the unit sample drawn.
pub proof fn lemma_metal_mirror(d: Vec3, n: Vec3, u: Vec3)
    ensures
        metal_dir_spec(d, n, 0, u) == d.reflect_spec(n).unit_spec(),
{
    crate::fixed::lemma_tdiv_basics(FX_ONE as int);
    assert(fx_mul(u.x as int, 0) == 0 && fx_mul(u.y as int, 0) == 0
        && fx_mul(u.z as int, 0) == 0) by {
        assert(u.x as int * 0 == 0int * 65536) by (nonlinear_arith);
        assert(u.y as int * 0 == 0int * 65536) by (nonlinear_arith);
        assert(u.z as int * 0 == 0int * 65536) by (nonlinear_arith);
    }
    let m = d.reflect_spec(n).unit_spec();
    assert(metal_dir_spec(d, n, 0, u) =~= m);
}

/// Mirror degeneracy through scattering: any ray that zero-fuzz metal hands
/// back travels along the exact normalized mirror reflection of the
/// incoming direction, carries the albedo, and starts at the hit point —
/// whatever unit sample was drawn.
pub proof fn lemma_metal_zero_fuzz_scatter(
    albedo: Color,
    ray_in: Ray,
    rec: HitRecord,
    sc: ScatteredRay,
)
    requires
        scatter_post(Material::Metal { albedo, fuzz: 0 }, ray_in, rec, sc),
    ensures
        sc.ray.dir == ray_in.dir.reflect_spec(rec.normal).unit_spec(),
        sc.attenuation == albedo,
        sc.ray.orig == rec.point,
{
    let u = choose|u: Vec3| (#[trigger] is_unit_sample(u))
        && sc.ray.dir == metal_dir_spec(ray_in.dir, rec.normal, 0, u)
        && sc.ray.dir.dot_spec(rec.normal) > 0;
    lemma_metal_mirror(ray_in.dir, rec.normal, u);
}

/// Pass-through at refraction index one: any ray the dielectric hands back
/// for a head-on incidence (unit direction exactly opposite an exactly-unit
/// normal) continues along the incoming unit direction — whatever uniform
/// draw was made.
pub proof fn lemma_dielectric_unit_index_scatter(ray_in: Ray, rec: HitRecord, sc: ScatteredRay)
    requires
        scatter_post(Material::Dielectric { refraction_index: FX_ONE }, ray_in, rec, sc),
        rec.normal.bounded(NORMAL_MAX as int),
        rec.normal.mag2_spec() == FX_ONE,
        ray_in.dir.unit_spec() == rec.normal.neg_spec(),
    ensures
        sc.ray.dir == ray_in.dir.unit_spec(),
{
    let rand = choose|rand: int| 0 <= rand < FX_ONE
        && sc.ray.dir == #[trigger] dielectric_dir_spec(ray_in.dir.unit_spec(), rec.normal,
            rec.front_face, FX_ONE as int, rand);
    lemma_unit_index_head_on_passes_through(rec.normal, rec.front_face, rand);
}

/// With a refraction index of one, total internal reflection is never
/// triggered: the refraction branch is rejected only by the stochastic
/// reflectance comparison.
pub proof fn lemma_unit_index_no_total_internal_reflection(uv: Vec3, n: Vec3,
    front_face: bool, rand: int)
    requires
        0 <= rand,
    ensures
        ({
            let ratio = refraction_ratio_spec(FX_ONE as int, front_face);
            let cos = cos_theta_spec(uv, n);
            let sin = sqrt_fx(FX_ONE - fx_mul(cos, cos));
            ratio == FX_ONE && fx_mul(ratio, sin) <= FX_ONE
        }),
{
    let s = FX_ONE as int;
    crate::fixed::lemma_tdiv_basics(s);
    assert(s * s == s * 65536) by (nonlinear_arith)
        requires s == 65536;
    assert(fx_div(s, s) == s);
    let cos = cos_theta_spec(uv, n);
    assert(cos * cos >= 0) by (nonlinear_arith);
    assert(cos * cos <= s * s) by (nonlinear_arith)
        requires -s <= cos <= s;
    lemma_tdiv_shrinks(cos * cos, s);
    lemma_tdiv_le(cos * cos, s, s);
    let inner = s - fx_mul(cos, cos);
    assert(0 <= inner <= s);
    crate::fixed::lemma_isqrt_le(inner * 65536, s);
    assert(inner * 65536 <= s * s) by (nonlinear_arith)
        requires 0 <= inner <= s && s == 65536;
    let sin = sqrt_fx(inner);
    assert(0 <= sin <= s) by {
        crate::fixed::lemma_isqrt_spec(inner * 65536);
        assert(inner * 65536 >= 0) by (nonlinear_arith)
            requires inner >= 0;
    }
    assert(fx_mul(s, sin) == sin) by {
        assert(s * sin == sin * 65536) by (nonlinear_arith)
            requires s == 65536;
    }
}

/// With a refraction index of one, a head-on ray (incoming unit direction
/// exactly opposite an exactly-unit normal) always refracts straight
/// through: the scatter direction equals the incoming direction, for every
/// value of the uniform draw.
pub proof fn lemma_unit_index_head_on_passes_through(n: Vec3, front_face: bool, rand: int)
    requires
        n.bounded(NORMAL_MAX as int),
        n.mag2_spec() == FX_ONE,
        0 <= rand < FX_ONE,
    ensures
        dielectric_dir_spec(n.neg_spec(), n, front_face, FX_ONE as int, rand)
            == n.neg_spec(),
{
    let s = FX_ONE as int;
    let uv = n.neg_spec();
    crate::fixed::lemma_tdiv_basics(s);
    assert(s * s == s * 65536) by (nonlinear_arith)
        requires s == 65536;
    assert(fx_div(s, s) == s);
    let ratio = refraction_ratio_spec(s, front_face);
    assert(ratio == s);
    // The incidence cosine is exactly one.
    assert(fx_mul(uv.x as int, n.x as int) == -fx_mul(n.x as int, n.x as int)) by {
        assert((-(n.x as int)) * (n.x as int) == -((n.x as int) * (n.x as int)))
            by (nonlinear_arith);
    }
    assert(fx_mul(uv.y as int, n.y as int) == -fx_mul(n.y as int, n.y as int)) by {
        assert((-(n.y as int)) * (n.y as int) == -((n.y as int) * (n.y as int)))
            by (nonlinear_arith);
    }
    assert(fx_mul(uv.z as int, n.z as int) == -fx_mul(n.z as int, n.z as int)) by {
        assert((-(n.z as int)) * (n.z as int) == -((n.z as int) * (n.z as int)))
            by (nonlinear_arith);
    }
    assert(uv.dot_spec(n) == -n.mag2_spec());
    let cos = cos_theta_spec(uv, n);
    assert(cos == s);
    // No total internal reflection, and the Schlick reflectance is zero.
    lemma_unit_index_no_total_internal_reflection(uv, n, front_face, rand);
    assert(fx_div(s - s, s + s) == 0) by {
        assert((0int) * 65536 == 0int) by (nonlinear_arith);
        assert(tdiv(0, s + s) == 0) by {
            crate::fixed::lemma_tdiv_shrinks(0, s + s);
        }
    }
    assert(fx_mul(0, 0) == 0) by {
        assert(0int * 0 == 0int * 65536) by (nonlinear_arith);
    }
    assert(pow5_spec(s - cos) == 0) by {
        assert(0int * 0 == 0int * 65536) by (nonlinear_arith);
    }
    assert(reflectance_spec(cos, ratio) == 0) by {
        assert((s - 0) * 0 == 0int * 65536) by (nonlinear_arith);
    }
    // The refraction collapses: the perpendicular part vanishes and the
    // parallel part is exactly the negated normal.
    assert(n.scale_spec(s) =~= n) by {
        assert(n.x as int * s == n.x as int * 65536) by (nonlinear_arith)
            requires s == 65536;
        assert(n.y as int * s == n.y as int * 65536) by (nonlinear_arith)
            requires s == 65536;
        assert(n.z as int * s == n.z as int * 65536) by (nonlinear_arith)
            requires s == 65536;
    }
    let summed = uv.add_spec(n.scale_spec(cos));
    assert(summed =~= Vec3 { x: 0, y: 0, z: 0 });
    let perp = summed.scale_spec(ratio);
    assert(perp =~= Vec3 { x: 0, y: 0, z: 0 }) by {
        assert(0int * s == 0int * 65536) by (nonlinear_arith);
    }
    assert(perp.mag2_spec() == 0) by {
        assert(0int * 0 == 0int * 65536) by (nonlinear_arith);
    }
    assert(sqrt_fx(s) == s) by {
        crate::fixed::lemma_isqrt_unique(s * 65536, s);
        assert(s * s <= s * 65536) by (nonlinear_arith)
            requires s == 65536;
        assert(s * 65536 < (s + 1) * (s + 1)) by (nonlinear_arith)
            requires s == 65536;
    }
    let out = refract_spec(uv, n, ratio, cos);
    assert(out =~= uv);
}

/// The effective ratio lies in `[0, 8]` for refraction indices in `[1/8, 8]`.
proof fn lemma_ratio_bounds(ri: int)
    requires
        RI_MIN <= ri <= RI_MAX,
    ensures
        0 <= fx_div(FX_ONE as int, ri) <= RI_MAX,
{
    lemma_tdiv_shrinks((FX_ONE as int) * 65536, ri);
    assert((FX_ONE as int) * 65536 <= (RI_MAX as int) * ri) by (nonlinear_arith)
        requires ri >= 8192;
    lemma_tdiv_le((FX_ONE as int) * 65536, ri, RI_MAX as int);
}

} // verus!
