//! The camera: viewport derivation, per-pixel ray generation, the recursive
//! color integrator, and the renderer producing the textual image.

use vstd::prelude::*;
use vstd::string::StringExecFns;
use rand_xoshiro::Xoshiro256Plus;
use crate::color::{Color, color_wf, format_color, format_color_spec, dec_spec, append_decimal};
use crate::material::{scatter_post, ScatteredRay};
use crate::constants::INFINITY;
use crate::fixed::{FX_ONE, FX_HALF, fx_mul, fx_div, tdiv, fx_mul_e, fx_div_e, tdiv_e,
    lemma_tdiv_le, lemma_tdiv_shrinks, lemma_tdiv_basics};
use crate::hittable::Hittable;
use crate::math::{Point3, Vec3, sin_fx, cos_fx, sin_fx_spec, cos_fx_spec, TRIG_IN_MAX,
    random_in_unit_disk, lemma_fx_mul_le, lemma_mag2_le, lemma_unit_bounded};
use crate::ray::{Ray, RAY_ORIGIN_MAX, RAY_DIR_MAX};
use crate::rng::{rand_fx, rng_from_seed};
use crate::utility::clamp_spec;

verus! {

/// Why a render is refused.
#[derive(Clone, Copy, Debug, PartialEq, Eq, Structural)]
pub enum RenderError {
    /// The camera configuration produced a degenerate or unrepresentable
    /// viewport.
    InvalidCamera,
}

/// The read-only camera configuration. Angles are in fixed-point radians;
/// lengths and the aspect ratio are fixed-point numbers; image width and
/// sample count are plain counts.
#[derive(Clone, Copy, Debug)]
pub struct Camera {
    pub aspect_ratio: i128,
    pub img_width: usize,
    pub samples_per_pixel: usize,
    pub max_depth: i32,
    pub vfov: i128,
    pub lookfrom: Point3,
    pub lookat: Point3,
    pub vup: Vec3,
    pub defocus_angle: i128,
    pub focus_dist: i128,
}

/// 2^14: the cap on image dimensions, in pixels.
pub const IMG_DIM_MAX: usize = 16384;

/// 2^30: the cap on camera position components.
pub const CAM_POS_MAX: i128 = 0x40000000;

impl Camera {
    pub open spec fn wf(self) -> bool {
        &&& 1 <= self.aspect_ratio <= 0x100000000
        &&& 1 <= self.img_width <= IMG_DIM_MAX
        &&& 1 <= self.samples_per_pixel <= 65536
        &&& 1 <= self.vfov <= 3 * FX_ONE
        &&& self.lookfrom.bounded(CAM_POS_MAX as int)
        &&& self.lookat.bounded(CAM_POS_MAX as int)
        &&& self.vup.bounded(CAM_POS_MAX as int)
        &&& 0 <= self.defocus_angle <= 2 * FX_ONE
        &&& 1 <= self.focus_dist <= CAM_POS_MAX
    }
}

/// The background: a vertical gradient from white to sky blue over the
/// normalized direction's height, mid-gradient for degenerate directions.
pub open spec fn background_spec(ray: Ray) -> Color {
    let y = if ray.dir.mag2_spec() >= 1 {
        ray.dir.unit_spec().y as int
    } else {
        0
    };
    let a = clamp_spec(0, FX_ONE as int, fx_mul(FX_HALF as int, y + FX_ONE));
    let white = Vec3 { x: FX_ONE, y: FX_ONE, z: FX_ONE };
    let sky = Vec3 { x: 32768, y: 45875, z: 65536 };
    white.scale_spec(FX_ONE - a).add_spec(sky.scale_spec(a))
}

/// A convex fixed-point combination of channels in `[0, 1]` stays in
/// `[0, 1]`.
proof fn lemma_lerp_channel(a: int, w: int, b: int)
    requires
        0 <= a <= FX_ONE,
        0 <= w <= FX_ONE,
        0 <= b <= FX_ONE,
    ensures
        0 <= fx_mul(FX_ONE - a, w) + fx_mul(a, b) <= FX_ONE,
        -0x10000000000 <= fx_mul(FX_ONE - a, w) + fx_mul(a, b) <= 0x10000000000,
{
    let s = FX_ONE as int;
    assert(0 <= (s - a) * w <= (s - a) * s) by (nonlinear_arith)
        requires 0 <= s - a && 0 <= w <= s;
    assert(0 <= a * b <= a * s) by (nonlinear_arith)
        requires 0 <= a && 0 <= b <= s;
    lemma_tdiv_shrinks((s - a) * w, s);
    lemma_tdiv_shrinks(a * b, s);
    crate::fixed::lemma_tdiv_mono((s - a) * w, (s - a) * s, s);
    crate::fixed::lemma_tdiv_mono(a * b, a * s, s);
    lemma_tdiv_basics(s);
    assert(tdiv((s - a) * s, s) == s - a);
    assert(tdiv(a * s, s) == a);
}

/// The background color of a ray; independent of any scene.
pub fn background(ray: &Ray) -> (c: Color)
    requires
        ray.wf(),
    ensures
        c == background_spec(*ray),
        color_wf(c),
{
    let m2 = ray.direction().mag2();
    let y = if m2 >= 1 {
        proof {
            lemma_unit_bounded(ray.dir, RAY_DIR_MAX as int);
        }
        ray.direction().norm().y
    } else {
        0
    };
    let ax = fx_mul_e(FX_HALF, y + FX_ONE);
    let a = crate::utility::clamp(0, FX_ONE, ax);
    let white = Vec3 { x: FX_ONE, y: FX_ONE, z: FX_ONE };
    let sky = Vec3 { x: 32768, y: 45875, z: 65536 };
    proof {
        lemma_lerp_channel(a as int, FX_ONE as int, 32768);
        lemma_lerp_channel(a as int, FX_ONE as int, 45875);
        lemma_lerp_channel(a as int, FX_ONE as int, 65536);
    }
    let w = white.scale(FX_ONE - a);
    let s = sky.scale(a);
    w.add(&s)
}

/// Channelwise products of colors stay in `[0, 1]`.
proof fn lemma_color_mul_wf(a: Color, b: Color)
    requires
        color_wf(a),
        color_wf(b),
    ensures
        color_wf(a.mul_spec(b)),
{
    let s = FX_ONE as int;
    assert(0 <= a.x * b.x <= s * s && 0 <= a.y * b.y <= s * s && 0 <= a.z * b.z <= s * s)
        by (nonlinear_arith)
        requires 0 <= a.x <= s && 0 <= b.x <= s && 0 <= a.y <= s && 0 <= b.y <= s
            && 0 <= a.z <= s && 0 <= b.z <= s;
    lemma_tdiv_shrinks(a.x * b.x, s);
    lemma_tdiv_shrinks(a.y * b.y, s);
    lemma_tdiv_shrinks(a.z * b.z, s);
    lemma_tdiv_le(a.x * b.x, s, s);
    lemma_tdiv_le(a.y * b.y, s, s);
    lemma_tdiv_le(a.z * b.z, s, s);
}

/// The fixed-point epsilon (0.001) on the near bound of every scene query,
/// suppressing self-intersection.
pub const T_EPS: i128 = 66;

/// What the integrator guarantees of the color `c` it returns for one ray:
/// the channels lie in `[0, 1]`; a spent bounce budget gives exactly black;
/// a miss gives exactly the background gradient of the ray (independent of
/// any scene); and a hit gives either black (absorption) or the surface
/// attenuation times some further well-formed radiance, with the scattered
/// ray obeying the hit material's direction law.
pub open spec fn ray_color_post<H: Hittable>(world: H, max_depth: int, ray: Ray, c: Color)
    -> bool
{
    &&& color_wf(c)
    &&& max_depth <= 0 ==> c == Vec3::zero_spec()
    &&& (max_depth > 0 && world.hit_spec(ray, T_EPS as int, INFINITY as int) is None
        ==> c == background_spec(ray))
    &&& (max_depth > 0 ==> match world.hit_spec(ray, T_EPS as int, INFINITY as int) {
        Some(rec) => c == Vec3::zero_spec()
            || exists|sc: ScatteredRay, rest: Color|
                scatter_post(rec.mat, ray, rec, sc) && color_wf(rest)
                && c == (#[trigger] sc.attenuation.mul_spec(rest)),
        None => true,
    })
}

/// The recursive Monte Carlo radiance estimate of one ray: black when the
/// bounce budget is spent, the background on a miss, and the scattered
/// radiance attenuated by the surface otherwise; see `ray_color_post`.
pub fn ray_color<H: Hittable>(rng: &mut Xoshiro256Plus, max_depth: i32, ray: &Ray,
    world: &H) -> (c: Color)
    requires
        world.hit_wf(),
        ray.wf(),
    ensures
        ray_color_post(*world, max_depth as int, *ray, c),
    decreases max_depth,
{
    if max_depth <= 0 {
        return Vec3::zero();
    }
    match world.hit(ray, T_EPS, INFINITY) {
        Some(record) => {
            match record.mat.scatter(rng, ray, &record) {
                Some(scattered) => {
                    let rest = ray_color(rng, max_depth - 1, &scattered.ray, world);
                    proof {
                        lemma_color_mul_wf(scattered.attenuation, rest);
                    }
                    let out = scattered.attenuation.mul(&rest);
                    proof {
                        assert(scatter_post(record.mat, *ray, record, scattered)
                            && color_wf(rest)
                            && out == scattered.attenuation.mul_spec(rest));
                    }
                    out
                },
                None => Vec3::zero(),
            }
        },
        None => background(ray),
    }
}

/// The viewport geometry derived once per render.
#[derive(Clone, Copy, Debug)]
pub struct ViewportData {
    pub img_width: usize,
    pub img_height: usize,
    pub center: Point3,
    pub pixel00_loc: Point3,
    pub pixel_delta_u: Vec3,
    pub pixel_delta_v: Vec3,
    pub defocus_disk_u: Vec3,
    pub defocus_disk_v: Vec3,
    pub defocus_enabled: bool,
}

impl ViewportData {
    /// The bounds that keep every generated ray well-formed: the pixel
    /// deltas stay small enough that a whole row or column of steps remains
    /// within the viewport budget.
    pub open spec fn wf(self) -> bool {
        &&& 1 <= self.img_width <= IMG_DIM_MAX
        &&& 1 <= self.img_height <= IMG_DIM_MAX
        &&& self.center.bounded(CAM_POS_MAX as int)
        &&& self.pixel00_loc.bounded(0x42000000)
        &&& -0x2000000 <= self.pixel00_loc.x - self.center.x <= 0x2000000
        &&& -0x2000000 <= self.pixel00_loc.y - self.center.y <= 0x2000000
        &&& -0x2000000 <= self.pixel00_loc.z - self.center.z <= 0x2000000
        &&& self.pixel_delta_u.bounded(0x2000000int / (self.img_width as int))
        &&& self.pixel_delta_v.bounded(0x2000000int / (self.img_height as int))
        &&& self.defocus_disk_u.bounded(0x1000000)
        &&& self.defocus_disk_v.bounded(0x1000000)
    }
}

/// The image height: the width over the aspect ratio, at least one.
pub open spec fn img_height_spec(camera: Camera) -> int {
    let h = tdiv(camera.img_width as int * FX_ONE, camera.aspect_ratio as int);
    if h < 1 {
        1
    } else {
        h
    }
}

/// The defocus-disk basis scale: `focus_dist * tan(defocus_angle / 2)`.
pub open spec fn defocus_radius_spec(camera: Camera) -> int {
    let dhalf = tdiv(camera.defocus_angle as int, 2);
    fx_mul(camera.focus_dist as int, fx_div(sin_fx_spec(dhalf), cos_fx_spec(dhalf)))
}

/// The viewport derivation, with every validity check it performs: `None`
/// is a rejected camera configuration.
pub open spec fn initialize_spec(camera: Camera) -> Option<ViewportData> {
    let img_height = img_height_spec(camera);
    let look = camera.lookfrom.sub_spec(camera.lookat);
    if look.mag2_spec() < 1 {
        None
    } else {
        let wb = look.unit_spec();
        let crossv = camera.vup.cross_spec(wb);
        if !crossv.bounded(0x10000000000) || crossv.mag2_spec() < 1 {
            None
        } else {
            let ub = crossv.unit_spec();
            let vb = wb.cross_spec(ub);
            if !vb.bounded(0x80000) {
                None
            } else {
                let half = tdiv(camera.vfov as int, 2);
                let ch = cos_fx_spec(half);
                if ch < 1 {
                    None
                } else {
                    let tanh = fx_div(sin_fx_spec(half), ch);
                    let viewport_height = 2 * fx_mul(tanh, camera.focus_dist as int);
                    if !(-0x200000000 <= viewport_height <= 0x200000000) {
                        None
                    } else {
                        initialize_tail_spec(camera, img_height, wb, ub, vb,
                            viewport_height)
                    }
                }
            }
        }
    }
}

/// The rest of the derivation, after the camera basis and viewport height.
pub open spec fn initialize_tail_spec(
    camera: Camera,
    img_height: int,
    wb: Vec3,
    ub: Vec3,
    vb: Vec3,
    viewport_height: int,
) -> Option<ViewportData> {
    let viewport_width = fx_mul(viewport_height,
        tdiv(camera.img_width as int * FX_ONE, img_height));
    let viewport_u = ub.scale_spec(viewport_width);
    let viewport_v = vb.neg_spec().scale_spec(viewport_height);
    let pixel_delta_u = viewport_u.divi_spec(camera.img_width as int);
    let pixel_delta_v = viewport_v.divi_spec(img_height);
    let upper_left = camera.lookfrom
        .sub_spec(wb.scale_spec(camera.focus_dist as int))
        .sub_spec(viewport_u.divi_spec(2))
        .sub_spec(viewport_v.divi_spec(2));
    let pixel00_loc = upper_left.add_spec(
        pixel_delta_u.add_spec(pixel_delta_v).scale_spec(FX_HALF as int));
    if camera.defocus_angle > 0 {
        let dhalf = tdiv(camera.defocus_angle as int, 2);
        if cos_fx_spec(dhalf) < 1 {
            None
        } else {
            let dr = defocus_radius_spec(camera);
            if !(-0x100000000 <= dr <= 0x100000000) {
                None
            } else {
                let defocus_disk_u = ub.scale_spec(dr);
                let defocus_disk_v = vb.scale_spec(dr);
                viewport_checked_spec(camera, img_height, pixel00_loc, pixel_delta_u,
                    pixel_delta_v, defocus_disk_u, defocus_disk_v, true)
            }
        }
    } else {
        viewport_checked_spec(camera, img_height, pixel00_loc, pixel_delta_u,
            pixel_delta_v, Vec3::zero_spec(), Vec3::zero_spec(), false)
    }
}

/// The final validity gate over the derived viewport.
pub open spec fn viewport_checked_spec(
    camera: Camera,
    img_height: int,
    pixel00_loc: Point3,
    pixel_delta_u: Vec3,
    pixel_delta_v: Vec3,
    defocus_disk_u: Vec3,
    defocus_disk_v: Vec3,
    defocus_enabled: bool,
) -> Option<ViewportData> {
    let v = ViewportData {
        img_width: camera.img_width,
        img_height: img_height as usize,
        center: camera.lookfrom,
        pixel00_loc,
        pixel_delta_u,
        pixel_delta_v,
        defocus_disk_u,
        defocus_disk_v,
        defocus_enabled,
    };
    if 1 <= img_height <= IMG_DIM_MAX && v.wf() {
        Some(v)
    } else {
        None
    }
}

/// Derive the viewport geometry from the configuration, rejecting any
/// configuration whose geometry degenerates or leaves the representable
/// range.
#[verifier::rlimit(100)]
pub fn initialize(camera: &Camera) -> (r: Result<ViewportData, RenderError>)
    requires
        camera.wf(),
    ensures
        r matches Ok(v) ==> initialize_spec(*camera) == Some(v) && v.wf(),
        r is Err <==> initialize_spec(*camera) is None,
{
    let w_i: i128 = camera.img_width as i128;
    proof {
        lemma_tdiv_shrinks(w_i as int * FX_ONE, camera.aspect_ratio as int);
    }
    let ih0 = tdiv_e(w_i * FX_ONE, camera.aspect_ratio);
    let img_height: i128 = if ih0 < 1 { 1 } else { ih0 };
    let look = camera.lookfrom.sub(&camera.lookat);
    proof {
        lemma_mag2_le(look, 0x80000000int);
    }
    if look.mag2() < 1 {
        return Err(RenderError::InvalidCamera);
    }
    proof {
        lemma_unit_bounded(look, 0x80000000int);
    }
    let wb = look.norm();
    let crossv = camera.vup.cross(&wb);
    if !crossv.bounded_e(0x10000000000) {
        return Err(RenderError::InvalidCamera);
    }
    proof {
        lemma_mag2_le(crossv, 0x10000000000int);
    }
    if crossv.mag2() < 1 {
        return Err(RenderError::InvalidCamera);
    }
    proof {
        lemma_unit_bounded(crossv, 0x10000000000int);
    }
    let ub = crossv.norm();
    let vb = wb.cross(&ub);
    if !vb.bounded_e(0x80000) {
        return Err(RenderError::InvalidCamera);
    }
    proof {
        lemma_tdiv_le(camera.vfov as int, 2, TRIG_IN_MAX as int);
        lemma_tdiv_shrinks(camera.vfov as int, 2);
    }
    let half = tdiv_e(camera.vfov, 2);
    let sh = sin_fx(half);
    let ch = cos_fx(half);
    if ch < 1 {
        return Err(RenderError::InvalidCamera);
    }
    proof {
        assert(-(0x300000000int * 65536) <= (sh as int) * 65536
            <= 0x300000000int * 65536) by (nonlinear_arith)
            requires -196608 <= sh as int <= 196608;
        assert(0x300000000int * 65536 <= 0x300000000int * ((ch as int) * 65536))
            by (nonlinear_arith)
            requires ch as int >= 1;
        assert((0x300000000int * 65536) * (ch as int) == 0x300000000int * ((ch as int) * 65536))
            by (nonlinear_arith);
        lemma_tdiv_le((sh as int) * 65536, ch as int, 0x300000000int * 65536);
    }
    let tanh = fx_div_e(sh, ch);
    proof {
        crate::math::lemma_fx_mul_le(tanh as int, camera.focus_dist as int,
            0x3000000000000int, CAM_POS_MAX as int);
    }
    let vh2 = fx_mul_e(tanh, camera.focus_dist);
    let viewport_height = 2 * vh2;
    if !(-0x200000000 <= viewport_height && viewport_height <= 0x200000000) {
        return Err(RenderError::InvalidCamera);
    }
    proof {
        lemma_tdiv_shrinks(w_i as int * FX_ONE, img_height as int);
        crate::math::lemma_fx_mul_le(viewport_height as int,
            tdiv(w_i as int * FX_ONE, img_height as int), 0x200000000int, 0x40000000int);
    }
    let ratio_wh = tdiv_e(w_i * FX_ONE, img_height);
    let viewport_width = fx_mul_e(viewport_height, ratio_wh);
    proof {
        lemma_scale_bound(ub, viewport_width as int, 2 * FX_ONE as int, 0x1000000000000int);
        lemma_scale_bound(vb.neg_spec(), viewport_height as int, 0x80000int, 0x200000000int);
        lemma_scale_bound(wb, camera.focus_dist as int, 2 * FX_ONE as int,
            CAM_POS_MAX as int);
    }
    let viewport_u = ub.scale(viewport_width);
    let viewport_v = vb.neg().scale(viewport_height);
    let pixel_delta_u = viewport_u.divi(w_i);
    let pixel_delta_v = viewport_v.divi(img_height);
    let wfoc = wb.scale(camera.focus_dist);
    let hu = viewport_u.divi(2);
    let hv = viewport_v.divi(2);
    let upper_left = camera.lookfrom.sub(&wfoc).sub(&hu).sub(&hv);
    let dudv = pixel_delta_u.add(&pixel_delta_v);
    proof {
        lemma_scale_bound(dudv, FX_HALF as int, 0x4000000000000int, FX_HALF as int);
    }
    let halfstep = dudv.scale(FX_HALF);
    let pixel00_loc = upper_left.add(&halfstep);
    let mut defocus_disk_u = Vec3::zero();
    let mut defocus_disk_v = Vec3::zero();
    let mut defocus_enabled = false;
    if camera.defocus_angle > 0 {
        proof {
            lemma_tdiv_le(camera.defocus_angle as int, 2, TRIG_IN_MAX as int);
            lemma_tdiv_shrinks(camera.defocus_angle as int, 2);
        }
        let dhalf = tdiv_e(camera.defocus_angle, 2);
        let dsh = sin_fx(dhalf);
        let dch = cos_fx(dhalf);
        if dch < 1 {
            return Err(RenderError::InvalidCamera);
        }
        proof {
            assert(-(0x300000000int * 65536) <= (dsh as int) * 65536
                <= 0x300000000int * 65536) by (nonlinear_arith)
                requires -196608 <= dsh as int <= 196608;
            assert(0x300000000int * 65536 <= 0x300000000int * ((dch as int) * 65536))
                by (nonlinear_arith)
                requires dch as int >= 1;
            assert((0x300000000int * 65536) * (dch as int)
                == 0x300000000int * ((dch as int) * 65536)) by (nonlinear_arith);
            lemma_tdiv_le((dsh as int) * 65536, dch as int, 0x300000000int * 65536);
            crate::math::lemma_fx_mul_le(camera.focus_dist as int,
                fx_div(dsh as int, dch as int), CAM_POS_MAX as int, 0x3000000000000int);
        }
        let dtan = fx_div_e(dsh, dch);
        let dr = fx_mul_e(camera.focus_dist, dtan);
        if !(-0x100000000 <= dr && dr <= 0x100000000) {
            return Err(RenderError::InvalidCamera);
        }
        proof {
            lemma_scale_bound(ub, dr as int, 2 * FX_ONE as int, 0x100000000int);
            lemma_scale_bound(vb, dr as int, 0x80000int, 0x100000000int);
        }
        defocus_disk_u = ub.scale(dr);
        defocus_disk_v = vb.scale(dr);
        defocus_enabled = true;
    }
    let v = ViewportData {
        img_width: camera.img_width,
        img_height: img_height as usize,
        center: camera.lookfrom,
        pixel00_loc,
        pixel_delta_u,
        pixel_delta_v,
        defocus_disk_u,
        defocus_disk_v,
        defocus_enabled,
    };
    if 1 <= img_height && img_height <= 16384
        && v.center.bounded_e(CAM_POS_MAX)
        && v.pixel00_loc.bounded_e(0x42000000)
        && -0x2000000 <= v.pixel00_loc.x - v.center.x
        && v.pixel00_loc.x - v.center.x <= 0x2000000
        && -0x2000000 <= v.pixel00_loc.y - v.center.y
        && v.pixel00_loc.y - v.center.y <= 0x2000000
        && -0x2000000 <= v.pixel00_loc.z - v.center.z
        && v.pixel00_loc.z - v.center.z <= 0x2000000
        && v.pixel_delta_u.bounded_e(0x2000000 / w_i)
        && v.pixel_delta_v.bounded_e(0x2000000 / img_height)
        && v.defocus_disk_u.bounded_e(0x1000000)
        && v.defocus_disk_v.bounded_e(0x1000000)
    {
        Ok(v)
    } else {
        Err(RenderError::InvalidCamera)
    }
}

/// A sub-pixel jitter offset: both coordinates uniform in `[-1/2, 1/2)`.
pub fn sample_square(rng: &mut Xoshiro256Plus) -> (r: Vec3)
    ensures
        -FX_HALF <= r.x < FX_HALF,
        -FX_HALF <= r.y < FX_HALF,
        r.z == 0,
{
    let x = rand_fx(rng) - FX_HALF;
    let y = rand_fx(rng) - FX_HALF;
    Vec3 { x, y, z: 0 }
}

/// The ray cast for pixel `(i, j)`, given the jitter offsets `(ox, oy)` and
/// the defocus-disk sample `p`: from the (possibly lens-offset) camera
/// center through the jittered pixel position.
pub open spec fn get_ray_spec(v: ViewportData, i: int, j: int, ox: int, oy: int, p: Vec3)
    -> Ray
{
    let pixel_sample = v.pixel00_loc
        .add_spec(v.pixel_delta_u.scale_spec(i * FX_ONE + ox))
        .add_spec(v.pixel_delta_v.scale_spec(j * FX_ONE + oy));
    let origin = if v.defocus_enabled {
        v.center.add_spec(v.defocus_disk_u.scale_spec(p.x as int))
            .add_spec(v.defocus_disk_v.scale_spec(p.y as int))
    } else {
        v.center
    };
    Ray { orig: origin, dir: pixel_sample.sub_spec(origin) }
}

/// Cast one jittered ray through pixel `(i, j)`.
pub fn get_ray(rng: &mut Xoshiro256Plus, v_data: &ViewportData, i: usize, j: usize)
    -> (r: Ray)
    requires
        v_data.wf(),
        i < v_data.img_width,
        j < v_data.img_height,
    ensures
        r.wf(),
        exists|ox: int, oy: int, p: Vec3|
            -FX_HALF <= ox < FX_HALF && -FX_HALF <= oy < FX_HALF
            && p.bounded(FX_ONE as int) && p.z == 0 && p.mag2_spec() < FX_ONE
            && r == #[trigger] get_ray_spec(*v_data, i as int, j as int, ox, oy, p),
{
    let offset = sample_square(rng);
    let ifx = (i as i128) * FX_ONE + offset.x;
    let jfx = (j as i128) * FX_ONE + offset.y;
    proof {
        lemma_delta_step_bound(v_data.pixel_delta_u, v_data.img_width as int, i as int,
            ifx as int);
        lemma_delta_step_bound(v_data.pixel_delta_v, v_data.img_height as int, j as int,
            jfx as int);
    }
    let iterm = v_data.pixel_delta_u.scale(ifx);
    let jterm = v_data.pixel_delta_v.scale(jfx);
    let pixel_sample = v_data.pixel00_loc.add(&iterm).add(&jterm);
    let mut disk = Vec3::zero();
    let mut ray_origin = v_data.center;
    if v_data.defocus_enabled {
        let p = random_in_unit_disk(rng);
        proof {
            lemma_scale_bound(v_data.defocus_disk_u, p.x as int, 0x1000000int,
                FX_ONE as int);
            lemma_scale_bound(v_data.defocus_disk_v, p.y as int, 0x1000000int,
                FX_ONE as int);
        }
        let du = v_data.defocus_disk_u.scale(p.x);
        let dv = v_data.defocus_disk_v.scale(p.y);
        ray_origin = v_data.center.add(&du).add(&dv);
        disk = p;
    }
    let ray_direction = pixel_sample.sub(&ray_origin);
    let r = Ray::new(ray_origin, ray_direction);
    proof {
        crate::math::lemma_mag2_nonneg(Vec3 { x: 0, y: 0, z: 0 });
        if !v_data.defocus_enabled {
            assert((Vec3 { x: 0, y: 0, z: 0 }).mag2_spec() == 0) by {
                lemma_tdiv_basics(65536);
                assert(0int == 0int * 65536) by (nonlinear_arith);
            }
        }
        assert(-FX_HALF <= offset.x < FX_HALF && -FX_HALF <= offset.y < FX_HALF
            && disk.bounded(FX_ONE as int) && disk.z == 0 && disk.mag2_spec() < FX_ONE
            && r == get_ray_spec(*v_data, i as int, j as int, offset.x as int,
                offset.y as int, disk));
    }
    r
}

/// One admissible sample for pixel `(i, j)`: the integrator's guarantees,
/// taken at some jittered ray of that pixel (sub-pixel offsets in
/// `[-1/2, 1/2)`, lens sample in the unit disk). In particular a sample
/// whose ray misses the scene is exactly the background of that ray.
pub open spec fn pixel_sample_ok<H: Hittable>(
    world: H,
    v: ViewportData,
    i: int,
    j: int,
    max_depth: int,
    s: Color,
) -> bool {
    exists|ox: int, oy: int, p: Vec3|
        -FX_HALF <= ox < FX_HALF && -FX_HALF <= oy < FX_HALF
        && p.bounded(FX_ONE as int) && p.z == 0 && p.mag2_spec() < FX_ONE
        && ray_color_post(world, max_depth, #[trigger] get_ray_spec(v, i, j, ox, oy, p), s)
}

/// The componentwise sum of a sequence of colors.
pub open spec fn color_sum(samples: Seq<Color>) -> Color
    decreases samples.len(),
{
    if samples.len() == 0 {
        Vec3::zero_spec()
    } else {
        color_sum(samples.drop_last()).add_spec(samples.last())
    }
}

/// The pixel at row-major index `k` of a rendered image of width `w`: the
/// truncated per-component mean of `spp` admissible samples of pixel
/// `(k % w, k / w)`.
pub open spec fn pixel_from_samples_ok<H: Hittable>(
    world: H,
    v: ViewportData,
    w: int,
    spp: int,
    max_depth: int,
    k: int,
    c: Color,
) -> bool {
    exists|samples: Seq<Color>|
        samples.len() == spp
        && (forall|n: int| 0 <= n < samples.len()
            ==> pixel_sample_ok(world, v, k % w, k / w, max_depth, #[trigger] samples[n]))
        && c == (#[trigger] color_sum(samples)).divi_spec(spp)
}

/// The pixel lines of the image body, joined by single newlines.
pub open spec fn ppm_body_spec(colors: Seq<Vec3>) -> Seq<char>
    decreases colors.len(),
{
    if colors.len() == 0 {
        Seq::empty()
    } else if colors.len() == 1 {
        format_color_spec(colors[0])
    } else {
        ppm_body_spec(colors.drop_last()) + seq!['\n'] + format_color_spec(colors.last())
    }
}

/// The complete textual image: the `P3` header with the dimensions and the
/// maximum channel value, then one line per pixel in row-major order.
pub open spec fn ppm_spec(w: int, h: int, colors: Seq<Vec3>) -> Seq<char> {
    seq!['P', '3', '\n'] + dec_spec(w) + seq![' '] + dec_spec(h)
        + seq!['\n', '2', '5', '5', '\n'] + ppm_body_spec(colors)
}

/// Render the scene: derive the viewport, estimate every pixel's color from
/// `samples_per_pixel` jittered rays (each pixel's generator seeded from its
/// row-major index), and lay the quantized pixels out as `P3` text.
pub fn render<H: Hittable>(camera: &Camera, world: &H) -> (r: Result<String, RenderError>)
    requires
        camera.wf(),
        world.hit_wf(),
    ensures
        r is Ok <==> initialize_spec(*camera) is Some,
        r matches Ok(s) ==> exists|colors: Seq<Vec3>| {
            &&& (#[trigger] colors.len())
                == camera.img_width * (initialize_spec(*camera).unwrap().img_height as int)
            &&& forall|k: int| 0 <= k < colors.len() ==> color_wf(#[trigger] colors[k])
            &&& forall|k: int| 0 <= k < colors.len()
                ==> pixel_from_samples_ok(*world, initialize_spec(*camera).unwrap(),
                    camera.img_width as int, camera.samples_per_pixel as int,
                    camera.max_depth as int, k, #[trigger] colors[k])
            &&& s@ == ppm_spec(camera.img_width as int,
                initialize_spec(*camera).unwrap().img_height as int, colors)
        },
{
    let v_data = match initialize(camera) {
        Ok(v) => v,
        Err(e) => {
            return Err(e);
        },
    };
    let w = camera.img_width;
    let h = v_data.img_height;
    let spp = camera.samples_per_pixel;
    proof {
        assert(v_data.img_width == camera.img_width);
    }
    proof {
        reveal_strlit("P3\n");
        reveal_strlit(" ");
        reveal_strlit("\n255\n");
        reveal_strlit("\n");
    }
    let mut out = String::new();
    out.append("P3\n");
    append_decimal(&mut out, w as i128);
    out.append(" ");
    append_decimal(&mut out, h as i128);
    out.append("\n255\n");
    let ghost mut colors: Seq<Vec3> = Seq::empty();
    proof {
        assert(out@ =~= ppm_spec(w as int, h as int, colors));
    }
    let mut j: usize = 0;
    while j < h
        invariant
            camera.wf(),
            world.hit_wf(),
            v_data.wf(),
            w == camera.img_width,
            w == v_data.img_width,
            h == v_data.img_height,
            spp == camera.samples_per_pixel,
            0 <= j <= h,
            colors.len() == j * w,
            forall|k: int| 0 <= k < colors.len() ==> color_wf(#[trigger] colors[k]),
            forall|k: int| 0 <= k < colors.len()
                ==> pixel_from_samples_ok(*world, v_data, w as int, spp as int,
                    camera.max_depth as int, k, #[trigger] colors[k]),
            out@ == ppm_spec(w as int, h as int, colors),
        decreases h - j,
    {
        let mut i: usize = 0;
        while i < w
            invariant
                camera.wf(),
                world.hit_wf(),
                v_data.wf(),
                w == camera.img_width,
                w == v_data.img_width,
                h == v_data.img_height,
                spp == camera.samples_per_pixel,
                0 <= j < h,
                0 <= i <= w,
                colors.len() == j * w + i,
                forall|k: int| 0 <= k < colors.len() ==> color_wf(#[trigger] colors[k]),
                forall|k: int| 0 <= k < colors.len()
                    ==> pixel_from_samples_ok(*world, v_data, w as int, spp as int,
                        camera.max_depth as int, k, #[trigger] colors[k]),
                out@ == ppm_spec(w as int, h as int, colors),
            decreases w - i,
        {
            proof {
                assert(j * w + i < 16384 * 16384) by (nonlinear_arith)
                    requires 0 <= j < 16384 && 0 <= i < w <= 16384;
                assert(j * w + i >= 0) by (nonlinear_arith)
                    requires j >= 0 && w >= 0 && i >= 0;
            }
            let seed = ((j * w + i) as u64) ^ 1234;
            let mut rng = rng_from_seed(seed);
            let mut pixel_sum = Vec3::zero();
            let ghost mut samples: Seq<Color> = Seq::empty();
            let mut s: usize = 0;
            while s < spp
                invariant
                    camera.wf(),
                    world.hit_wf(),
                    v_data.wf(),
                    w == camera.img_width,
                    w == v_data.img_width,
                    h == v_data.img_height,
                    0 <= j < h,
                    0 <= i < w,
                    0 <= s <= spp,
                    spp == camera.samples_per_pixel,
                    0 <= pixel_sum.x <= s * FX_ONE,
                    0 <= pixel_sum.y <= s * FX_ONE,
                    0 <= pixel_sum.z <= s * FX_ONE,
                    samples.len() == s,
                    forall|n: int| 0 <= n < samples.len()
                        ==> pixel_sample_ok(*world, v_data, i as int, j as int,
                            camera.max_depth as int, #[trigger] samples[n]),
                    pixel_sum == color_sum(samples),
                decreases spp - s,
            {
                let ray = get_ray(&mut rng, &v_data, i, j);
                let c = ray_color(&mut rng, camera.max_depth, &ray, world);
                proof {
                    assert((s + 1) * FX_ONE == s * FX_ONE + FX_ONE) by (nonlinear_arith);
                    let (ox, oy, p) = choose|ox: int, oy: int, p: Vec3|
                        -FX_HALF <= ox < FX_HALF && -FX_HALF <= oy < FX_HALF
                        && p.bounded(FX_ONE as int) && p.z == 0 && p.mag2_spec() < FX_ONE
                        && ray == get_ray_spec(v_data, i as int, j as int, ox, oy, p);
                    assert(ray_color_post(*world, camera.max_depth as int,
                        get_ray_spec(v_data, i as int, j as int, ox, oy, p), c));
                    assert(pixel_sample_ok(*world, v_data, i as int, j as int,
                        camera.max_depth as int, c));
                    let prev_samples = samples;
                    samples = samples.push(c);
                    assert(samples.drop_last() =~= prev_samples);
                    assert(samples.last() == c);
                }
                pixel_sum = pixel_sum.add(&c);
                s = s + 1;
            }
            proof {
                lemma_tdiv_shrinks(pixel_sum.x as int, spp as int);
                lemma_tdiv_shrinks(pixel_sum.y as int, spp as int);
                lemma_tdiv_shrinks(pixel_sum.z as int, spp as int);
                lemma_tdiv_le(pixel_sum.x as int, spp as int, FX_ONE as int);
                lemma_tdiv_le(pixel_sum.y as int, spp as int, FX_ONE as int);
                lemma_tdiv_le(pixel_sum.z as int, spp as int, FX_ONE as int);
                assert(spp * FX_ONE <= 65536 * 65536) by (nonlinear_arith)
                    requires 0 <= spp <= 65536;
            }
            let pixel = pixel_sum.divi(spp as i128);
            proof {
                assert(0 <= pixel.x <= FX_ONE && 0 <= pixel.y <= FX_ONE
                    && 0 <= pixel.z <= FX_ONE);
            }
            if j > 0 || i > 0 {
                out.append("\n");
            }
            let line = format_color(pixel);
            out.append(line.as_str());
            proof {
                reveal_strlit("\n");
                if j > 0 {
                    assert(j * w >= w) by (nonlinear_arith)
                        requires j >= 1 && w >= 1;
                }
                let prev = colors;
                colors = colors.push(pixel);
                assert(colors.drop_last() =~= prev);
                assert(colors.last() == pixel);
                if prev.len() == 0 {
                    assert(ppm_body_spec(colors) =~= format_color_spec(pixel));
                }
                assert(out@ =~= ppm_spec(w as int, h as int, colors));
                // The new entry is the mean of its sample log, at its
                // row-major index.
                let k = j * w + i;
                vstd::arithmetic::div_mod::lemma_fundamental_div_mod_converse(
                    k as int, w as int, j as int, i as int);
                assert(pixel == color_sum(samples).divi_spec(spp as int));
                assert(pixel_from_samples_ok(*world, v_data, w as int, spp as int,
                    camera.max_depth as int, k as int, pixel));
                assert forall|kk: int| 0 <= kk < colors.len()
                    implies pixel_from_samples_ok(*world, v_data, w as int, spp as int,
                        camera.max_depth as int, kk, #[trigger] colors[kk]) by {
                    if kk < prev.len() {
                        assert(colors[kk] == prev[kk]);
                    } else {
                        assert(colors[kk] == pixel);
                    }
                }
            }
            i = i + 1;
        }
        j = j + 1;
        proof {
            assert(j * w == (j - 1) * w + w) by (nonlinear_arith);
        }
    }
    proof {
        assert(colors.len() == h * w);
        assert(h * w == w * (v_data.img_height as int)) by (nonlinear_arith)
            requires h == v_data.img_height;
        assert(camera.img_width * (initialize_spec(*camera).unwrap().img_height as int)
            == colors.len());
        assert(initialize_spec(*camera).unwrap() == v_data);
    }
    Ok(out)
}

/// Stepping a pixel delta across the image stays within the viewport
/// budget: with the delta bounded by `budget / dim` and a step index below
/// `dim`, the scaled delta is bounded by the budget (plus one for
/// truncation).
proof fn lemma_delta_step_bound(delta: Vec3, dim: int, step: int, stepfx: int)
    requires
        1 <= dim <= IMG_DIM_MAX,
        delta.bounded(0x2000000int / dim),
        0 <= step < dim,
        step * FX_ONE - FX_HALF <= stepfx < step * FX_ONE + FX_ONE,
    ensures
        delta.scale_spec(stepfx).bounded(0x2000001),
{
    let bd = 0x2000000int / dim;
    assert(bd >= 0) by {
        vstd::arithmetic::div_mod::lemma_div_pos_is_pos(0x2000000, dim);
    }
    assert(-(dim * 65536) <= stepfx <= dim * 65536) by (nonlinear_arith)
        requires 0 <= step <= dim - 1
            && step * 65536 - 32768 <= stepfx < step * 65536 + 65536
            && FX_ONE == 65536 && FX_HALF == 32768;
    lemma_scale_bound(delta, stepfx, bd, dim * 65536);
    // (bd * (dim * 65536)) / 65536 + 1 == bd * dim + 1 <= 0x2000000 + 1.
    assert(bd * (dim * 65536) == (bd * dim) * 65536) by (nonlinear_arith);
    assert(bd * dim >= 0) by (nonlinear_arith)
        requires bd >= 0 && dim >= 1;
    vstd::arithmetic::div_mod::lemma_div_by_multiple(bd * dim, 65536);
    vstd::arithmetic::div_mod::lemma_fundamental_div_mod(0x2000000, dim);
    vstd::arithmetic::div_mod::lemma_mod_division_less_than_divisor(0x2000000, dim);
    assert(bd * dim <= 0x2000000) by (nonlinear_arith)
        requires 0x2000000 == dim * bd + 0x2000000int % dim && 0x2000000int % dim >= 0;
}

/// Componentwise bound for fixed-point vector scaling.
proof fn lemma_scale_bound(v: Vec3, k: int, cv: int, ck: int)
    requires
        v.bounded(cv),
        -ck <= k <= ck,
        0 <= cv,
        0 <= ck,
    ensures
        v.scale_spec(k).bounded((cv * ck) / (FX_ONE as int) + 1),
{
    crate::math::lemma_fx_mul_le(v.x as int, k, cv, ck);
    crate::math::lemma_fx_mul_le(v.y as int, k, cv, ck);
    crate::math::lemma_fx_mul_le(v.z as int, k, cv, ck);
}

} // verus!
