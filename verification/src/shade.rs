//! The recursive shading engine.
//!
//! `get_color_with_jitters` is the deterministic core: given the scene, a
//! ray, a recursion depth and the shadow-jitter offsets for every recursion
//! level, it computes the final clamped colour, pinned down exactly by
//! `shade_spec`. `get_color` draws the jitters at random (through the one
//! trusted call into `rand`) and hands them to the core, so its result is the
//! deterministic shade for some admissible jitter set.
//!
//! The recursive bounce follows the mirrored view ray: the recursion's
//! direction is `reflect(-ray_dir, normal)`, the reflection of the incoming
//! ray about the surface normal. The specular term keeps the reflected light
//! direction, as the local lighting model asks.

use crate::fixed::{
    clamp_i64, clamp_spec, div_trunc, fdiv, lemma_fdiv_bounds, lemma_fdiv_exact, lemma_fdiv_le,
    mul_fix, pow_fix, pow_fix_spec, FP_ONE,
};
use crate::geom::{
    collide_spec, collider_color, collider_reflectivity, color_wf, CollisionM, ColliderM,
    COLOR_MAX, DIR_MAX,
};
use crate::scene::{nearest_hit_spec, scene_wf, Scene};
use crate::vector::{
    lemma_mul_fix_bound, lemma_reflect_bound, lemma_v3_dot_bound, v3_add, v3_bounded, v3_dot,
    v3_magnitude, v3_neg, v3_normalize, v3_reflect, v3_sub, v3_zero, Vector3, V3, MAX_COORD,
};
use rand::Rng;
use vstd::prelude::*;

verus! {

/// Largest recursion depth that still casts rays: one reflective bounce
/// beyond the primary ray.
pub const MAX_DEPTH: u8 = 1;

/// Largest raw jitter offset per axis for soft shadows: 0.02 in fixed point.
pub const JITTER_MAX: i64 = 1310;

/// Mathematical model of a `ShadowMode`.
pub ghost enum ShadowModeM {
    Hard,
    Soft { samples: int },
}

/// The shadow policy: one exact shadow ray, or a number of jittered rays
/// whose blocked fraction attenuates the light.
#[derive(Clone, Copy, Debug)]
pub enum ShadowMode {
    Hard,
    Soft { samples: u32 },
}

impl View for ShadowMode {
    type V = ShadowModeM;

    open spec fn view(&self) -> ShadowModeM {
        match self {
            ShadowMode::Hard => ShadowModeM::Hard,
            ShadowMode::Soft { samples } => ShadowModeM::Soft { samples: *samples as int },
        }
    }
}

/// Mathematical model of a `Config`.
pub ghost struct ConfigM {
    pub light_point: V3,
    pub shininess: int,
    pub specular_weight: int,
    pub shadow: ShadowModeM,
    pub attenuation: bool,
}

/// The immutable lighting configuration threaded through the shading engine.
#[derive(Clone, Copy, Debug)]
pub struct Config {
    pub light_point: Vector3,
    pub shininess: u32,
    pub specular_weight: i64,
    pub shadow: ShadowMode,
    pub attenuation: bool,
}

impl View for Config {
    type V = ConfigM;

    open spec fn view(&self) -> ConfigM {
        ConfigM {
            light_point: self.light_point@,
            shininess: self.shininess as int,
            specular_weight: self.specular_weight as int,
            shadow: self.shadow@,
            attenuation: self.attenuation,
        }
    }
}

/// Well-formed configuration: the light inside the world, the specular
/// weight in `[0, 1]`, and a positive, bounded soft-shadow sample count.
pub open spec fn config_wf(c: ConfigM) -> bool {
    &&& v3_bounded(c.light_point, MAX_COORD as int)
    &&& 0 <= c.specular_weight <= FP_ONE as int
    &&& c.shadow matches ShadowModeM::Soft { samples } ==> 1 <= samples <= 4096
}

/// Bound admitted for the ray direction at each recursion depth: the camera
/// hands in directions bounded by `3 * FP_ONE`, and one reflection widens the
/// bound at most sevenfold.
pub open spec fn dir_limit(depth: int) -> int {
    if depth == 0 {
        3 * (FP_ONE as int)
    } else {
        21 * (FP_ONE as int)
    }
}

/// Some object of the scene blocks the ray from `point` toward `sdir`.
pub open spec fn blocked_spec(objs: Seq<ColliderM>, point: V3, sdir: V3) -> bool {
    exists|j: int|
        0 <= j < objs.len() && (#[trigger] collide_spec(objs[j], point, sdir)) is Some
}

/// The direction of one jittered shadow ray: the light direction perturbed
/// by the offset, renormalised.
pub open spec fn jitter_dir_spec(light_dir: V3, j: V3) -> V3 {
    v3_normalize(v3_add(light_dir, j))
}

/// How many of the jittered shadow rays are blocked.
pub open spec fn count_blocked_spec(objs: Seq<ColliderM>, point: V3, light_dir: V3, js: Seq<V3>) -> int
    decreases js.len(),
{
    if js.len() == 0 {
        0
    } else {
        count_blocked_spec(objs, point, light_dir, js.drop_last()) + if blocked_spec(
            objs,
            point,
            jitter_dir_spec(light_dir, js.last()),
        ) {
            1int
        } else {
            0int
        }
    }
}

/// The blocked count lies between zero and the number of samples.
pub proof fn lemma_count_blocked_range(objs: Seq<ColliderM>, point: V3, light_dir: V3, js: Seq<V3>)
    ensures
        0 <= count_blocked_spec(objs, point, light_dir, js) <= js.len(),
    decreases js.len(),
{
    if js.len() > 0 {
        lemma_count_blocked_range(objs, point, light_dir, js.drop_last());
    }
}

/// The light intensity multiplier in fixed point. Hard shadows: zero when
/// the single shadow ray is blocked, one otherwise. Soft shadows: one minus
/// the blocked fraction of the jittered rays.
pub open spec fn intensity_spec(
    objs: Seq<ColliderM>,
    mode: ShadowModeM,
    point: V3,
    light_dir: V3,
    js: Seq<V3>,
) -> int {
    match mode {
        ShadowModeM::Hard => if blocked_spec(objs, point, light_dir) {
            0
        } else {
            FP_ONE as int
        },
        ShadowModeM::Soft { samples } => fdiv(
            (FP_ONE as int) * (samples - count_blocked_spec(objs, point, light_dir, js)),
            samples,
        ),
    }
}

/// Optional inverse-distance attenuation of the light intensity.
pub open spec fn apply_attenuation(enabled: bool, base: int, dist: int) -> int {
    if enabled && dist > 0 {
        fdiv(base * (FP_ONE as int), dist)
    } else {
        base
    }
}

/// The nonnegative part.
pub open spec fn max0(v: int) -> int {
    if v < 0 {
        0
    } else {
        v
    }
}

/// The local (Phong-like) colour at a hit: diffuse lighting scaled by the
/// surface colour, plus a white specular highlight.
pub open spec fn local_color_spec(
    obj: ColliderM,
    cfg: ConfigM,
    hit: CollisionM,
    light_dir: V3,
    ray_dir: V3,
    intensity: int,
) -> V3 {
    let albedo = collider_color(obj);
    let dfac = fdiv(intensity * max0(v3_dot(hit.normal, light_dir)), FP_ONE as int);
    let diffuse = V3 {
        x: fdiv(dfac * albedo.x, FP_ONE as int),
        y: fdiv(dfac * albedo.y, FP_ONE as int),
        z: fdiv(dfac * albedo.z, FP_ONE as int),
    };
    let lrefl = v3_reflect(light_dir, hit.normal);
    let base = clamp_spec(v3_dot(lrefl, v3_neg(ray_dir)), 0, FP_ONE as int);
    let spec_i = fdiv(intensity * pow_fix_spec(base, cfg.shininess as nat), FP_ONE as int);
    let white_fac = fdiv(
        fdiv((COLOR_MAX as int) * spec_i, FP_ONE as int) * cfg.specular_weight,
        FP_ONE as int,
    );
    v3_add(diffuse, V3 { x: white_fac, y: white_fac, z: white_fac })
}

/// Blending of the local colour with the recursively traced reflection,
/// weighted by the reflectivity, each channel clamped to `[0, 255]`.
pub open spec fn blend_spec(local: V3, rec: V3, refl: int) -> V3 {
    V3 {
        x: clamp_spec(
            fdiv(local.x * ((FP_ONE as int) - refl), FP_ONE as int) + fdiv(
                rec.x * refl,
                FP_ONE as int,
            ),
            0,
            COLOR_MAX as int,
        ),
        y: clamp_spec(
            fdiv(local.y * ((FP_ONE as int) - refl), FP_ONE as int) + fdiv(
                rec.y * refl,
                FP_ONE as int,
            ),
            0,
            COLOR_MAX as int,
        ),
        z: clamp_spec(
            fdiv(local.z * ((FP_ONE as int) - refl), FP_ONE as int) + fdiv(
                rec.z * refl,
                FP_ONE as int,
            ),
            0,
            COLOR_MAX as int,
        ),
    }
}

/// The exact colour of a ray. Depths beyond `MAX_DEPTH` and rays that hit
/// nothing shade to black; otherwise the local colour at the nearest hit is
/// blended with the recursive shade of the mirrored view ray. `jss` holds the
/// soft-shadow jitter offsets used at each recursion depth.
pub open spec fn shade_spec(
    objs: Seq<ColliderM>,
    cfg: ConfigM,
    origin: V3,
    dir: V3,
    depth: int,
    jss: Seq<Seq<V3>>,
) -> V3
    decreases MAX_DEPTH as int + 1 - depth,
{
    if depth > MAX_DEPTH as int {
        v3_zero()
    } else {
        match nearest_hit_spec(objs, origin, dir) {
            None => v3_zero(),
            Some(ih) => {
                let obj = objs[ih.0];
                let hit = ih.1;
                let light_vec = v3_sub(cfg.light_point, hit.hit_point);
                let light_dir = v3_normalize(light_vec);
                let js = if depth < jss.len() {
                    jss[depth]
                } else {
                    Seq::<V3>::empty()
                };
                let base_i = intensity_spec(objs, cfg.shadow, hit.hit_point, light_dir, js);
                let intensity = apply_attenuation(
                    cfg.attenuation,
                    base_i,
                    v3_magnitude(light_vec),
                );
                let local = local_color_spec(obj, cfg, hit, light_dir, dir, intensity);
                let bounce = v3_reflect(v3_neg(dir), hit.normal);
                let rec = shade_spec(objs, cfg, hit.hit_point, bounce, depth + 1, jss);
                blend_spec(local, rec, collider_reflectivity(obj))
            },
        }
    }
}

/// The empty jitter set: every level falls back to no jitters.
pub open spec fn no_jitters() -> Seq<Seq<V3>> {
    Seq::<Seq<V3>>::empty()
}

/// Under hard shadows the jitters are never consulted: the shade is the same
/// for every jitter set.
pub proof fn lemma_shade_hard_ignores_jitters(
    objs: Seq<ColliderM>,
    cfg: ConfigM,
    origin: V3,
    dir: V3,
    depth: int,
    jss: Seq<Seq<V3>>,
)
    requires
        cfg.shadow is Hard,
    ensures
        shade_spec(objs, cfg, origin, dir, depth, jss) == shade_spec(
            objs,
            cfg,
            origin,
            dir,
            depth,
            no_jitters(),
        ),
    decreases MAX_DEPTH as int + 1 - depth,
{
    if depth > MAX_DEPTH as int {
    } else {
        match nearest_hit_spec(objs, origin, dir) {
            None => {},
            Some(ih) => {
                let hit = ih.1;
                let bounce = v3_reflect(v3_neg(dir), hit.normal);
                lemma_shade_hard_ignores_jitters(objs, cfg, hit.hit_point, bounce, depth + 1, jss);
            },
        }
    }
}

/// True when some object blocks the ray from `point` toward `sdir`.
pub fn shadow_blocked(scene: &Scene, point: Vector3, sdir: Vector3) -> (r: bool)
    requires
        scene_wf(scene@),
        v3_bounded(point@, MAX_COORD as int),
        v3_bounded(sdir@, DIR_MAX as int),
    ensures
        r == blocked_spec(scene@, point@, sdir@),
{
    let mut i: usize = 0;
    while i < scene.objects.len()
        invariant
            scene_wf(scene@),
            v3_bounded(point@, MAX_COORD as int),
            v3_bounded(sdir@, DIR_MAX as int),
            scene@.len() == scene.objects@.len(),
            i <= scene.objects.len(),
            forall|j: int|
                0 <= j < i ==> (#[trigger] collide_spec(scene@[j], point@, sdir@)) is None,
        decreases scene.objects.len() - i,
    {
        proof {
            assert(scene@[i as int] == scene.objects@[i as int]@);
        }
        if scene.objects[i].collide(point, sdir).is_some() {
            return true;
        }
        i = i + 1;
    }
    false
}

/// The view of a vector of jitter offsets.
pub open spec fn jitter_seq_view(js: Seq<Vector3>) -> Seq<V3> {
    js.map_values(|v: Vector3| v@)
}

/// Counts how many of the jittered shadow rays from `point` are blocked.
pub fn soft_shadow_count(
    scene: &Scene,
    point: Vector3,
    light_dir: Vector3,
    js: &Vec<Vector3>,
) -> (r: usize)
    requires
        scene_wf(scene@),
        v3_bounded(point@, MAX_COORD as int),
        v3_bounded(light_dir@, FP_ONE as int),
        forall|k: int| 0 <= k < js@.len() ==> v3_bounded(#[trigger] js@[k]@, JITTER_MAX as int),
    ensures
        r == count_blocked_spec(scene@, point@, light_dir@, jitter_seq_view(js@)),
        r <= js@.len(),
{
    let mut count: usize = 0;
    let mut i: usize = 0;
    proof {
        assert(jitter_seq_view(js@.take(0)) =~= Seq::<V3>::empty());
    }
    while i < js.len()
        invariant
            scene_wf(scene@),
            v3_bounded(point@, MAX_COORD as int),
            v3_bounded(light_dir@, FP_ONE as int),
            forall|k: int|
                0 <= k < js@.len() ==> v3_bounded(#[trigger] js@[k]@, JITTER_MAX as int),
            i <= js@.len(),
            count <= i,
            count == count_blocked_spec(scene@, point@, light_dir@, jitter_seq_view(js@.take(i as int))),
        decreases js@.len() - i,
    {
        let sd = light_dir.add(js[i]).normalize();
        let hit = shadow_blocked(scene, point, sd);
        proof {
            let pre = jitter_seq_view(js@.take(i as int + 1));
            assert(pre.drop_last() =~= jitter_seq_view(js@.take(i as int)));
            assert(pre.last() == js@[i as int]@);
            assert(sd@ == jitter_dir_spec(light_dir@, js@[i as int]@));
        }
        if hit {
            count = count + 1;
        }
        i = i + 1;
    }
    proof {
        assert(js@.take(i as int) =~= js@);
    }
    count
}

/// Relies on `rand::Rng::gen_range` over a nonempty inclusive `i64` range:
/// the sampled value lies within the given bounds.
#[verifier::external_body]
fn random_jitter() -> (r: i64)
    ensures
        -JITTER_MAX <= r <= JITTER_MAX,
{
    rand::thread_rng().gen_range(-JITTER_MAX..=JITTER_MAX)
}

/// One random jitter offset, each axis within `JITTER_MAX`.
fn random_jitter_vec() -> (r: Vector3)
    ensures
        v3_bounded(r@, JITTER_MAX as int),
{
    Vector3 { x: random_jitter(), y: random_jitter(), z: random_jitter() }
}

/// Draws `levels` groups of `samples` random jitter offsets.
fn sample_jitters(levels: usize, samples: usize) -> (r: Vec<Vec<Vector3>>)
    ensures
        r@.len() == levels,
        forall|l: int| 0 <= l < levels ==> (#[trigger] r@[l])@.len() == samples,
        forall|l: int, k: int|
            0 <= l < levels && 0 <= k < samples ==> v3_bounded(#[trigger] r@[l]@[k]@, JITTER_MAX as int),
{
    let mut out: Vec<Vec<Vector3>> = Vec::new();
    let mut l: usize = 0;
    while l < levels
        invariant
            l <= levels,
            out@.len() == l,
            forall|a: int| 0 <= a < l ==> (#[trigger] out@[a])@.len() == samples,
            forall|a: int, k: int|
                0 <= a < l && 0 <= k < samples ==> v3_bounded(#[trigger] out@[a]@[k]@, JITTER_MAX as int),
        decreases levels - l,
    {
        let mut level: Vec<Vector3> = Vec::new();
        let mut k: usize = 0;
        while k < samples
            invariant
                k <= samples,
                level@.len() == k,
                forall|b: int| 0 <= b < k ==> v3_bounded(#[trigger] level@[b]@, JITTER_MAX as int),
            decreases samples - k,
        {
            level.push(random_jitter_vec());
            k = k + 1;
        }
        out.push(level);
        l = l + 1;
    }
    out
}

/// The deep view of the jitter vectors.
pub open spec fn jitters_view(jss: Seq<Vec<Vector3>>) -> Seq<Seq<V3>> {
    jss.map_values(|v: Vec<Vector3>| jitter_seq_view(v@))
}

/// An admissible jitter set: one group per recursion level, each offset
/// within `JITTER_MAX`, and under soft shadows each group holding exactly the
/// configured number of samples.
pub open spec fn jitters_wf(jss: Seq<Seq<V3>>, mode: ShadowModeM) -> bool {
    &&& jss.len() == MAX_DEPTH as int + 1
    &&& forall|l: int, k: int|
        0 <= l < jss.len() && 0 <= k < jss[l].len() ==> v3_bounded(#[trigger] jss[l][k], JITTER_MAX as int)
    &&& mode matches ShadowModeM::Soft { samples } ==> forall|l: int|
        0 <= l < jss.len() ==> (#[trigger] jss[l]).len() == samples
}

/// The deterministic shading engine: resolves the nearest hit, applies the
/// shadowed local lighting model, and blends in the recursive shade of the
/// mirrored view ray, using the given jitter offsets at each depth. Its
/// result is pinned down exactly by `shade_spec`.
#[verifier::rlimit(100)]
pub fn get_color_with_jitters(
    origin: Vector3,
    scene: &Scene,
    ray_dir: Vector3,
    depth: u8,
    cfg: &Config,
    jitters: &Vec<Vec<Vector3>>,
) -> (r: Vector3)
    requires
        scene_wf(scene@),
        config_wf(cfg@),
        v3_bounded(origin@, MAX_COORD as int),
        depth <= MAX_DEPTH ==> v3_bounded(ray_dir@, dir_limit(depth as int)),
        jitters_wf(jitters_view(jitters@), cfg@.shadow),
    ensures
        r@ == shade_spec(scene@, cfg@, origin@, ray_dir@, depth as int, jitters_view(jitters@)),
        color_wf(r@),
    decreases MAX_DEPTH as int + 1 - depth as int,
{
    if depth > MAX_DEPTH {
        return Vector3::zero();
    }
    proof {
        assert(dir_limit(depth as int) <= DIR_MAX as int);
    }
    let nh = scene.nearest_hit(origin, ray_dir);
    match nh {
        None => Vector3::zero(),
        Some((idx, hit)) => {
            proof {
                assert(scene@[idx as int] == scene.objects@[idx as int]@);
                crate::geom::lemma_collider_attrs_wf(scene@[idx as int]);
            }
            let obj = &scene.objects[idx];
            let light_vec = cfg.light_point.sub(hit.hit_point);
            let light_dir = light_vec.normalize();
            let ldist = light_vec.magnitude();
            let base_i: i64 = match cfg.shadow {
                ShadowMode::Hard => {
                    if shadow_blocked(scene, hit.hit_point, light_dir) {
                        0
                    } else {
                        FP_ONE
                    }
                },
                ShadowMode::Soft { samples } => {
                    proof {
                        assert(jitters_view(jitters@)[depth as int]
                            == jitter_seq_view(jitters@[depth as int]@));
                    }
                    let js = &jitters[depth as usize];
                    proof {
                        let jss = jitters_view(jitters@);
                        assert forall|k: int|
                            0 <= k < js@.len() implies v3_bounded(
                            #[trigger] js@[k]@,
                            JITTER_MAX as int,
                        ) by {
                            assert(jss[depth as int][k] == js@[k]@);
                            assert(v3_bounded(jss[depth as int][k], JITTER_MAX as int));
                        }
                    }
                    let cnt = soft_shadow_count(scene, hit.hit_point, light_dir, js);
                    let n: i64 = samples as i64;
                    let c: i64 = cnt as i64;
                    proof {
                        lemma_fdiv_bounds((FP_ONE as int) * ((n - c) as int), n as int);
                        lemma_fdiv_le((FP_ONE as int) * ((n - c) as int), n as int,
                            (FP_ONE as int) * (n as int));
                        lemma_fdiv_exact(FP_ONE as int, n as int);
                    }
                    div_trunc(FP_ONE * (n - c), n)
                },
            };
            let intensity: i64 = if cfg.attenuation && ldist > 0 {
                proof {
                    lemma_fdiv_bounds((base_i as int) * (FP_ONE as int), ldist as int);
                    lemma_fdiv_le((base_i as int) * (FP_ONE as int), ldist as int,
                        0x1_0000_0000);
                }
                div_trunc(base_i * FP_ONE, ldist)
            } else {
                base_i
            };
            let nd = hit.normal.dot(light_dir);
            proof {
                lemma_v3_dot_bound(hit@.normal, light_dir@, FP_ONE as int, FP_ONE as int);
            }
            let nd0: i64 = if nd < 0 {
                0
            } else {
                nd
            };
            proof {
                lemma_mul_fix_bound(intensity as int, nd0 as int, 0x1_0000_0000, 196608);
            }
            let dfac = mul_fix(intensity, nd0);
            let albedo = obj.color();
            proof {
                lemma_mul_fix_bound(dfac as int, albedo@.x, 0x3_0000_0000, COLOR_MAX as int);
                lemma_mul_fix_bound(dfac as int, albedo@.y, 0x3_0000_0000, COLOR_MAX as int);
                lemma_mul_fix_bound(dfac as int, albedo@.z, 0x3_0000_0000, COLOR_MAX as int);
            }
            let diffuse = Vector3 {
                x: mul_fix(dfac, albedo.x),
                y: mul_fix(dfac, albedo.y),
                z: mul_fix(dfac, albedo.z),
            };
            let lrefl = light_dir.reflect(hit.normal);
            proof {
                lemma_reflect_bound(light_dir@, hit@.normal, FP_ONE as int);
            }
            let neg_ray = ray_dir.neg();
            let rd = lrefl.dot(neg_ray);
            let sbase = clamp_i64(rd, 0, FP_ONE);
            let p = pow_fix(sbase, cfg.shininess);
            proof {
                lemma_mul_fix_bound(intensity as int, p as int, 0x1_0000_0000, FP_ONE as int);
            }
            let spec_i = mul_fix(intensity, p);
            proof {
                lemma_mul_fix_bound(COLOR_MAX as int, spec_i as int, COLOR_MAX as int,
                    0x1_0000_0000);
            }
            let wf1 = mul_fix(COLOR_MAX, spec_i);
            proof {
                lemma_mul_fix_bound(wf1 as int, cfg.specular_weight as int, 0xFF_0000_0000,
                    FP_ONE as int);
            }
            let white_fac = mul_fix(wf1, cfg.specular_weight);
            let local = diffuse.add(Vector3 { x: white_fac, y: white_fac, z: white_fac });
            proof {
                if depth as int + 1 <= MAX_DEPTH as int {
                    lemma_reflect_bound(neg_ray@, hit@.normal, 3 * (FP_ONE as int));
                }
            }
            let bounce = neg_ray.reflect(hit.normal);
            let refl = obj.reflectivity();
            let rec = get_color_with_jitters(hit.hit_point, scene, bounce, depth + 1, cfg, jitters);
            let inv: i64 = FP_ONE - refl;
            proof {
                lemma_mul_fix_bound(local@.x, inv as int, 0x3FC_0000_0000, FP_ONE as int);
                lemma_mul_fix_bound(local@.y, inv as int, 0x3FC_0000_0000, FP_ONE as int);
                lemma_mul_fix_bound(local@.z, inv as int, 0x3FC_0000_0000, FP_ONE as int);
                lemma_mul_fix_bound(rec@.x, refl as int, COLOR_MAX as int, FP_ONE as int);
                lemma_mul_fix_bound(rec@.y, refl as int, COLOR_MAX as int, FP_ONE as int);
                lemma_mul_fix_bound(rec@.z, refl as int, COLOR_MAX as int, FP_ONE as int);
            }
            let out = Vector3 {
                x: clamp_i64(mul_fix(local.x, inv) + mul_fix(rec.x, refl), 0, COLOR_MAX),
                y: clamp_i64(mul_fix(local.y, inv) + mul_fix(rec.y, refl), 0, COLOR_MAX),
                z: clamp_i64(mul_fix(local.z, inv) + mul_fix(rec.z, refl), 0, COLOR_MAX),
            };
            out
        },
    }
}

/// Shades one ray, drawing fresh random soft-shadow jitters. The result is
/// the deterministic shade for some admissible jitter set; under hard
/// shadows it equals the jitter-free shade exactly.
pub fn get_color(
    origin: Vector3,
    scene: &Scene,
    ray_dir: Vector3,
    depth: u8,
    cfg: &Config,
) -> (r: Vector3)
    requires
        scene_wf(scene@),
        config_wf(cfg@),
        v3_bounded(origin@, MAX_COORD as int),
        depth <= MAX_DEPTH ==> v3_bounded(ray_dir@, dir_limit(depth as int)),
    ensures
        exists|jss: Seq<Seq<V3>>|
            jitters_wf(jss, cfg@.shadow) && r@ == shade_spec(
                scene@,
                cfg@,
                origin@,
                ray_dir@,
                depth as int,
                jss,
            ),
        cfg@.shadow is Hard ==> r@ == shade_spec(
            scene@,
            cfg@,
            origin@,
            ray_dir@,
            depth as int,
            no_jitters(),
        ),
        color_wf(r@),
{
    let samples: usize = match cfg.shadow {
        ShadowMode::Hard => 0,
        ShadowMode::Soft { samples } => samples as usize,
    };
    let jitters = sample_jitters((MAX_DEPTH as usize) + 1, samples);
    proof {
        let jss = jitters_view(jitters@);
        assert forall|l: int, k: int|
            0 <= l < jss.len() && 0 <= k < jss[l].len() implies v3_bounded(
            #[trigger] jss[l][k],
            JITTER_MAX as int,
        ) by {
            assert(jss[l] == jitter_seq_view(jitters@[l]@));
            assert(jss[l][k] == jitters@[l]@[k]@);
        }
        assert forall|l: int| 0 <= l < jss.len() implies (#[trigger] jss[l]).len()
            == samples as int by {
            assert(jss[l] == jitter_seq_view(jitters@[l]@));
        }
        assert(jitters_wf(jss, cfg@.shadow));
    }
    let r = get_color_with_jitters(origin, scene, ray_dir, depth, cfg, &jitters);
    proof {
        let jss = jitters_view(jitters@);
        assert(jitters_wf(jss, cfg@.shadow) && r@ == shade_spec(
            scene@,
            cfg@,
            origin@,
            ray_dir@,
            depth as int,
            jss,
        ));
        if cfg@.shadow is Hard {
            lemma_shade_hard_ignores_jitters(scene@, cfg@, origin@, ray_dir@, depth as int, jss);
        }
    }
    r
}

} // verus!
