//! Global properties of the tracer, each proved from the same spec functions
//! the executable contracts are stated over.

use crate::fixed::{
    fdiv, is_isqrt, lemma_fdiv_bounds, lemma_fdiv_exact, FP_ONE,
};
use crate::geom::{
    collide_spec, color_wf, plane_collide_spec, sphere_collide_spec, sphere_wf, ColliderM,
    SphereM, T_CAP,
};
use crate::scene::nearest_hit_spec;
use crate::shade::{
    blend_spec, blocked_spec, count_blocked_spec, intensity_spec, shade_spec, ConfigM,
    ShadowModeM, MAX_DEPTH,
};
use crate::vector::{
    lemma_component_le_magnitude, lemma_sqrt_floor_exists, lemma_sqrt_floor_of, m4_x_rot,
    rotation_pair_wf, sqrt_floor, v3_bounded, v3_dot, v3_magnitude, v3_neg, v3_normalize,
    v3_normsq, v3_reflect, v3_sub, v3_transform, v3_zero, V3, MAX_COORD,
};
use vstd::prelude::*;

verus! {

/// A ray fired from `origin` straight down the z axis at a sphere centred
/// `dist` below it, from outside, hits the front face: the intersection is
/// reported at distance `dist - radius`, up to one raw unit of rounding in
/// the square root, and exactly `dist - radius` whenever the squared radius
/// is a multiple of the fixed-point scale. The reported normal is the exact
/// outward unit `z` axis.
pub proof fn lemma_aimed_at_sphere_hits(s: SphereM, origin: V3, dist: int)
    requires
        sphere_wf(s),
        v3_bounded(origin, MAX_COORD as int),
        s.center.x == origin.x,
        s.center.y == origin.y,
        s.center.z == origin.z - dist,
        FP_ONE as int <= s.radius,
        s.radius < dist <= T_CAP as int,
    ensures
        ({
            let d = V3 { x: 0, y: 0, z: -(FP_ONE as int) };
            let r = sphere_collide_spec(s, origin, d);
            &&& r is Some
            &&& dist - s.radius <= r->Some_0.distance <= dist - s.radius + 1
            &&& (s.radius * s.radius) % (FP_ONE as int) == 0 ==> r->Some_0.distance == dist
                - s.radius
            &&& r->Some_0.normal == (V3 { x: 0, y: 0, z: FP_ONE as int })
        }),
{
    let sc = FP_ONE as int;
    let rad = s.radius;
    let d = V3 { x: 0, y: 0, z: -sc };
    let l = v3_sub(s.center, origin);
    assert(l == V3 { x: 0, y: 0, z: -dist });
    // tca == dist
    assert((-dist) * (-sc) == dist * sc) by (nonlinear_arith);
    lemma_fdiv_exact(dist, sc);
    assert(v3_dot(l, d) == dist);
    // d2 == 0: both terms are fdiv(dist * dist, sc)
    assert((-dist) * (-dist) == dist * dist) by (nonlinear_arith);
    assert(v3_dot(l, l) == fdiv(dist * dist, sc));
    assert(v3_dot(l, l) - fdiv(dist * dist, sc) == 0);
    // r2 >= 0
    assert(0 <= rad * rad) by (nonlinear_arith);
    lemma_fdiv_bounds(rad * rad, sc);
    let r2 = fdiv(rad * rad, sc);
    // the square root of r2 * sc is rad, or rad - 1 under a truncation rest
    let rem = rad * rad - r2 * sc;
    assert(0 <= rem < sc);
    let eps: int = if rem > 0 {
        1
    } else {
        0
    };
    let thc = rad - eps;
    assert(r2 * sc == rad * rad - rem);
    assert(is_isqrt(r2 * sc, thc)) by (nonlinear_arith)
        requires
            r2 * sc == rad * rad - rem && 0 <= rem < sc && sc <= rad
                && eps == (if rem > 0 { 1int } else { 0int }) && thc == rad - eps;
    lemma_sqrt_floor_of(r2 * sc, thc);
    assert(sqrt_floor((r2 - 0) * sc) == thc);
    let t = dist - thc;
    assert(t == dist - rad + eps);
    assert(t > 0);
    // the hit point: origin shifted by t straight down the axis
    assert(0 * t == 0) by (nonlinear_arith);
    lemma_fdiv_exact(0, sc);
    assert((-sc) * t == (-t) * sc) by (nonlinear_arith);
    lemma_fdiv_exact(-t, sc);
    let hit = V3 { x: origin.x, y: origin.y, z: origin.z - t };
    assert(v3_bounded(hit, MAX_COORD as int));
    // the normal: the hit point sits thc above the centre on the z axis
    let nv = v3_sub(hit, s.center);
    assert(nv == V3 { x: 0, y: 0, z: thc });
    assert(0 < thc * thc && v3_normsq(nv) == thc * thc) by (nonlinear_arith)
        requires thc >= 1 && nv.x == 0 && nv.y == 0 && nv.z == thc;
    assert(is_isqrt(thc * thc, thc)) by (nonlinear_arith)
        requires thc >= 1;
    lemma_sqrt_floor_of(thc * thc, thc);
    assert(thc * sc == sc * thc) by (nonlinear_arith);
    lemma_fdiv_exact(sc, thc);
    assert(v3_normalize(nv) == V3 { x: 0, y: 0, z: sc });
    // the distance: the magnitude of the straight drop of length t
    let dv = v3_sub(hit, origin);
    assert(dv == V3 { x: 0, y: 0, z: -t });
    assert(v3_normsq(dv) == t * t) by (nonlinear_arith)
        requires dv.x == 0 && dv.y == 0 && dv.z == -t;
    assert(is_isqrt(t * t, t)) by (nonlinear_arith)
        requires t >= 0;
    lemma_sqrt_floor_of(t * t, t);
    assert(v3_magnitude(dv) == t);
    // rounding statement: rem is exactly the Euclidean remainder
    assert(rad * rad == r2 * sc + rem);
    vstd::arithmetic::div_mod::lemma_fundamental_div_mod_converse_mod(rad * rad, sc, r2, rem);
}

/// The parameter cap lies beyond the world: the fixed-point distance between
/// any two points of the `MAX_COORD` cube stays below `T_CAP`. So for a
/// unit-scale ray the cap never discards an intersection whose hit point
/// lies inside the world — the capped region begins past the cube's
/// diameter.
pub proof fn lemma_world_distance_below_cap(a: V3, b: V3)
    requires
        v3_bounded(a, MAX_COORD as int),
        v3_bounded(b, MAX_COORD as int),
    ensures
        v3_magnitude(v3_sub(a, b)) < T_CAP as int,
{
    let d = v3_sub(a, b);
    assert(d.x * d.x <= 0x1000_0000_0000_0000) by (nonlinear_arith)
        requires -0x4000_0000 <= d.x <= 0x4000_0000;
    assert(d.y * d.y <= 0x1000_0000_0000_0000) by (nonlinear_arith)
        requires -0x4000_0000 <= d.y <= 0x4000_0000;
    assert(d.z * d.z <= 0x1000_0000_0000_0000) by (nonlinear_arith)
        requires -0x4000_0000 <= d.z <= 0x4000_0000;
    let q = v3_normsq(d);
    assert(0 <= q) by (nonlinear_arith)
        requires q == d.x * d.x + d.y * d.y + d.z * d.z;
    lemma_sqrt_floor_exists(q);
    let m = v3_magnitude(d);
    assert(is_isqrt(q, m));
    // the square root of anything up to 3 * 2^60 is below sqrt(3) * 2^30
    assert(m < 1_859_775_394) by (nonlinear_arith)
        requires 0 <= m && m * m <= 0x3000_0000_0000_0000;
}

/// Whether a ray aims away from a collider: for a sphere the centre lies
/// behind the ray origin along the direction, for a plane the direction does
/// not run against the face its normal points out of.
pub open spec fn aims_away(c: ColliderM, origin: V3, dir: V3) -> bool {
    match c {
        ColliderM::Sphere(s) => v3_dot(v3_sub(s.center, origin), dir) < 0,
        ColliderM::Plane(p) => v3_dot(v3_neg(p.normal), dir) < 1,
    }
}

/// A ray that aims away from a collider misses it.
pub proof fn lemma_aims_away_misses(c: ColliderM, origin: V3, dir: V3)
    requires
        aims_away(c, origin, dir),
    ensures
        collide_spec(c, origin, dir) is None,
{
    match c {
        ColliderM::Sphere(s) => {
            assert(sphere_collide_spec(s, origin, dir) is None);
        },
        ColliderM::Plane(p) => {
            assert(plane_collide_spec(p, origin, dir) is None);
        },
    }
}

/// A scene in which every object misses the ray resolves to no hit.
pub proof fn lemma_all_miss_nearest_none(objs: Seq<ColliderM>, origin: V3, dir: V3)
    requires
        forall|i: int|
            0 <= i < objs.len() ==> (#[trigger] collide_spec(objs[i], origin, dir)) is None,
    ensures
        nearest_hit_spec(objs, origin, dir) is None,
    decreases objs.len(),
{
    if objs.len() > 0 {
        assert(forall|i: int|
            0 <= i < objs.len() - 1 ==> objs.drop_last()[i] == #[trigger] objs[i]);
        lemma_all_miss_nearest_none(objs.drop_last(), origin, dir);
        assert(collide_spec(objs.last(), origin, dir) is None);
    }
}

/// A ray aimed away from every object of the scene yields no hit and shades
/// to the black background, at every depth and for every jitter set.
pub proof fn lemma_aims_away_background(
    objs: Seq<ColliderM>,
    cfg: ConfigM,
    origin: V3,
    dir: V3,
    depth: int,
    jss: Seq<Seq<V3>>,
)
    requires
        forall|i: int| 0 <= i < objs.len() ==> aims_away(#[trigger] objs[i], origin, dir),
    ensures
        nearest_hit_spec(objs, origin, dir) is None,
        shade_spec(objs, cfg, origin, dir, depth, jss) == v3_zero(),
{
    assert forall|i: int|
        0 <= i < objs.len() implies (#[trigger] collide_spec(objs[i], origin, dir)) is None by {
        lemma_aims_away_misses(objs[i], origin, dir);
    }
    lemma_all_miss_nearest_none(objs, origin, dir);
}

/// Raw (unscaled) dot product.
pub open spec fn v3_dot_raw(a: V3, b: V3) -> int {
    a.x * b.x + a.y * b.y + a.z * b.z
}

/// The exact reflection `2 * dot(i, n) * n - i` over the rationals, written
/// with every term multiplied by `FP_ONE^2` so that it stays integral.
pub open spec fn reflect_scaled(i: V3, n: V3) -> V3 {
    let d = v3_dot_raw(i, n);
    let s2 = (FP_ONE as int) * (FP_ONE as int);
    V3 { x: 2 * d * n.x - s2 * i.x, y: 2 * d * n.y - s2 * i.y, z: 2 * d * n.z - s2 * i.z }
}

/// Reflection about a unit normal is an involution: applying the exact
/// scaled reflection twice yields the original vector, multiplied by the
/// scale `FP_ONE^4` that the two applications introduce.
#[verifier::rlimit(100)]
pub proof fn lemma_reflect_involution(i: V3, n: V3)
    requires
        v3_dot_raw(n, n) == (FP_ONE as int) * (FP_ONE as int),
    ensures
        ({
            let s2 = (FP_ONE as int) * (FP_ONE as int);
            let r = reflect_scaled(reflect_scaled(i, n), n);
            r.x == s2 * s2 * i.x && r.y == s2 * s2 * i.y && r.z == s2 * s2 * i.z
        }),
{
    let s2 = (FP_ONE as int) * (FP_ONE as int);
    let d1 = v3_dot_raw(i, n);
    let r1 = reflect_scaled(i, n);
    let d2 = v3_dot_raw(r1, n);
    assert(r1.x * n.x == 2 * d1 * (n.x * n.x) - s2 * (i.x * n.x)) by (nonlinear_arith)
        requires r1.x == 2 * d1 * n.x - s2 * i.x;
    assert(r1.y * n.y == 2 * d1 * (n.y * n.y) - s2 * (i.y * n.y)) by (nonlinear_arith)
        requires r1.y == 2 * d1 * n.y - s2 * i.y;
    assert(r1.z * n.z == 2 * d1 * (n.z * n.z) - s2 * (i.z * n.z)) by (nonlinear_arith)
        requires r1.z == 2 * d1 * n.z - s2 * i.z;
    assert(2 * d1 * (n.x * n.x) + 2 * d1 * (n.y * n.y) + 2 * d1 * (n.z * n.z) == 2 * d1 * s2)
        by (nonlinear_arith)
        requires n.x * n.x + n.y * n.y + n.z * n.z == s2;
    assert(s2 * (i.x * n.x) + s2 * (i.y * n.y) + s2 * (i.z * n.z) == s2 * d1) by (nonlinear_arith)
        requires d1 == i.x * n.x + i.y * n.y + i.z * n.z;
    assert(2 * d1 * s2 - s2 * d1 == s2 * d1) by (nonlinear_arith);
    assert(d2 == s2 * d1);
    let r2 = reflect_scaled(r1, n);
    assert(r2.x == s2 * s2 * i.x) by (nonlinear_arith)
        requires
            r2.x == 2 * d2 * n.x - s2 * r1.x,
            d2 == s2 * d1,
            r1.x == 2 * d1 * n.x - s2 * i.x,
    ;
    assert(r2.y == s2 * s2 * i.y) by (nonlinear_arith)
        requires
            r2.y == 2 * d2 * n.y - s2 * r1.y,
            d2 == s2 * d1,
            r1.y == 2 * d1 * n.y - s2 * i.y,
    ;
    assert(r2.z == s2 * s2 * i.z) by (nonlinear_arith)
        requires
            r2.z == 2 * d2 * n.z - s2 * r1.z,
            d2 == s2 * d1,
            r1.z == 2 * d1 * n.z - s2 * i.z,
    ;
}

/// For the exact unit normal along the z axis even the rounded fixed-point
/// reflection is an involution, on every vector.
pub proof fn lemma_reflect_involution_axis(i: V3)
    ensures
        v3_reflect(v3_reflect(i, V3 { x: 0, y: 0, z: FP_ONE as int }), V3 {
            x: 0,
            y: 0,
            z: FP_ONE as int,
        }) == i,
{
    let sc = FP_ONE as int;
    let n = V3 { x: 0, y: 0, z: sc };
    assert(i.x * 0 == 0 && i.y * 0 == 0) by (nonlinear_arith);
    lemma_fdiv_exact(i.z, sc);
    assert(v3_dot(i, n) == i.z);
    let k1 = 2 * i.z;
    assert(0 * k1 == 0) by (nonlinear_arith);
    lemma_fdiv_exact(0, sc);
    assert(sc * k1 == k1 * sc) by (nonlinear_arith);
    lemma_fdiv_exact(k1, sc);
    let r1 = v3_reflect(i, n);
    assert(r1 == V3 { x: -i.x, y: -i.y, z: i.z });
    assert(r1.x * 0 == 0 && r1.y * 0 == 0) by (nonlinear_arith);
    lemma_fdiv_exact(r1.z, sc);
    assert(v3_dot(r1, n) == i.z);
    let r2 = v3_reflect(r1, n);
    assert(r2 == V3 { x: i.x, y: i.y, z: i.z });
    assert(r2 == i);
}

/// Normalising any vector of magnitude at least one produces a unit-length
/// vector up to fixed-point tolerance: the raw squared norm of the result
/// lies within `9 * FP_ONE` of `FP_ONE^2`, a relative error below `0.014%`.
#[verifier::rlimit(100)]
pub proof fn lemma_normalize_unit_magnitude(a: V3)
    requires
        v3_bounded(a, 0x4000_0000),
        FP_ONE as int <= v3_magnitude(a),
    ensures
        ({
            let sc = FP_ONE as int;
            let t = v3_normsq(v3_normalize(a));
            sc * sc - 9 * sc <= t <= sc * sc + 9 * sc
        }),
{
    let sc = FP_ONE as int;
    let q = v3_normsq(a);
    assert(0 <= q) by (nonlinear_arith)
        requires q == a.x * a.x + a.y * a.y + a.z * a.z;
    lemma_sqrt_floor_exists(q);
    let m = v3_magnitude(a);
    assert(is_isqrt(q, m));
    assert(q > 0) by (nonlinear_arith)
        requires 1 <= sc && sc <= m && m * m <= q;
    let r = v3_normalize(a);
    lemma_component_le_magnitude(a, m);
    lemma_fdiv_bounds(a.x * sc, m);
    lemma_fdiv_bounds(a.y * sc, m);
    lemma_fdiv_bounds(a.z * sc, m);
    let ux = r.x * m;
    let uy = r.y * m;
    let uz = r.z * m;
    let ex = ux - a.x * sc;
    let ey = uy - a.y * sc;
    let ez = uz - a.z * sc;
    assert(-m < ex < m && -m < ey < m && -m < ez < m);
    assert(-(m * sc) <= a.x * sc <= m * sc) by (nonlinear_arith)
        requires -m <= a.x <= m && 0 < sc;
    assert(-(m * sc) <= a.y * sc <= m * sc) by (nonlinear_arith)
        requires -m <= a.y <= m && 0 < sc;
    assert(-(m * sc) <= a.z * sc <= m * sc) by (nonlinear_arith)
        requires -m <= a.z <= m && 0 < sc;
    // each squared scaled component errs from its exact value by
    // at most m * (2 * m * sc + m)
    assert(ux * ux - (a.x * sc) * (a.x * sc) == ex * (ux + a.x * sc)) by (nonlinear_arith)
        requires ex == ux - a.x * sc;
    assert(uy * uy - (a.y * sc) * (a.y * sc) == ey * (uy + a.y * sc)) by (nonlinear_arith)
        requires ey == uy - a.y * sc;
    assert(uz * uz - (a.z * sc) * (a.z * sc) == ez * (uz + a.z * sc)) by (nonlinear_arith)
        requires ez == uz - a.z * sc;
    let bound = m * (2 * (m * sc) + m);
    assert(-bound <= ex * (ux + a.x * sc) <= bound) by (nonlinear_arith)
        requires
            -m < ex < m && -(m * sc) <= a.x * sc <= m * sc && ux == a.x * sc + ex
                && bound == m * (2 * (m * sc) + m) && 0 < m && 0 < sc,
    ;
    assert(-bound <= ey * (uy + a.y * sc) <= bound) by (nonlinear_arith)
        requires
            -m < ey < m && -(m * sc) <= a.y * sc <= m * sc && uy == a.y * sc + ey
                && bound == m * (2 * (m * sc) + m) && 0 < m && 0 < sc,
    ;
    assert(-bound <= ez * (uz + a.z * sc) <= bound) by (nonlinear_arith)
        requires
            -m < ez < m && -(m * sc) <= a.z * sc <= m * sc && uz == a.z * sc + ez
                && bound == m * (2 * (m * sc) + m) && 0 < m && 0 < sc,
    ;
    let t = v3_normsq(r);
    assert(ux * ux == (r.x * r.x) * (m * m)) by (nonlinear_arith)
        requires ux == r.x * m;
    assert(uy * uy == (r.y * r.y) * (m * m)) by (nonlinear_arith)
        requires uy == r.y * m;
    assert(uz * uz == (r.z * r.z) * (m * m)) by (nonlinear_arith)
        requires uz == r.z * m;
    assert(t * (m * m) == (r.x * r.x) * (m * m) + (r.y * r.y) * (m * m) + (r.z * r.z) * (m * m))
        by (nonlinear_arith)
        requires t == r.x * r.x + r.y * r.y + r.z * r.z;
    assert(t * (m * m) == ux * ux + uy * uy + uz * uz);
    assert((a.x * sc) * (a.x * sc) == (a.x * a.x) * (sc * sc)) by (nonlinear_arith);
    assert((a.y * sc) * (a.y * sc) == (a.y * a.y) * (sc * sc)) by (nonlinear_arith);
    assert((a.z * sc) * (a.z * sc) == (a.z * a.z) * (sc * sc)) by (nonlinear_arith);
    assert((sc * sc) * q == (a.x * a.x) * (sc * sc) + (a.y * a.y) * (sc * sc) + (a.z * a.z) * (sc
        * sc)) by (nonlinear_arith)
        requires q == a.x * a.x + a.y * a.y + a.z * a.z;
    assert((sc * sc) * q == (a.x * sc) * (a.x * sc) + (a.y * sc) * (a.y * sc) + (a.z * sc) * (a.z
        * sc));
    assert((sc * sc) * q - 3 * bound <= t * (m * m) <= (sc * sc) * q + 3 * bound);
    // lower bound: q >= m * m
    assert((sc * sc) * (m * m) <= (sc * sc) * q) by (nonlinear_arith)
        requires m * m <= q && 0 < sc;
    assert(3 * bound == 6 * ((m * m) * sc) + 3 * (m * m)) by (nonlinear_arith)
        requires bound == m * (2 * (m * sc) + m);
    assert((sc * sc) * (m * m) - 6 * ((m * m) * sc) - 3 * (m * m) == (m * m) * (sc * sc - 6 * sc
        - 3)) by (nonlinear_arith);
    assert((m * m) * (sc * sc - 6 * sc - 3) <= t * (m * m));
    assert(sc * sc - 6 * sc - 3 <= t) by (nonlinear_arith)
        requires (m * m) * (sc * sc - 6 * sc - 3) <= t * (m * m) && 0 < m;
    // upper bound: q <= m * m + 2 * m, and m >= sc >= 4
    assert(q <= m * m + 2 * m) by (nonlinear_arith)
        requires q < (m + 1) * (m + 1);
    assert((sc * sc) * q <= (sc * sc) * (m * m) + 2 * (m * (sc * sc))) by (nonlinear_arith)
        requires q <= m * m + 2 * m && 0 < sc;
    assert(m * (sc * sc) <= sc * (m * m)) by (nonlinear_arith)
        requires 0 < sc <= m;
    assert(3 * (m * m) <= sc * (m * m)) by (nonlinear_arith)
        requires 4 <= sc && 0 < m;
    assert(6 * ((m * m) * sc) == 6 * (sc * (m * m))) by (nonlinear_arith);
    assert(t * (m * m) <= (sc * sc) * (m * m) + 9 * (sc * (m * m)));
    assert((sc * sc) * (m * m) + 9 * (sc * (m * m)) == (m * m) * (sc * sc + 9 * sc))
        by (nonlinear_arith);
    assert(t <= sc * sc + 9 * sc) by (nonlinear_arith)
        requires t * (m * m) <= (m * m) * (sc * sc + 9 * sc) && 0 < m;
}

/// A rotation about the x axis preserves length up to fixed-point
/// tolerance: for any unit-scale vector and any well-formed cosine/sine
/// pair, the raw squared norm of the transformed vector lies within
/// `13 * FP_ONE` of the input's — a relative error below `0.02%` for unit
/// vectors.
#[verifier::rlimit(100)]
pub proof fn lemma_x_rot_preserves_length(v: V3, c: int, s: int)
    requires
        rotation_pair_wf(c, s),
        v3_bounded(v, FP_ONE as int),
    ensures
        ({
            let t = v3_normsq(v3_transform(v, m4_x_rot(c, s)));
            v3_normsq(v) - 13 * (FP_ONE as int) <= t <= v3_normsq(v) + 13 * (FP_ONE as int)
        }),
{
    let sc = FP_ONE as int;
    let m = m4_x_rot(c, s);
    let r = v3_transform(v, m);
    // the first row is exact: r.x == v.x
    lemma_fdiv_exact(v.x, sc);
    assert(r.x == v.x);
    // rows y and z: the exact images before rounding
    let uy = v.y * c + v.z * s;
    let uz = v.y * (-s) + v.z * c;
    assert(r.y == fdiv(uy, sc));
    assert(r.z == fdiv(uz, sc));
    lemma_fdiv_bounds(uy, sc);
    lemma_fdiv_bounds(uz, sc);
    let ey = r.y * sc - uy;
    let ez = r.z * sc - uz;
    assert(-sc < ey < sc && -sc < ez < sc);
    // the exact images preserve the yz norm, scaled by c^2 + s^2
    let g = c * c + s * s;
    let p1 = v.y * c;
    let p2 = v.z * s;
    let p3 = v.y * s;
    let p4 = v.z * c;
    assert(uy == p1 + p2);
    assert(uz == p4 - p3) by (nonlinear_arith)
        requires uz == v.y * (-s) + v.z * c && p3 == v.y * s && p4 == v.z * c;
    assert(uy * uy == p1 * p1 + 2 * (p1 * p2) + p2 * p2) by (nonlinear_arith)
        requires uy == p1 + p2;
    assert(uz * uz == p4 * p4 - 2 * (p3 * p4) + p3 * p3) by (nonlinear_arith)
        requires uz == p4 - p3;
    assert(p1 * p1 == (v.y * v.y) * (c * c)) by (nonlinear_arith)
        requires p1 == v.y * c;
    assert(p2 * p2 == (v.z * v.z) * (s * s)) by (nonlinear_arith)
        requires p2 == v.z * s;
    assert(p3 * p3 == (v.y * v.y) * (s * s)) by (nonlinear_arith)
        requires p3 == v.y * s;
    assert(p4 * p4 == (v.z * v.z) * (c * c)) by (nonlinear_arith)
        requires p4 == v.z * c;
    assert(p1 * p2 == (v.y * v.z) * (c * s)) by (nonlinear_arith)
        requires p1 == v.y * c && p2 == v.z * s;
    assert(p3 * p4 == (v.y * v.z) * (c * s)) by (nonlinear_arith)
        requires p3 == v.y * s && p4 == v.z * c;
    assert((v.y * v.y) * (c * c) + (v.y * v.y) * (s * s) == (v.y * v.y) * g) by (nonlinear_arith)
        requires g == c * c + s * s;
    assert((v.z * v.z) * (c * c) + (v.z * v.z) * (s * s) == (v.z * v.z) * g) by (nonlinear_arith)
        requires g == c * c + s * s;
    assert((v.y * v.y) * g + (v.z * v.z) * g == (v.y * v.y + v.z * v.z) * g) by (nonlinear_arith);
    assert(uy * uy + uz * uz == (v.y * v.y + v.z * v.z) * g);
    // bounds on the exact images
    assert(-(2 * ((sc * sc))) <= uy <= 2 * (sc * sc)) by (nonlinear_arith)
        requires
            -sc <= v.y <= sc && -sc <= v.z <= sc && -sc <= c <= sc && -sc <= s <= sc
                && uy == v.y * c + v.z * s,
    ;
    assert(-(2 * ((sc * sc))) <= uz <= 2 * (sc * sc)) by (nonlinear_arith)
        requires
            -sc <= v.y <= sc && -sc <= v.z <= sc && -sc <= c <= sc && -sc <= s <= sc
                && uz == v.y * (-s) + v.z * c,
    ;
    // each rounded square errs from its exact value by under 4*sc^3 + sc^2
    assert((r.y * sc) * (r.y * sc) - uy * uy == ey * (2 * uy + ey)) by (nonlinear_arith)
        requires ey == r.y * sc - uy;
    assert((r.z * sc) * (r.z * sc) - uz * uz == ez * (2 * uz + ez)) by (nonlinear_arith)
        requires ez == r.z * sc - uz;
    assert(-(4 * ((sc * sc) * sc) + sc * sc) <= ey * (2 * uy + ey) <= 4 * ((sc * sc) * sc) + sc
        * sc) by (nonlinear_arith)
        requires -sc < ey < sc && -(2 * (sc * sc)) <= uy <= 2 * (sc * sc) && 0 < sc;
    assert(-(4 * ((sc * sc) * sc) + sc * sc) <= ez * (2 * uz + ez) <= 4 * ((sc * sc) * sc) + sc
        * sc) by (nonlinear_arith)
        requires -sc < ez < sc && -(2 * (sc * sc)) <= uz <= 2 * (sc * sc) && 0 < sc;
    // assemble the squared norms, both scaled by sc^2
    let t = v3_normsq(r);
    let q = v3_normsq(v);
    assert((r.y * sc) * (r.y * sc) == (r.y * r.y) * (sc * sc)) by (nonlinear_arith);
    assert((r.z * sc) * (r.z * sc) == (r.z * r.z) * (sc * sc)) by (nonlinear_arith);
    assert(t * (sc * sc) == (r.x * r.x) * (sc * sc) + (r.y * r.y) * (sc * sc) + (r.z * r.z) * (sc
        * sc)) by (nonlinear_arith)
        requires t == r.x * r.x + r.y * r.y + r.z * r.z;
    assert(q * (sc * sc) == (v.x * v.x) * (sc * sc) + (v.y * v.y) * (sc * sc) + (v.z * v.z) * (sc
        * sc)) by (nonlinear_arith)
        requires q == v.x * v.x + v.y * v.y + v.z * v.z;
    // the deviation of c^2 + s^2 from one contributes at most 4*sc^3
    assert((v.y * v.y + v.z * v.z) * g - ((v.y * v.y) * (sc * sc) + (v.z * v.z) * (sc * sc))
        == (v.y * v.y + v.z * v.z) * (g - sc * sc)) by (nonlinear_arith);
    assert(-(4 * ((sc * sc) * sc)) <= (v.y * v.y + v.z * v.z) * (g - sc * sc) <= 4 * ((sc * sc)
        * sc)) by (nonlinear_arith)
        requires
            -sc <= v.y <= sc && -sc <= v.z <= sc && -(2 * sc) <= g - sc * sc <= 2 * sc && 0 < sc,
    ;
    assert(2 * (sc * sc) <= (sc * sc) * sc) by (nonlinear_arith)
        requires 2 <= sc;
    assert(q * (sc * sc) - 13 * ((sc * sc) * sc) <= t * (sc * sc) <= q * (sc * sc) + 13 * ((sc
        * sc) * sc));
    assert(q - 13 * sc <= t <= q + 13 * sc) by (nonlinear_arith)
        requires
            q * (sc * sc) - 13 * ((sc * sc) * sc) <= t * (sc * sc) <= q * (sc * sc) + 13 * ((sc
                * sc) * sc) && 0 < sc,
    ;
}

/// Rotating about the x axis and back is the identity up to fixed-point
/// rounding: for any unit-scale vector and well-formed cosine/sine pair,
/// applying the rotation for `(c, s)` and then the one for `(c, -s)`
/// returns the vector exactly in x and within five raw units per component
/// in y and z.
#[verifier::rlimit(100)]
pub proof fn lemma_x_rot_roundtrip(v: V3, c: int, s: int)
    requires
        rotation_pair_wf(c, s),
        v3_bounded(v, FP_ONE as int),
    ensures
        ({
            let r = v3_transform(v3_transform(v, m4_x_rot(c, s)), m4_x_rot(c, -s));
            r.x == v.x && v.y - 5 <= r.y <= v.y + 5 && v.z - 5 <= r.z <= v.z + 5
        }),
{
    let sc = FP_ONE as int;
    let m1 = m4_x_rot(c, s);
    let m2 = m4_x_rot(c, -s);
    let w = v3_transform(v, m1);
    let r = v3_transform(w, m2);
    let g = c * c + s * s;
    // the first row is exact both ways
    lemma_fdiv_exact(v.x, sc);
    assert(w.x == v.x);
    lemma_fdiv_exact(w.x, sc);
    assert(w.x * sc + w.y * 0 + w.z * 0 == w.x * sc);
    assert(r.x == fdiv(w.x * m2.x.x + w.y * m2.x.y + w.z * m2.x.z, sc) + m2.x.w);
    assert(r.x == fdiv(w.x * sc, sc));
    assert(r.x == v.x);
    // first application, with its rounding errors
    let uy = v.y * c + v.z * s;
    let uz = v.y * (-s) + v.z * c;
    assert(w.y == fdiv(uy, sc));
    assert(w.z == fdiv(uz, sc));
    lemma_fdiv_bounds(uy, sc);
    lemma_fdiv_bounds(uz, sc);
    let ey = w.y * sc - uy;
    let ez = w.z * sc - uz;
    assert(-sc < ey < sc && -sc < ez < sc);
    // second application
    let ay = w.y * c + w.z * (-s);
    let az = w.y * s + w.z * c;
    assert(r.y == fdiv(ay, sc));
    assert(r.z == fdiv(az, sc));
    lemma_fdiv_bounds(ay, sc);
    lemma_fdiv_bounds(az, sc);
    let fy = r.y * sc - ay;
    let fz = r.z * sc - az;
    assert(-sc < fy < sc && -sc < fz < sc);
    // ay * sc == v.y * g + the carried rounding errors
    assert(ay * sc == (w.y * sc) * c + (w.z * sc) * (-s)) by (nonlinear_arith)
        requires ay == w.y * c + w.z * (-s);
    assert((w.y * sc) * c == uy * c + ey * c) by (nonlinear_arith)
        requires w.y * sc == uy + ey;
    assert((w.z * sc) * (-s) == uz * (-s) + ez * (-s)) by (nonlinear_arith)
        requires w.z * sc == uz + ez;
    assert(uy * c == v.y * (c * c) + v.z * (c * s)) by (nonlinear_arith)
        requires uy == v.y * c + v.z * s;
    assert(uz * (-s) == v.y * (s * s) - v.z * (c * s)) by (nonlinear_arith)
        requires uz == v.y * (-s) + v.z * c;
    assert(v.y * (c * c) + v.y * (s * s) == v.y * g) by (nonlinear_arith)
        requires g == c * c + s * s;
    assert(ay * sc == v.y * g + ey * c + ez * (-s));
    // az * sc likewise, landing on v.z * g
    assert(az * sc == (w.y * sc) * s + (w.z * sc) * c) by (nonlinear_arith)
        requires az == w.y * s + w.z * c;
    assert((w.y * sc) * s == uy * s + ey * s) by (nonlinear_arith)
        requires w.y * sc == uy + ey;
    assert((w.z * sc) * c == uz * c + ez * c) by (nonlinear_arith)
        requires w.z * sc == uz + ez;
    assert(uy * s == v.y * (c * s) + v.z * (s * s)) by (nonlinear_arith)
        requires uy == v.y * c + v.z * s;
    assert(uz * c == v.z * (c * c) - v.y * (c * s)) by (nonlinear_arith)
        requires uz == v.y * (-s) + v.z * c;
    assert(v.z * (s * s) + v.z * (c * c) == v.z * g) by (nonlinear_arith)
        requires g == c * c + s * s;
    assert(az * sc == v.z * g + ey * s + ez * c);
    // each error term stays below one square scale
    assert(-(sc * sc) <= ey * c <= sc * sc) by (nonlinear_arith)
        requires -sc < ey < sc && -sc <= c <= sc;
    assert(-(sc * sc) <= ez * (-s) <= sc * sc) by (nonlinear_arith)
        requires -sc < ez < sc && -sc <= s <= sc;
    assert(-(sc * sc) <= ey * s <= sc * sc) by (nonlinear_arith)
        requires -sc < ey < sc && -sc <= s <= sc;
    assert(-(sc * sc) <= ez * c <= sc * sc) by (nonlinear_arith)
        requires -sc < ez < sc && -sc <= c <= sc;
    assert(-(sc * sc) <= fy * sc <= sc * sc) by (nonlinear_arith)
        requires -sc < fy < sc && 0 < sc;
    assert(-(sc * sc) <= fz * sc <= sc * sc) by (nonlinear_arith)
        requires -sc < fz < sc && 0 < sc;
    // the deviation of c^2 + s^2 from one contributes at most two more
    assert(-(2 * (sc * sc)) <= v.y * (g - sc * sc) <= 2 * (sc * sc)) by (nonlinear_arith)
        requires -sc <= v.y <= sc && -(2 * sc) <= g - sc * sc <= 2 * sc;
    assert(-(2 * (sc * sc)) <= v.z * (g - sc * sc) <= 2 * (sc * sc)) by (nonlinear_arith)
        requires -sc <= v.z <= sc && -(2 * sc) <= g - sc * sc <= 2 * sc;
    // assemble and divide by the square scale
    assert(r.y * (sc * sc) == ay * sc + fy * sc) by (nonlinear_arith)
        requires r.y * sc == ay + fy;
    assert(r.z * (sc * sc) == az * sc + fz * sc) by (nonlinear_arith)
        requires r.z * sc == az + fz;
    assert(v.y * g - v.y * (sc * sc) == v.y * (g - sc * sc)) by (nonlinear_arith);
    assert(v.z * g - v.z * (sc * sc) == v.z * (g - sc * sc)) by (nonlinear_arith);
    assert((r.y - v.y) * (sc * sc) == r.y * (sc * sc) - v.y * (sc * sc)) by (nonlinear_arith);
    assert((r.z - v.z) * (sc * sc) == r.z * (sc * sc) - v.z * (sc * sc)) by (nonlinear_arith);
    assert(-(5 * (sc * sc)) <= (r.y - v.y) * (sc * sc) <= 5 * (sc * sc));
    assert(-(5 * (sc * sc)) <= (r.z - v.z) * (sc * sc) <= 5 * (sc * sc));
    assert(-5 <= r.y - v.y <= 5) by (nonlinear_arith)
        requires -(5 * (sc * sc)) <= (r.y - v.y) * (sc * sc) <= 5 * (sc * sc) && 0 < sc;
    assert(-5 <= r.z - v.z <= 5) by (nonlinear_arith)
        requires -(5 * (sc * sc)) <= (r.z - v.z) * (sc * sc) <= 5 * (sc * sc) && 0 < sc;
}

/// An opaque object standing between the hit point and the light drives the
/// hard-shadow multiplier to exactly zero; with a clear path it is exactly
/// one.
pub proof fn lemma_hard_shadow(objs: Seq<ColliderM>, point: V3, light_dir: V3, js: Seq<V3>)
    ensures
        blocked_spec(objs, point, light_dir) ==> intensity_spec(
            objs,
            ShadowModeM::Hard,
            point,
            light_dir,
            js,
        ) == 0,
        !blocked_spec(objs, point, light_dir) ==> intensity_spec(
            objs,
            ShadowModeM::Hard,
            point,
            light_dir,
            js,
        ) == FP_ONE as int,
{
}

/// Growing the occluder only grows the soft-shadow blocked count: if every
/// jittered direction blocked in the first scene is blocked in the second,
/// the second scene blocks at least as many of the same jittered rays.
pub proof fn lemma_soft_shadow_monotone(
    objs1: Seq<ColliderM>,
    objs2: Seq<ColliderM>,
    point: V3,
    light_dir: V3,
    js: Seq<V3>,
)
    requires
        forall|sd: V3| #[trigger]
            blocked_spec(objs1, point, sd) ==> blocked_spec(objs2, point, sd),
    ensures
        count_blocked_spec(objs1, point, light_dir, js) <= count_blocked_spec(
            objs2,
            point,
            light_dir,
            js,
        ),
    decreases js.len(),
{
    if js.len() > 0 {
        lemma_soft_shadow_monotone(objs1, objs2, point, light_dir, js.drop_last());
    }
}

/// Whatever the local colour and the bounced colour — even channels pushed
/// far above 255 or below 0 — every channel of the blended result is clamped
/// exactly into `[0, 255]`.
pub proof fn lemma_blend_clamps(local: V3, rec: V3, refl: int)
    ensures
        color_wf(blend_spec(local, rec, refl)),
{
}

/// Every shade — of any ray, at any depth, under any jitters — has all its
/// channels inside `[0, 255]`.
pub proof fn lemma_shade_in_range(
    objs: Seq<ColliderM>,
    cfg: ConfigM,
    origin: V3,
    dir: V3,
    depth: int,
    jss: Seq<Seq<V3>>,
)
    ensures
        color_wf(shade_spec(objs, cfg, origin, dir, depth, jss)),
    decreases MAX_DEPTH as int + 1 - depth,
{
    if depth > MAX_DEPTH as int {
    } else {
        match nearest_hit_spec(objs, origin, dir) {
            None => {},
            Some(ih) => {},
        }
    }
}

/// Beyond the maximal depth the recursion returns exactly black, whatever
/// the scene: the depth cutoff bounds the work of every pixel.
pub proof fn lemma_depth_cutoff(
    objs: Seq<ColliderM>,
    cfg: ConfigM,
    origin: V3,
    dir: V3,
    depth: int,
    jss: Seq<Seq<V3>>,
)
    requires
        depth > MAX_DEPTH as int,
    ensures
        shade_spec(objs, cfg, origin, dir, depth, jss) == v3_zero(),
{
}

} // verus!
