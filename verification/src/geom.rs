//! Geometric primitives and their ray-intersection tests.
//!
//! A collider is a sphere or a plane together with a surface colour and a
//! reflectivity coefficient. `collide` resolves a ray (origin plus direction)
//! against one collider; its result is pinned down exactly by the spec
//! functions `sphere_collide_spec` and `plane_collide_spec`.
//!
//! Policies for the fixed-point world, all reflected in the spec functions:
//! - a ray is considered parallel to a plane when the denominator is below
//!   one raw unit (the epsilon threshold of the representation);
//! - intersections whose ray parameter exceeds `T_CAP`, or whose hit point
//!   leaves the `MAX_COORD` world cube, are reported as misses; since
//!   `T_CAP` exceeds the cube's diameter, the parameter cap only ever
//!   discards intersections that a unit-scale ray reaches outside the world;
//! - a degenerate sphere normal (hit point equal to the centre, possible only
//!   for a zero radius) is reported as a miss.

use crate::fixed::{div_trunc, fdiv, isqrt, lemma_fdiv_bounds, lemma_fdiv_le, mul_fix, FP_ONE};
use crate::vector::{
    lemma_mul_fix_bound, lemma_sqrt_floor_of, lemma_v3_dot_bound, sqrt_floor, v3_add, v3_bounded,
    v3_dot, v3_magnitude, v3_neg, v3_normalize, v3_normsq, v3_scale, v3_sub, Vector3, V3,
    MAX_COORD,
};
use vstd::prelude::*;

verus! {

/// Cap on the ray parameter `t`: farther intersections are treated as
/// misses. The cap exceeds the diameter of the `MAX_COORD` world cube
/// (`sqrt(3) * 2 * MAX_COORD` raw units), so for a unit-scale direction it
/// never discards an intersection whose hit point lies inside the world;
/// see `laws::lemma_world_distance_below_cap`.
pub const T_CAP: i64 = 0x6F00_0000;

/// Bound admitted for ray directions handed to the intersection tests.
pub const DIR_MAX: i64 = 0x400_0000;

/// Largest raw colour channel: 255 in fixed point.
pub const COLOR_MAX: i64 = 16711680;

/// Mathematical model of a resolved intersection.
pub ghost struct CollisionM {
    pub hit_point: V3,
    pub normal: V3,
    pub distance: int,
}

/// A resolved intersection: the hit point, the surface normal there, and the
/// fixed-point distance from the ray origin.
#[derive(Clone, Copy, Debug, PartialEq, Eq, Structural)]
pub struct CollisionData {
    pub hit_point: Vector3,
    pub normal: Vector3,
    pub distance: i64,
}

impl View for CollisionData {
    type V = CollisionM;

    open spec fn view(&self) -> CollisionM {
        CollisionM {
            hit_point: self.hit_point@,
            normal: self.normal@,
            distance: self.distance as int,
        }
    }
}

/// The collision values every intersection test returns: a hit point inside
/// the world cube, a normal no longer than unit scale, and a representable
/// nonnegative distance.
pub open spec fn collision_wf(h: CollisionM) -> bool {
    &&& v3_bounded(h.hit_point, MAX_COORD as int)
    &&& v3_bounded(h.normal, FP_ONE as int)
    &&& 0 <= h.distance < 0x8000_0000
}

/// The view of an optional collision.
pub open spec fn opt_collision_view(r: Option<CollisionData>) -> Option<CollisionM> {
    match r {
        Some(h) => Some(h@),
        None => None,
    }
}

/// Every channel lies in `[0, 255]` in fixed point.
pub open spec fn color_wf(c: V3) -> bool {
    &&& 0 <= c.x <= COLOR_MAX as int
    &&& 0 <= c.y <= COLOR_MAX as int
    &&& 0 <= c.z <= COLOR_MAX as int
}

/// Mathematical model of a `Sphere`.
pub ghost struct SphereM {
    pub center: V3,
    pub radius: int,
    pub color: V3,
    pub reflectivity: int,
}

/// A sphere with surface colour and reflectivity.
#[derive(Clone, Copy, Debug)]
pub struct Sphere {
    pub center: Vector3,
    pub radius: i64,
    pub color: Vector3,
    pub reflectivity: i64,
}

impl View for Sphere {
    type V = SphereM;

    open spec fn view(&self) -> SphereM {
        SphereM {
            center: self.center@,
            radius: self.radius as int,
            color: self.color@,
            reflectivity: self.reflectivity as int,
        }
    }
}

/// Mathematical model of a `Plane`.
pub ghost struct PlaneM {
    pub normal: V3,
    pub offset: int,
    pub color: V3,
    pub reflectivity: int,
}

/// A plane given by a unit-scale normal and a signed offset from the origin,
/// with surface colour and reflectivity.
#[derive(Clone, Copy, Debug)]
pub struct Plane {
    pub normal: Vector3,
    pub offset: i64,
    pub color: Vector3,
    pub reflectivity: i64,
}

impl View for Plane {
    type V = PlaneM;

    open spec fn view(&self) -> PlaneM {
        PlaneM {
            normal: self.normal@,
            offset: self.offset as int,
            color: self.color@,
            reflectivity: self.reflectivity as int,
        }
    }
}

/// Well-formed sphere: centre and radius inside the world, colour channels in
/// range, reflectivity in `[0, 1]`.
pub open spec fn sphere_wf(s: SphereM) -> bool {
    &&& v3_bounded(s.center, MAX_COORD as int)
    &&& 0 <= s.radius <= MAX_COORD as int
    &&& color_wf(s.color)
    &&& 0 <= s.reflectivity <= FP_ONE as int
}

/// Well-formed plane: unit-scale normal, offset inside the world, colour
/// channels in range, reflectivity in `[0, 1]`.
pub open spec fn plane_wf(p: PlaneM) -> bool {
    &&& v3_bounded(p.normal, FP_ONE as int)
    &&& -(MAX_COORD as int) <= p.offset <= MAX_COORD as int
    &&& color_wf(p.color)
    &&& 0 <= p.reflectivity <= FP_ONE as int
}

/// The ray inputs every intersection test admits.
pub open spec fn ray_wf(origin: V3, dir: V3) -> bool {
    &&& v3_bounded(origin, MAX_COORD as int)
    &&& v3_bounded(dir, DIR_MAX as int)
}

/// The exact value of the sphere intersection test.
pub open spec fn sphere_collide_spec(s: SphereM, origin: V3, dir: V3) -> Option<CollisionM> {
    let l = v3_sub(s.center, origin);
    let tca = v3_dot(l, dir);
    if tca < 0 || tca > T_CAP as int {
        None
    } else {
        let d2 = v3_dot(l, l) - fdiv(tca * tca, FP_ONE as int);
        let r2 = fdiv(s.radius * s.radius, FP_ONE as int);
        if d2 > r2 {
            None
        } else {
            let thc = sqrt_floor((r2 - d2) * (FP_ONE as int));
            let t0 = tca - thc;
            let t1 = tca + thc;
            let t = if t0 < 0 {
                t1
            } else {
                t0
            };
            if t < 0 {
                None
            } else {
                let hit = v3_add(origin, v3_scale(dir, t));
                if !v3_bounded(hit, MAX_COORD as int) {
                    None
                } else {
                    let nv = v3_sub(hit, s.center);
                    if v3_normsq(nv) == 0 {
                        None
                    } else {
                        Some(
                            CollisionM {
                                hit_point: hit,
                                normal: v3_normalize(nv),
                                distance: v3_magnitude(v3_sub(hit, origin)),
                            },
                        )
                    }
                }
            }
        }
    }
}

/// The exact value of the plane intersection test.
pub open spec fn plane_collide_spec(p: PlaneM, origin: V3, dir: V3) -> Option<CollisionM> {
    let denom = v3_dot(v3_neg(p.normal), dir);
    if denom < 1 {
        None
    } else {
        let p0 = v3_scale(p.normal, p.offset);
        let p0l0 = v3_sub(p0, origin);
        let t = fdiv(v3_dot(p0l0, v3_neg(p.normal)) * (FP_ONE as int), denom);
        if t < 0 || t > T_CAP as int {
            None
        } else {
            let hit = v3_add(origin, v3_scale(dir, t));
            if !v3_bounded(hit, MAX_COORD as int) {
                None
            } else {
                Some(
                    CollisionM {
                        hit_point: hit,
                        normal: p.normal,
                        distance: v3_magnitude(v3_sub(hit, origin)),
                    },
                )
            }
        }
    }
}

/// True when every component of `v` lies inside the world cube.
fn in_world(v: &Vector3) -> (r: bool)
    ensures
        r == v3_bounded(v@, MAX_COORD as int),
{
    -MAX_COORD <= v.x && v.x <= MAX_COORD && -MAX_COORD <= v.y && v.y <= MAX_COORD
        && -MAX_COORD <= v.z && v.z <= MAX_COORD
}

impl Sphere {
    /// Resolves a ray against this sphere.
    pub fn collide(&self, origin: Vector3, dir: Vector3) -> (r: Option<CollisionData>)
        requires
            sphere_wf(self@),
            ray_wf(origin@, dir@),
        ensures
            opt_collision_view(r) == sphere_collide_spec(self@, origin@, dir@),
            r is Some ==> collision_wf(r->Some_0@),
    {
        let l = self.center.sub(origin);
        proof {
            lemma_v3_dot_bound(l@, dir@, 0x4000_0000, DIR_MAX as int);
        }
        let tca = l.dot(dir);
        if tca < 0 || tca > T_CAP {
            return None;
        }
        let ll = l.dot(l);
        proof {
            lemma_v3_dot_bound(l@, l@, 0x4000_0000, 0x4000_0000);
            assert(0 <= l@.x * l@.x + l@.y * l@.y + l@.z * l@.z) by (nonlinear_arith);
            lemma_fdiv_bounds(l@.x * l@.x + l@.y * l@.y + l@.z * l@.z, FP_ONE as int);
            assert(0 <= tca as int * tca as int <= 0x3021_0000_0000_0000) by (nonlinear_arith)
                requires 0 <= tca as int <= 0x6F00_0000;
            lemma_fdiv_le(tca as int * tca as int, FP_ONE as int, 0x3021_0000_0000_0000);
            lemma_fdiv_bounds(tca as int * tca as int, FP_ONE as int);
            assert(0 <= self@.radius * self@.radius <= 0x400_0000_0000_0000) by (nonlinear_arith)
                requires 0 <= self@.radius <= MAX_COORD as int;
            lemma_fdiv_le(self@.radius * self@.radius, FP_ONE as int, 0x400_0000_0000_0000);
            lemma_fdiv_bounds(self@.radius * self@.radius, FP_ONE as int);
        }
        let tq = mul_fix(tca, tca);
        let d2 = ll - tq;
        let r2 = mul_fix(self.radius, self.radius);
        if d2 > r2 {
            return None;
        }
        let diff = r2 - d2;
        let thc_u = isqrt((diff * FP_ONE) as u64);
        proof {
            lemma_sqrt_floor_of((diff as int) * (FP_ONE as int), thc_u as int);
        }
        let thc = thc_u as i64;
        let t0 = tca - thc;
        let t1 = tca + thc;
        let t = if t0 < 0 {
            t1
        } else {
            t0
        };
        if t < 0 {
            return None;
        }
        proof {
            lemma_mul_fix_bound(dir@.x, t as int, DIR_MAX as int, 0x1_0000_0000);
            lemma_mul_fix_bound(dir@.y, t as int, DIR_MAX as int, 0x1_0000_0000);
            lemma_mul_fix_bound(dir@.z, t as int, DIR_MAX as int, 0x1_0000_0000);
        }
        let hit = origin.add(dir.scale(t));
        if !in_world(&hit) {
            return None;
        }
        let nv = hit.sub(self.center);
        let nm = nv.magnitude();
        if nm == 0 {
            return None;
        }
        let normal = nv.normalize();
        let dv = hit.sub(origin);
        let distance = dv.magnitude();
        Some(CollisionData { hit_point: hit, normal, distance })
    }

    /// The surface colour.
    pub fn color(&self) -> (r: Vector3)
        ensures
            r@ == self@.color,
    {
        self.color
    }

    /// The reflectivity coefficient.
    pub fn reflectivity(&self) -> (r: i64)
        ensures
            r == self@.reflectivity,
    {
        self.reflectivity
    }
}

impl Plane {
    /// Resolves a ray against this plane.
    pub fn collide(&self, origin: Vector3, dir: Vector3) -> (r: Option<CollisionData>)
        requires
            plane_wf(self@),
            ray_wf(origin@, dir@),
        ensures
            opt_collision_view(r) == plane_collide_spec(self@, origin@, dir@),
            r is Some ==> collision_wf(r->Some_0@),
    {
        let nn = self.normal.neg();
        proof {
            lemma_v3_dot_bound(nn@, dir@, FP_ONE as int, DIR_MAX as int);
        }
        let denom = nn.dot(dir);
        if denom < 1 {
            return None;
        }
        proof {
            lemma_mul_fix_bound(self@.normal.x, self@.offset, FP_ONE as int, MAX_COORD as int);
            lemma_mul_fix_bound(self@.normal.y, self@.offset, FP_ONE as int, MAX_COORD as int);
            lemma_mul_fix_bound(self@.normal.z, self@.offset, FP_ONE as int, MAX_COORD as int);
        }
        let p0 = self.normal.scale(self.offset);
        let p0l0 = p0.sub(origin);
        proof {
            lemma_v3_dot_bound(p0l0@, nn@, 0x4000_0000, FP_ONE as int);
        }
        let num = p0l0.dot(nn);
        let t = div_trunc(num * FP_ONE, denom);
        proof {
            lemma_fdiv_le((num as int) * (FP_ONE as int), denom as int,
                0x3_0000_0000_0000_0000);
        }
        if t < 0 || t > T_CAP {
            return None;
        }
        proof {
            lemma_mul_fix_bound(dir@.x, t as int, DIR_MAX as int, T_CAP as int);
            lemma_mul_fix_bound(dir@.y, t as int, DIR_MAX as int, T_CAP as int);
            lemma_mul_fix_bound(dir@.z, t as int, DIR_MAX as int, T_CAP as int);
        }
        let hit = origin.add(dir.scale(t));
        if !in_world(&hit) {
            return None;
        }
        let dv = hit.sub(origin);
        let distance = dv.magnitude();
        Some(CollisionData { hit_point: hit, normal: self.normal, distance })
    }

    /// The surface colour.
    pub fn color(&self) -> (r: Vector3)
        ensures
            r@ == self@.color,
    {
        self.color
    }

    /// The reflectivity coefficient.
    pub fn reflectivity(&self) -> (r: i64)
        ensures
            r == self@.reflectivity,
    {
        self.reflectivity
    }
}

/// Mathematical model of a `Collider`.
pub ghost enum ColliderM {
    Sphere(SphereM),
    Plane(PlaneM),
}

/// A scene object: the closed set of shapes the tracer knows.
#[derive(Clone, Copy, Debug)]
pub enum Collider {
    Sphere(Sphere),
    Plane(Plane),
}

impl View for Collider {
    type V = ColliderM;

    open spec fn view(&self) -> ColliderM {
        match self {
            Collider::Sphere(s) => ColliderM::Sphere(s@),
            Collider::Plane(p) => ColliderM::Plane(p@),
        }
    }
}

/// Well-formed collider.
pub open spec fn collider_wf(c: ColliderM) -> bool {
    match c {
        ColliderM::Sphere(s) => sphere_wf(s),
        ColliderM::Plane(p) => plane_wf(p),
    }
}

/// The exact value of the intersection test of any collider.
pub open spec fn collide_spec(c: ColliderM, origin: V3, dir: V3) -> Option<CollisionM> {
    match c {
        ColliderM::Sphere(s) => sphere_collide_spec(s, origin, dir),
        ColliderM::Plane(p) => plane_collide_spec(p, origin, dir),
    }
}

/// The surface colour of any collider.
pub open spec fn collider_color(c: ColliderM) -> V3 {
    match c {
        ColliderM::Sphere(s) => s.color,
        ColliderM::Plane(p) => p.color,
    }
}

/// The reflectivity of any collider.
pub open spec fn collider_reflectivity(c: ColliderM) -> int {
    match c {
        ColliderM::Sphere(s) => s.reflectivity,
        ColliderM::Plane(p) => p.reflectivity,
    }
}

/// A well-formed collider carries a colour in range and a reflectivity in
/// `[0, 1]`.
pub proof fn lemma_collider_attrs_wf(c: ColliderM)
    requires
        collider_wf(c),
    ensures
        color_wf(collider_color(c)),
        0 <= collider_reflectivity(c) <= FP_ONE as int,
{
    match c {
        ColliderM::Sphere(s) => {},
        ColliderM::Plane(p) => {},
    }
}

impl Collider {
    /// Resolves a ray against this collider.
    pub fn collide(&self, origin: Vector3, dir: Vector3) -> (r: Option<CollisionData>)
        requires
            collider_wf(self@),
            ray_wf(origin@, dir@),
        ensures
            opt_collision_view(r) == collide_spec(self@, origin@, dir@),
            r is Some ==> collision_wf(r->Some_0@),
    {
        match self {
            Collider::Sphere(s) => s.collide(origin, dir),
            Collider::Plane(p) => p.collide(origin, dir),
        }
    }

    /// The surface colour.
    pub fn color(&self) -> (r: Vector3)
        ensures
            r@ == collider_color(self@),
    {
        match self {
            Collider::Sphere(s) => s.color(),
            Collider::Plane(p) => p.color(),
        }
    }

    /// The reflectivity coefficient.
    pub fn reflectivity(&self) -> (r: i64)
        ensures
            r == collider_reflectivity(self@),
    {
        match self {
            Collider::Sphere(s) => s.reflectivity(),
            Collider::Plane(p) => p.reflectivity(),
        }
    }
}

} // verus!
