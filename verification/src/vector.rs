//! Vector and matrix primitives.
//!
//! `Vector3` holds three fixed-point coordinates (see `crate::fixed`). Its
//! mathematical counterpart is the ghost type `V3` with unbounded integer
//! components; every operation has an exact contract over `V3`.

use crate::fixed::{
    div_trunc, fdiv, is_isqrt, isqrt, lemma_fdiv_exact, lemma_fdiv_le, mul_fix, FP_ONE,
};
use vstd::prelude::*;

verus! {

/// Largest raw coordinate the world admits: points farther out are treated as
/// lying outside the scene. Chosen so that a sum of three squared coordinate
/// differences always fits in an `i64`.
pub const MAX_COORD: i64 = 0x2000_0000;

/// Mathematical model of a `Vector3`: unbounded integer components.
pub ghost struct V3 {
    pub x: int,
    pub y: int,
    pub z: int,
}

/// A three-component fixed-point vector.
#[derive(Clone, Copy, Debug, PartialEq, Eq, Structural)]
pub struct Vector3 {
    pub x: i64,
    pub y: i64,
    pub z: i64,
}

impl View for Vector3 {
    type V = V3;

    open spec fn view(&self) -> V3 {
        V3 { x: self.x as int, y: self.y as int, z: self.z as int }
    }
}

/// Every component of `a` lies in `[-c, c]`.
pub open spec fn v3_bounded(a: V3, c: int) -> bool {
    &&& -c <= a.x <= c
    &&& -c <= a.y <= c
    &&& -c <= a.z <= c
}

pub open spec fn v3_zero() -> V3 {
    V3 { x: 0, y: 0, z: 0 }
}

pub open spec fn v3_add(a: V3, b: V3) -> V3 {
    V3 { x: a.x + b.x, y: a.y + b.y, z: a.z + b.z }
}

pub open spec fn v3_sub(a: V3, b: V3) -> V3 {
    V3 { x: a.x - b.x, y: a.y - b.y, z: a.z - b.z }
}

pub open spec fn v3_neg(a: V3) -> V3 {
    V3 { x: -a.x, y: -a.y, z: -a.z }
}

/// Scaling by a fixed-point factor `s`: each component becomes
/// `component * s / FP_ONE`, rounded toward zero.
pub open spec fn v3_scale(a: V3, s: int) -> V3 {
    V3 {
        x: fdiv(a.x * s, FP_ONE as int),
        y: fdiv(a.y * s, FP_ONE as int),
        z: fdiv(a.z * s, FP_ONE as int),
    }
}

/// Raw (unscaled) sum of squared components. If `a` represents the real
/// vector `v`, this is `(FP_ONE * |v|)^2`.
pub open spec fn v3_normsq(a: V3) -> int {
    a.x * a.x + a.y * a.y + a.z * a.z
}

/// Fixed-point dot product: the raw sum of products rescaled by `FP_ONE`.
pub open spec fn v3_dot(a: V3, b: V3) -> int {
    fdiv(a.x * b.x + a.y * b.y + a.z * b.z, FP_ONE as int)
}

/// The integer square root, characterised by `is_isqrt`.
pub open spec fn sqrt_floor(n: int) -> int {
    choose|r: int| is_isqrt(n, r)
}

/// The integer square root is unique, so any witness pins `sqrt_floor` down.
pub proof fn lemma_sqrt_floor_of(n: int, r: int)
    requires
        is_isqrt(n, r),
    ensures
        sqrt_floor(n) == r,
{
    let w = choose|q: int| is_isqrt(n, q);
    assert(is_isqrt(n, w));
    assert(w == r) by (nonlinear_arith)
        requires is_isqrt(n, w) && is_isqrt(n, r);
}

/// Every nonnegative integer has an integer square root, so `sqrt_floor` of
/// it satisfies the characterisation.
pub proof fn lemma_sqrt_floor_exists(n: int)
    requires
        0 <= n,
    ensures
        is_isqrt(n, sqrt_floor(n)),
    decreases n,
{
    if n == 0 {
        assert(is_isqrt(0, 0)) by (nonlinear_arith);
    } else {
        lemma_sqrt_floor_exists(n - 1);
        let r = sqrt_floor(n - 1);
        if (r + 1) * (r + 1) <= n {
            assert(n == (r + 1) * (r + 1));
            assert(is_isqrt(n, r + 1)) by (nonlinear_arith)
                requires 0 <= r && n == (r + 1) * (r + 1);
        } else {
            assert(is_isqrt(n, r));
        }
    }
    assert(exists|q: int| is_isqrt(n, q));
}

/// Fixed-point magnitude: the integer square root of the raw sum of squares.
pub open spec fn v3_magnitude(a: V3) -> int {
    sqrt_floor(v3_normsq(a))
}

/// Fixed-point normalisation. A zero vector normalises to zero (the guarded
/// degenerate case); otherwise each component is divided by the magnitude.
pub open spec fn v3_normalize(a: V3) -> V3 {
    let m = v3_magnitude(a);
    if v3_normsq(a) == 0 {
        v3_zero()
    } else {
        V3 {
            x: fdiv(a.x * FP_ONE, m),
            y: fdiv(a.y * FP_ONE, m),
            z: fdiv(a.z * FP_ONE, m),
        }
    }
}

/// Fixed-point reflection of `i` about `n`: `2 * dot(i, n) * n - i`.
pub open spec fn v3_reflect(i: V3, n: V3) -> V3 {
    v3_sub(v3_scale(n, 2 * v3_dot(i, n)), i)
}

/// The absolute value of a fixed-point product `fdiv(a * b, FP_ONE)` is
/// bounded by `ca * cb / FP_ONE` whenever `|a| <= ca` and `|b| <= cb`.
pub proof fn lemma_mul_fix_bound(a: int, b: int, ca: int, cb: int)
    requires
        0 <= ca,
        0 <= cb,
        -ca <= a <= ca,
        -cb <= b <= cb,
    ensures
        -(ca * cb) <= a * b <= ca * cb,
        -((ca * cb) / (FP_ONE as int)) <= fdiv(a * b, FP_ONE as int) <= (ca * cb) / (FP_ONE as int),
        (ca * cb) / (FP_ONE as int) <= ca * cb,
{
    assert(-(ca * cb) <= a * b <= ca * cb) by (nonlinear_arith)
        requires 0 <= ca && 0 <= cb && -ca <= a <= ca && -cb <= b <= cb;
    assert(0 <= ca * cb) by (nonlinear_arith)
        requires 0 <= ca && 0 <= cb;
    lemma_fdiv_le(a * b, FP_ONE as int, ca * cb);
}

/// A bound on both arguments of the dot product bounds the result by
/// `3 * ca * cb / FP_ONE`.
pub proof fn lemma_v3_dot_bound(a: V3, b: V3, ca: int, cb: int)
    requires
        0 <= ca,
        0 <= cb,
        v3_bounded(a, ca),
        v3_bounded(b, cb),
    ensures
        -((3 * ca * cb) / (FP_ONE as int)) <= v3_dot(a, b) <= (3 * ca * cb) / (FP_ONE as int),
        (3 * ca * cb) / (FP_ONE as int) <= 3 * ca * cb,
{
    assert(-(ca * cb) <= a.x * b.x <= ca * cb) by (nonlinear_arith)
        requires 0 <= ca && 0 <= cb && -ca <= a.x <= ca && -cb <= b.x <= cb;
    assert(-(ca * cb) <= a.y * b.y <= ca * cb) by (nonlinear_arith)
        requires 0 <= ca && 0 <= cb && -ca <= a.y <= ca && -cb <= b.y <= cb;
    assert(-(ca * cb) <= a.z * b.z <= ca * cb) by (nonlinear_arith)
        requires 0 <= ca && 0 <= cb && -ca <= a.z <= ca && -cb <= b.z <= cb;
    assert(0 <= 3 * (ca * cb)) by (nonlinear_arith)
        requires 0 <= ca && 0 <= cb;
    assert(3 * (ca * cb) == 3 * ca * cb) by (nonlinear_arith);
    lemma_fdiv_le(a.x * b.x + a.y * b.y + a.z * b.z, FP_ONE as int, 3 * ca * cb);
}

impl Vector3 {
    /// The zero vector.
    pub fn zero() -> (r: Vector3)
        ensures
            r@ == v3_zero(),
    {
        Vector3 { x: 0, y: 0, z: 0 }
    }

    /// Component-wise sum.
    pub fn add(self, rhs: Vector3) -> (r: Vector3)
        requires
            v3_bounded(self@, 0x1000_0000_0000_0000),
            v3_bounded(rhs@, 0x1000_0000_0000_0000),
        ensures
            r@ == v3_add(self@, rhs@),
    {
        Vector3 { x: self.x + rhs.x, y: self.y + rhs.y, z: self.z + rhs.z }
    }

    /// Component-wise difference.
    pub fn sub(self, rhs: Vector3) -> (r: Vector3)
        requires
            v3_bounded(self@, 0x1000_0000_0000_0000),
            v3_bounded(rhs@, 0x1000_0000_0000_0000),
        ensures
            r@ == v3_sub(self@, rhs@),
    {
        Vector3 { x: self.x - rhs.x, y: self.y - rhs.y, z: self.z - rhs.z }
    }

    /// Component-wise negation.
    pub fn neg(self) -> (r: Vector3)
        requires
            v3_bounded(self@, 0x1000_0000_0000_0000),
        ensures
            r@ == v3_neg(self@),
    {
        Vector3 { x: -self.x, y: -self.y, z: -self.z }
    }

    /// Scales by a fixed-point factor.
    pub fn scale(self, s: i64) -> (r: Vector3)
        requires
            v3_bounded(self@, 0x4000_0000),
            -0x1_0000_0000 <= s <= 0x1_0000_0000,
        ensures
            r@ == v3_scale(self@, s as int),
    {
        proof {
            lemma_mul_fix_bound(self@.x, s as int, 0x4000_0000, 0x1_0000_0000);
            lemma_mul_fix_bound(self@.y, s as int, 0x4000_0000, 0x1_0000_0000);
            lemma_mul_fix_bound(self@.z, s as int, 0x4000_0000, 0x1_0000_0000);
        }
        Vector3 { x: mul_fix(self.x, s), y: mul_fix(self.y, s), z: mul_fix(self.z, s) }
    }

    /// Fixed-point dot product.
    pub fn dot(self, rhs: Vector3) -> (r: i64)
        requires
            v3_bounded(self@, 0x4000_0000),
            v3_bounded(rhs@, 0x4000_0000),
        ensures
            r == v3_dot(self@, rhs@),
    {
        proof {
            lemma_v3_dot_bound(self@, rhs@, 0x4000_0000, 0x4000_0000);
            assert(-0x1000_0000_0000_0000 <= self@.x * rhs@.x <= 0x1000_0000_0000_0000)
                by (nonlinear_arith)
                requires v3_bounded(self@, 0x4000_0000) && v3_bounded(rhs@, 0x4000_0000);
            assert(-0x1000_0000_0000_0000 <= self@.y * rhs@.y <= 0x1000_0000_0000_0000)
                by (nonlinear_arith)
                requires v3_bounded(self@, 0x4000_0000) && v3_bounded(rhs@, 0x4000_0000);
            assert(-0x1000_0000_0000_0000 <= self@.z * rhs@.z <= 0x1000_0000_0000_0000)
                by (nonlinear_arith)
                requires v3_bounded(self@, 0x4000_0000) && v3_bounded(rhs@, 0x4000_0000);
        }
        let s: i64 = self.x * rhs.x + self.y * rhs.y + self.z * rhs.z;
        div_trunc(s, FP_ONE)
    }

    /// Fixed-point magnitude, the integer square root of the raw sum of
    /// squared components.
    pub fn magnitude(self) -> (r: i64)
        requires
            v3_bounded(self@, 0x4000_0000),
        ensures
            r == v3_magnitude(self@),
            is_isqrt(v3_normsq(self@), r as int),
            0 <= r < 0x8000_0000,
            r == 0 <==> v3_normsq(self@) == 0,
    {
        proof {
            assert(0 <= self@.x * self@.x <= 0x1000_0000_0000_0000) by (nonlinear_arith)
                requires -0x4000_0000 <= self@.x <= 0x4000_0000;
            assert(0 <= self@.y * self@.y <= 0x1000_0000_0000_0000) by (nonlinear_arith)
                requires -0x4000_0000 <= self@.y <= 0x4000_0000;
            assert(0 <= self@.z * self@.z <= 0x1000_0000_0000_0000) by (nonlinear_arith)
                requires -0x4000_0000 <= self@.z <= 0x4000_0000;
        }
        let q: i64 = self.x * self.x + self.y * self.y + self.z * self.z;
        let r: u64 = isqrt(q as u64);
        proof {
            lemma_sqrt_floor_of(v3_normsq(self@), r as int);
            let n = v3_normsq(self@);
            let ri = r as int;
            assert(ri == 0 ==> n == 0) by (nonlinear_arith)
                requires 0 <= n && n < (ri + 1) * (ri + 1) && 0 <= ri;
            assert(n == 0 ==> ri == 0) by (nonlinear_arith)
                requires 0 <= ri && ri * ri <= n;
        }
        r as i64
    }

    /// Fixed-point normalisation: the vector scaled to (near) unit length.
    /// A zero vector yields the zero vector, the guarded degenerate case.
    pub fn normalize(self) -> (r: Vector3)
        requires
            v3_bounded(self@, 0x4000_0000),
        ensures
            r@ == v3_normalize(self@),
            v3_bounded(r@, FP_ONE as int),
    {
        let m = self.magnitude();
        if m == 0 {
            proof {
                assert(v3_bounded(v3_zero(), FP_ONE as int));
            }
            Vector3::zero()
        } else {
            proof {
                lemma_component_le_magnitude(self@, m as int);
                assert(-(m as int) * (FP_ONE as int) <= self@.x * (FP_ONE as int)
                    <= (m as int) * (FP_ONE as int)) by (nonlinear_arith)
                    requires -(m as int) <= self@.x <= m as int && 0 < FP_ONE as int;
                assert(-(m as int) * (FP_ONE as int) <= self@.y * (FP_ONE as int)
                    <= (m as int) * (FP_ONE as int)) by (nonlinear_arith)
                    requires -(m as int) <= self@.y <= m as int && 0 < FP_ONE as int;
                assert(-(m as int) * (FP_ONE as int) <= self@.z * (FP_ONE as int)
                    <= (m as int) * (FP_ONE as int)) by (nonlinear_arith)
                    requires -(m as int) <= self@.z <= m as int && 0 < FP_ONE as int;
                assert(0 <= (m as int) * (FP_ONE as int)) by (nonlinear_arith)
                    requires 0 <= m as int;
                lemma_fdiv_le(self@.x * (FP_ONE as int), m as int, (m as int) * (FP_ONE as int));
                lemma_fdiv_le(self@.y * (FP_ONE as int), m as int, (m as int) * (FP_ONE as int));
                lemma_fdiv_le(self@.z * (FP_ONE as int), m as int, (m as int) * (FP_ONE as int));
                assert((m as int) * (FP_ONE as int) == (FP_ONE as int) * (m as int))
                    by (nonlinear_arith);
                lemma_fdiv_exact(FP_ONE as int, m as int);
                assert(((FP_ONE as int) * (m as int)) / (m as int) == FP_ONE as int);
            }
            Vector3 {
                x: div_trunc(self.x * FP_ONE, m),
                y: div_trunc(self.y * FP_ONE, m),
                z: div_trunc(self.z * FP_ONE, m),
            }
        }
    }

    /// Reflection of `self` about `n`: `2 * dot(self, n) * n - self`.
    pub fn reflect(self, n: Vector3) -> (r: Vector3)
        requires
            v3_bounded(self@, 0x40_0000),
            v3_bounded(n@, FP_ONE as int),
        ensures
            r@ == v3_reflect(self@, n@),
    {
        let d: i64 = self.dot(n);
        proof {
            lemma_v3_dot_bound(self@, n@, 0x40_0000, FP_ONE as int);
        }
        let k: i64 = 2 * d;
        let scaled = n.scale(k);
        proof {
            lemma_mul_fix_bound(n@.x, k as int, FP_ONE as int, 0x1_0000_0000);
            lemma_mul_fix_bound(n@.y, k as int, FP_ONE as int, 0x1_0000_0000);
            lemma_mul_fix_bound(n@.z, k as int, FP_ONE as int, 0x1_0000_0000);
        }
        scaled.sub(self)
    }
}

/// Mathematical model of a `Vector4`.
pub ghost struct V4 {
    pub x: int,
    pub y: int,
    pub z: int,
    pub w: int,
}

/// A four-component fixed-point vector, used as a matrix row.
#[derive(Clone, Copy, Debug, PartialEq, Eq, Structural)]
pub struct Vector4 {
    pub x: i64,
    pub y: i64,
    pub z: i64,
    pub w: i64,
}

impl View for Vector4 {
    type V = V4;

    open spec fn view(&self) -> V4 {
        V4 { x: self.x as int, y: self.y as int, z: self.z as int, w: self.w as int }
    }
}

/// Mathematical model of a `Matrix4`.
pub ghost struct M4 {
    pub x: V4,
    pub y: V4,
    pub z: V4,
    pub w: V4,
}

/// A 4x4 fixed-point affine transform, stored as four rows.
#[derive(Clone, Copy, Debug, PartialEq, Eq, Structural)]
pub struct Matrix4 {
    pub x: Vector4,
    pub y: Vector4,
    pub z: Vector4,
    pub w: Vector4,
}

impl View for Matrix4 {
    type V = M4;

    open spec fn view(&self) -> M4 {
        M4 { x: self.x@, y: self.y@, z: self.z@, w: self.w@ }
    }
}

/// A cosine/sine pair in fixed point: both components in the unit range and
/// the sum of their squares within rounding tolerance of one. The pair
/// obtained by rounding the cosine and sine of any angle satisfies this.
pub open spec fn rotation_pair_wf(c: int, s: int) -> bool {
    &&& -(FP_ONE as int) <= c <= FP_ONE as int
    &&& -(FP_ONE as int) <= s <= FP_ONE as int
    &&& (FP_ONE as int) * (FP_ONE as int) - 2 * (FP_ONE as int) <= c * c + s * s <= (FP_ONE as int)
        * (FP_ONE as int) + 2 * (FP_ONE as int)
}

/// The raw dot product of the linear parts of two matrix rows.
pub open spec fn row_dot(a: V4, b: V4) -> int {
    a.x * b.x + a.y * b.y + a.z * b.z
}

/// A squared norm within rounding tolerance of one, in fixed point.
pub open spec fn near_unit_normsq(n: int) -> bool {
    (FP_ONE as int) * (FP_ONE as int) - 2 * (FP_ONE as int) <= n <= (FP_ONE as int) * (FP_ONE
        as int) + 2 * (FP_ONE as int)
}

/// A dot product within rounding tolerance of zero, in fixed point.
pub open spec fn near_orthogonal(n: int) -> bool {
    -(2 * (FP_ONE as int)) <= n <= 2 * (FP_ONE as int)
}

/// A well-formed rotation: the linear part is bounded by `FP_ONE` per entry,
/// the matrix carries no translation for the first three rows, and the rows'
/// linear parts are orthonormal up to fixed-point rounding tolerance — each
/// has squared norm within `2 * FP_ONE` of one, and distinct rows are
/// orthogonal within the same tolerance.
pub open spec fn m4_rotation_wf(m: M4) -> bool {
    &&& -(FP_ONE as int) <= m.x.x <= FP_ONE as int
    &&& -(FP_ONE as int) <= m.x.y <= FP_ONE as int
    &&& -(FP_ONE as int) <= m.x.z <= FP_ONE as int
    &&& -(FP_ONE as int) <= m.y.x <= FP_ONE as int
    &&& -(FP_ONE as int) <= m.y.y <= FP_ONE as int
    &&& -(FP_ONE as int) <= m.y.z <= FP_ONE as int
    &&& -(FP_ONE as int) <= m.z.x <= FP_ONE as int
    &&& -(FP_ONE as int) <= m.z.y <= FP_ONE as int
    &&& -(FP_ONE as int) <= m.z.z <= FP_ONE as int
    &&& m.x.w == 0
    &&& m.y.w == 0
    &&& m.z.w == 0
    &&& near_unit_normsq(row_dot(m.x, m.x))
    &&& near_unit_normsq(row_dot(m.y, m.y))
    &&& near_unit_normsq(row_dot(m.z, m.z))
    &&& near_orthogonal(row_dot(m.x, m.y))
    &&& near_orthogonal(row_dot(m.x, m.z))
    &&& near_orthogonal(row_dot(m.y, m.z))
}

/// The rotation about the x axis whose fixed-point cosine and sine are
/// `c` and `s`.
pub open spec fn m4_x_rot(c: int, s: int) -> M4 {
    M4 {
        x: V4 { x: FP_ONE as int, y: 0, z: 0, w: 0 },
        y: V4 { x: 0, y: c, z: s, w: 0 },
        z: V4 { x: 0, y: -s, z: c, w: 0 },
        w: V4 { x: 0, y: 0, z: 0, w: FP_ONE as int },
    }
}

/// Applying an affine transform to `v` taken as a row vector: each result
/// component is the fixed-point dot of `v` with a row's linear part, plus the
/// row's translation entry.
pub open spec fn v3_transform(v: V3, m: M4) -> V3 {
    V3 {
        x: fdiv(v.x * m.x.x + v.y * m.x.y + v.z * m.x.z, FP_ONE as int) + m.x.w,
        y: fdiv(v.x * m.y.x + v.y * m.y.y + v.z * m.y.z, FP_ONE as int) + m.y.w,
        z: fdiv(v.x * m.z.x + v.y * m.z.y + v.z * m.z.z, FP_ONE as int) + m.z.w,
    }
}

impl Matrix4 {
    /// Rotation about the x axis. The caller supplies the fixed-point cosine
    /// and sine of the desired angle — a pair whose squares sum to one
    /// within rounding tolerance; the trigonometry itself stays outside the
    /// library.
    pub fn x_rot(c: i64, s: i64) -> (r: Matrix4)
        requires
            rotation_pair_wf(c as int, s as int),
        ensures
            r@ == m4_x_rot(c as int, s as int),
            m4_rotation_wf(r@),
    {
        proof {
            assert((-(s as int)) * (-(s as int)) == (s as int) * (s as int)) by (nonlinear_arith);
            assert((c as int) * (-(s as int)) + (s as int) * (c as int) == 0) by (nonlinear_arith);
        }
        Matrix4 {
            x: Vector4 { x: FP_ONE, y: 0, z: 0, w: 0 },
            y: Vector4 { x: 0, y: c, z: s, w: 0 },
            z: Vector4 { x: 0, y: -s, z: c, w: 0 },
            w: Vector4 { x: 0, y: 0, z: 0, w: FP_ONE },
        }
    }
}

/// One row of an affine transform applied to `v`.
fn row_apply(v: Vector3, row: Vector4) -> (r: i64)
    requires
        v3_bounded(v@, 0x1000_0000),
        -FP_ONE <= row.x <= FP_ONE,
        -FP_ONE <= row.y <= FP_ONE,
        -FP_ONE <= row.z <= FP_ONE,
        row.w == 0,
    ensures
        r == fdiv(v@.x * row@.x + v@.y * row@.y + v@.z * row@.z, FP_ONE as int) + row@.w,
{
    proof {
        assert(-0x1000_0000_0000 <= v@.x * row@.x <= 0x1000_0000_0000) by (nonlinear_arith)
            requires -0x1000_0000 <= v@.x <= 0x1000_0000 && -65536 <= row@.x <= 65536;
        assert(-0x1000_0000_0000 <= v@.y * row@.y <= 0x1000_0000_0000) by (nonlinear_arith)
            requires -0x1000_0000 <= v@.y <= 0x1000_0000 && -65536 <= row@.y <= 65536;
        assert(-0x1000_0000_0000 <= v@.z * row@.z <= 0x1000_0000_0000) by (nonlinear_arith)
            requires -0x1000_0000 <= v@.z <= 0x1000_0000 && -65536 <= row@.z <= 65536;
        lemma_fdiv_le(
            v@.x * row@.x + v@.y * row@.y + v@.z * row@.z,
            FP_ONE as int,
            0x3000_0000_0000,
        );
    }
    let s: i64 = v.x * row.x + v.y * row.y + v.z * row.z;
    let q: i64 = div_trunc(s, FP_ONE);
    q + row.w
}

impl Vector3 {
    /// Applies an affine transform, treating `self` as a row vector.
    pub fn transform(self, m: &Matrix4) -> (r: Vector3)
        requires
            v3_bounded(self@, 0x1000_0000),
            m4_rotation_wf(m@),
        ensures
            r@ == v3_transform(self@, m@),
    {
        Vector3 {
            x: row_apply(self, m.x),
            y: row_apply(self, m.y),
            z: row_apply(self, m.z),
        }
    }
}

/// A transform with a well-formed rotation stretches a bound on the input
/// vector by at most a factor of three.
pub proof fn lemma_transform_bound(v: V3, m: M4, c: int)
    requires
        0 <= c,
        v3_bounded(v, c),
        m4_rotation_wf(m),
    ensures
        v3_bounded(v3_transform(v, m), 3 * c),
{
    let f = FP_ONE as int;
    assert(-(c * f) <= v.x * m.x.x <= c * f && -(c * f) <= v.y * m.x.y <= c * f
        && -(c * f) <= v.z * m.x.z <= c * f) by (nonlinear_arith)
        requires 0 <= c && -c <= v.x <= c && -c <= v.y <= c && -c <= v.z <= c
            && -f <= m.x.x <= f && -f <= m.x.y <= f && -f <= m.x.z <= f && f == FP_ONE as int;
    assert(-(c * f) <= v.x * m.y.x <= c * f && -(c * f) <= v.y * m.y.y <= c * f
        && -(c * f) <= v.z * m.y.z <= c * f) by (nonlinear_arith)
        requires 0 <= c && -c <= v.x <= c && -c <= v.y <= c && -c <= v.z <= c
            && -f <= m.y.x <= f && -f <= m.y.y <= f && -f <= m.y.z <= f && f == FP_ONE as int;
    assert(-(c * f) <= v.x * m.z.x <= c * f && -(c * f) <= v.y * m.z.y <= c * f
        && -(c * f) <= v.z * m.z.z <= c * f) by (nonlinear_arith)
        requires 0 <= c && -c <= v.x <= c && -c <= v.y <= c && -c <= v.z <= c
            && -f <= m.z.x <= f && -f <= m.z.y <= f && -f <= m.z.z <= f && f == FP_ONE as int;
    assert(0 <= 3 * (c * f)) by (nonlinear_arith)
        requires 0 <= c && 0 < f;
    lemma_fdiv_le(v.x * m.x.x + v.y * m.x.y + v.z * m.x.z, f, 3 * (c * f));
    lemma_fdiv_le(v.x * m.y.x + v.y * m.y.y + v.z * m.y.z, f, 3 * (c * f));
    lemma_fdiv_le(v.x * m.z.x + v.y * m.z.y + v.z * m.z.z, f, 3 * (c * f));
    assert((3 * (c * f)) / f == 3 * c) by {
        assert(3 * (c * f) == (3 * c) * f) by (nonlinear_arith);
        lemma_fdiv_exact(3 * c, f);
    }
}

/// Reflecting a vector bounded by `c` about a normal bounded by `FP_ONE`
/// yields a vector bounded by `7 * c`.
pub proof fn lemma_reflect_bound(i: V3, n: V3, c: int)
    requires
        0 <= c,
        v3_bounded(i, c),
        v3_bounded(n, FP_ONE as int),
    ensures
        v3_bounded(v3_reflect(i, n), 7 * c),
{
    let d = v3_dot(i, n);
    lemma_v3_dot_bound(i, n, c, FP_ONE as int);
    assert(3 * c * (FP_ONE as int) == (3 * c) * (FP_ONE as int));
    lemma_fdiv_exact(3 * c, FP_ONE as int);
    assert((3 * c * (FP_ONE as int)) / (FP_ONE as int) == 3 * c);
    assert(-(3 * c) <= d <= 3 * c);
    let k = 2 * d;
    lemma_mul_fix_bound(n.x, k, FP_ONE as int, 6 * c);
    lemma_mul_fix_bound(n.y, k, FP_ONE as int, 6 * c);
    lemma_mul_fix_bound(n.z, k, FP_ONE as int, 6 * c);
    assert((FP_ONE as int) * (6 * c) == (6 * c) * (FP_ONE as int)) by (nonlinear_arith);
    lemma_fdiv_exact(6 * c, FP_ONE as int);
    assert(((FP_ONE as int) * (6 * c)) / (FP_ONE as int) == 6 * c);
}

/// No component of a vector exceeds its magnitude in absolute value.
pub proof fn lemma_component_le_magnitude(a: V3, m: int)
    requires
        is_isqrt(v3_normsq(a), m),
    ensures
        -m <= a.x <= m,
        -m <= a.y <= m,
        -m <= a.z <= m,
{
    assert(-m <= a.x <= m && -m <= a.y <= m && -m <= a.z <= m) by (nonlinear_arith)
        requires
            0 <= m
                && a.x * a.x + a.y * a.y + a.z * a.z < (m + 1) * (m + 1);
}

} // verus!
