use raytracer::fixed::{clamp_i64, div_trunc, isqrt, mul_fix, pow_fix, FP_ONE};
use raytracer::vector::{Matrix4, Vector3};

#[test]
fn div_trunc_rounds_toward_zero() {
    assert_eq!(div_trunc(7, 2), 3);
    assert_eq!(div_trunc(-7, 2), -3);
    assert_eq!(div_trunc(6, 3), 2);
    assert_eq!(div_trunc(-6, 3), -2);
    assert_eq!(div_trunc(0, 5), 0);
}

#[test]
fn isqrt_exact_and_floor() {
    assert_eq!(isqrt(0), 0);
    assert_eq!(isqrt(1), 1);
    assert_eq!(isqrt(24), 4);
    assert_eq!(isqrt(25), 5);
    assert_eq!(isqrt(26), 5);
    assert_eq!(isqrt((1u64 << 62) - 1), (1u64 << 31) - 1);
}

#[test]
fn mul_fix_scales_products() {
    // 2.0 * 3.0 == 6.0
    assert_eq!(mul_fix(2 * FP_ONE, 3 * FP_ONE), 6 * FP_ONE);
    // 0.5 * 0.5 == 0.25
    assert_eq!(mul_fix(FP_ONE / 2, FP_ONE / 2), FP_ONE / 4);
    // negative factors keep the truncation toward zero
    assert_eq!(mul_fix(-3 * FP_ONE, FP_ONE / 2), -3 * FP_ONE / 2);
}

#[test]
fn pow_fix_powers_of_half() {
    assert_eq!(pow_fix(FP_ONE, 10), FP_ONE);
    assert_eq!(pow_fix(FP_ONE / 2, 1), FP_ONE / 2);
    assert_eq!(pow_fix(FP_ONE / 2, 2), FP_ONE / 4);
    assert_eq!(pow_fix(0, 3), 0);
    assert_eq!(pow_fix(0, 0), FP_ONE);
}

#[test]
fn clamp_holds_range_exactly() {
    assert_eq!(clamp_i64(300 * FP_ONE, 0, 255 * FP_ONE), 255 * FP_ONE);
    assert_eq!(clamp_i64(-5, 0, 255 * FP_ONE), 0);
    assert_eq!(clamp_i64(7, 0, 255 * FP_ONE), 7);
}

#[test]
fn vector_arithmetic_componentwise() {
    let a = Vector3 { x: FP_ONE, y: 2 * FP_ONE, z: 3 * FP_ONE };
    let b = Vector3 { x: 4 * FP_ONE, y: 5 * FP_ONE, z: 6 * FP_ONE };
    assert_eq!(a.add(b), Vector3 { x: 5 * FP_ONE, y: 7 * FP_ONE, z: 9 * FP_ONE });
    assert_eq!(b.sub(a), Vector3 { x: 3 * FP_ONE, y: 3 * FP_ONE, z: 3 * FP_ONE });
    assert_eq!(a.neg(), Vector3 { x: -FP_ONE, y: -2 * FP_ONE, z: -3 * FP_ONE });
    assert_eq!(a.scale(2 * FP_ONE), Vector3 { x: 2 * FP_ONE, y: 4 * FP_ONE, z: 6 * FP_ONE });
    assert_eq!(a.dot(b), 32 * FP_ONE);
}

#[test]
fn magnitude_of_pythagorean_triple() {
    let v = Vector3 { x: 3 * FP_ONE, y: 4 * FP_ONE, z: 0 };
    assert_eq!(v.magnitude(), 5 * FP_ONE);
}

#[test]
fn normalize_pythagorean_triple() {
    let v = Vector3 { x: 3 * FP_ONE, y: 4 * FP_ONE, z: 0 };
    let n = v.normalize();
    // 3/5 and 4/5 in fixed point, truncated
    assert_eq!(n, Vector3 { x: 39321, y: 52428, z: 0 });
}

#[test]
fn normalize_zero_vector_yields_zero() {
    let v = Vector3 { x: 0, y: 0, z: 0 };
    assert_eq!(v.normalize(), Vector3 { x: 0, y: 0, z: 0 });
}

#[test]
fn normalize_is_near_unit() {
    let v = Vector3 { x: 123 * FP_ONE + 7, y: -45 * FP_ONE + 11, z: 997 * FP_ONE - 3 };
    let n = v.normalize();
    let q = n.x * n.x + n.y * n.y + n.z * n.z;
    let unit = FP_ONE * FP_ONE;
    assert!(q >= unit - 9 * FP_ONE);
    assert!(q <= unit + 9 * FP_ONE);
}

#[test]
fn reflect_about_axis_is_involution() {
    let n = Vector3 { x: 0, y: 0, z: FP_ONE };
    let i = Vector3 { x: FP_ONE, y: 2 * FP_ONE, z: 3 * FP_ONE };
    let r = i.reflect(n);
    assert_eq!(r, Vector3 { x: -FP_ONE, y: -2 * FP_ONE, z: 3 * FP_ONE });
    assert_eq!(r.reflect(n), i);
}

#[test]
fn x_rot_quarter_turn() {
    // cosine 0, sine 1: a quarter turn about the x axis
    let m = Matrix4::x_rot(0, FP_ONE);
    let v = Vector3 { x: 0, y: FP_ONE, z: 0 };
    assert_eq!(v.transform(&m), Vector3 { x: 0, y: 0, z: -FP_ONE });
    let w = Vector3 { x: FP_ONE, y: 0, z: 0 };
    assert_eq!(w.transform(&m), Vector3 { x: FP_ONE, y: 0, z: 0 });
}

#[test]
fn x_rot_rounded_eighth_turn_and_back() {
    // the rounded cosine/sine pair of 45 degrees: 46341^2 * 2 lies within
    // the tolerance of FP_ONE^2 that x_rot requires
    let c: i64 = 46341;
    let s: i64 = 46341;
    assert!(FP_ONE * FP_ONE - 2 * FP_ONE <= c * c + s * s);
    assert!(c * c + s * s <= FP_ONE * FP_ONE + 2 * FP_ONE);
    let m = Matrix4::x_rot(c, s);
    let v = Vector3 { x: 0, y: FP_ONE, z: 0 };
    let w = v.transform(&m);
    assert_eq!(w, Vector3 { x: 0, y: 46341, z: -46341 });
    // rotating back recovers the vector exactly here
    let back = Matrix4::x_rot(c, -s);
    assert_eq!(w.transform(&back), v);
}

#[test]
fn x_rot_identity() {
    // cosine 1, sine 0: the identity on every axis
    let m = Matrix4::x_rot(FP_ONE, 0);
    let v = Vector3 { x: 7 * FP_ONE, y: -2 * FP_ONE, z: 9 * FP_ONE };
    assert_eq!(v.transform(&m), v);
}
