//! The camera ray generator: maps a pixel coordinate to a world-space ray
//! direction, optionally rotated by the eye orientation.

use crate::fixed::FP_ONE;
use crate::vector::{
    lemma_transform_bound, m4_rotation_wf, v3_bounded, v3_normalize, v3_transform, Matrix4,
    Vector3, M4, V3,
};
use vstd::prelude::*;

verus! {

/// Half of `FP_ONE`: the value of one half in fixed point.
pub const HALF_FP: i64 = 32768;

/// The unnormalised view-space direction of pixel `(x, y)` in a `w` by `h`
/// image: offset from the image centre, with the view plane one image-width
/// in front of the eye.
pub open spec fn view_vec(x: int, y: int, w: int, h: int) -> V3 {
    V3 {
        x: x * (FP_ONE as int) - w * (HALF_FP as int),
        y: h * (HALF_FP as int) - y * (FP_ONE as int),
        z: -(w * (FP_ONE as int)),
    }
}

/// The world-space ray direction of a pixel: the view-space direction
/// normalised and rotated by the eye orientation.
pub open spec fn pixel_ray_spec(x: int, y: int, w: int, h: int, m: M4) -> V3 {
    v3_transform(v3_normalize(view_vec(x, y, w, h)), m)
}

/// Maps a pixel coordinate to its world-space ray direction. The resulting
/// direction is bounded by `3 * FP_ONE`, the bound the shading engine admits
/// for primary rays.
pub fn pixel_ray(x: u32, y: u32, width: u32, height: u32, rot: &Matrix4) -> (r: Vector3)
    requires
        x <= 8192,
        y <= 8192,
        width <= 8192,
        height <= 8192,
        m4_rotation_wf(rot@),
    ensures
        r@ == pixel_ray_spec(x as int, y as int, width as int, height as int, rot@),
        v3_bounded(r@, 3 * (FP_ONE as int)),
{
    let vx: i64 = (x as i64) * FP_ONE - (width as i64) * HALF_FP;
    let vy: i64 = (height as i64) * HALF_FP - (y as i64) * FP_ONE;
    let vz: i64 = -((width as i64) * FP_ONE);
    let v = Vector3 { x: vx, y: vy, z: vz };
    let nv = v.normalize();
    proof {
        lemma_transform_bound(nv@, rot@, FP_ONE as int);
    }
    nv.transform(rot)
}

} // verus!
