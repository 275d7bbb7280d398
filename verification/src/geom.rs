//! Vertices, 4x4 homogeneous matrices, and the per-frame transform
//! pipeline: a rotation about the Z axis followed by an aspect-ratio
//! scale on the X axis, applied to the fixed base triangle.
//!
//! All scalars are 16.16 fixed-point (`FP` stands for 1.0). Vertices
//! are row vectors, so applying a matrix takes the dot product of the
//! vertex with each matrix column, as the renderer convention has it.

use vstd::prelude::*;
use vstd::arithmetic::div_mod::lemma_div_multiples_vanish;
use crate::fixed::{FP, HALF, div_floor};

verus! {

/// Matrix entries stay within this magnitude (covers every sine,
/// cosine and aspect ratio the renderer builds).
pub const MAT_LIMIT: i64 = 0x8000_0000;

/// Vertex coordinates handed to `apply_vertex` stay within this
/// magnitude.
pub const VTX_LIMIT: i64 = 0x400_0000;

/// The aspect ratio (height / width in fixed point) stays within this
/// magnitude: it covers surfaces up to 16384 times taller than wide.
pub const ASPECT_LIMIT: i64 = 0x4000_0000;

/// A point in normalized device coordinates, 16.16 fixed point.
#[derive(Clone, Copy, Debug, PartialEq, Eq, Structural)]
pub struct Vertex {
    pub x: i64,
    pub y: i64,
    pub z: i64,
}

/// An ordered triple of vertices.
#[derive(Clone, Copy, Debug, PartialEq, Eq, Structural)]
pub struct Triangle {
    pub v0: Vertex,
    pub v1: Vertex,
    pub v2: Vertex,
}

/// A 4x4 homogeneous transform, row-major: `mRC` is row R, column C.
#[derive(Clone, Copy, Debug, PartialEq, Eq, Structural)]
pub struct Mat4 {
    pub m00: i64, pub m01: i64, pub m02: i64, pub m03: i64,
    pub m10: i64, pub m11: i64, pub m12: i64, pub m13: i64,
    pub m20: i64, pub m21: i64, pub m22: i64, pub m23: i64,
    pub m30: i64, pub m31: i64, pub m32: i64, pub m33: i64,
}

/// The fixed base triangle: a horizontal base at y = -0.5 and an apex
/// at (0, 0.5).
pub open spec fn spec_base_triangle() -> Triangle {
    Triangle {
        v0: Vertex { x: (-HALF) as i64, y: (-HALF) as i64, z: 0 },
        v1: Vertex { x: HALF, y: (-HALF) as i64, z: 0 },
        v2: Vertex { x: 0, y: HALF, z: 0 },
    }
}

/// The identity transform in fixed point.
pub open spec fn spec_identity() -> Mat4 {
    Mat4 {
        m00: FP, m01: 0, m02: 0, m03: 0,
        m10: 0, m11: FP, m12: 0, m13: 0,
        m20: 0, m21: 0, m22: FP, m23: 0,
        m30: 0, m31: 0, m32: 0, m33: FP,
    }
}

/// What the rotation matrix builder returns for a given sine and
/// cosine.
pub open spec fn rotation_post(m: Mat4, s: int, c: int) -> bool {
    &&& m.m00 == c && m.m01 == -s && m.m02 == 0 && m.m03 == 0
    &&& m.m10 == s && m.m11 == c && m.m12 == 0 && m.m13 == 0
    &&& m.m20 == 0 && m.m21 == 0 && m.m22 == FP && m.m23 == 0
    &&& m.m30 == 0 && m.m31 == 0 && m.m32 == 0 && m.m33 == FP
}

/// What the scale matrix builder returns for a given aspect ratio.
pub open spec fn scale_post(m: Mat4, a: int) -> bool {
    &&& m.m00 == a && m.m01 == 0 && m.m02 == 0 && m.m03 == 0
    &&& m.m10 == 0 && m.m11 == FP && m.m12 == 0 && m.m13 == 0
    &&& m.m20 == 0 && m.m21 == 0 && m.m22 == FP && m.m23 == 0
    &&& m.m30 == 0 && m.m31 == 0 && m.m32 == 0 && m.m33 == FP
}

/// Rotation about the Z axis, from the sine and cosine of the angle.
pub fn rotation_z(sin: i64, cos: i64) -> (m: Mat4)
    requires
        -FP <= sin <= FP,
        -FP <= cos <= FP,
    ensures
        rotation_post(m, sin as int, cos as int),
{
    Mat4 {
        m00: cos, m01: -sin, m02: 0, m03: 0,
        m10: sin, m11: cos, m12: 0, m13: 0,
        m20: 0, m21: 0, m22: FP, m23: 0,
        m30: 0, m31: 0, m32: 0, m33: FP,
    }
}

/// Non-uniform scale correcting for the surface's aspect ratio: the X
/// axis is scaled by `aspect`, the other axes are untouched.
pub fn scale_x(aspect: i64) -> (m: Mat4)
    requires
        -MAT_LIMIT <= aspect <= MAT_LIMIT,
    ensures
        scale_post(m, aspect as int),
{
    Mat4 {
        m00: aspect, m01: 0, m02: 0, m03: 0,
        m10: 0, m11: FP, m12: 0, m13: 0,
        m20: 0, m21: 0, m22: FP, m23: 0,
        m30: 0, m31: 0, m32: 0, m33: FP,
    }
}

/// The identity transform.
pub fn identity() -> (m: Mat4)
    ensures
        m == spec_identity(),
{
    Mat4 {
        m00: FP, m01: 0, m02: 0, m03: 0,
        m10: 0, m11: FP, m12: 0, m13: 0,
        m20: 0, m21: 0, m22: FP, m23: 0,
        m30: 0, m31: 0, m32: 0, m33: FP,
    }
}

/// At a zero angle (sine 0, cosine 1) the rotation matrix is exactly
/// the identity.
pub proof fn lemma_zero_rotation_is_identity(m: Mat4)
    requires
        rotation_post(m, 0, FP as int),
    ensures
        m == spec_identity(),
{
}

pub open spec fn vertex_bounded(v: Vertex) -> bool {
    &&& -VTX_LIMIT <= v.x <= VTX_LIMIT
    &&& -VTX_LIMIT <= v.y <= VTX_LIMIT
    &&& -VTX_LIMIT <= v.z <= VTX_LIMIT
}

pub open spec fn mat_bounded(m: Mat4) -> bool {
    &&& -MAT_LIMIT <= m.m00 <= MAT_LIMIT && -MAT_LIMIT <= m.m01 <= MAT_LIMIT
    &&& -MAT_LIMIT <= m.m02 <= MAT_LIMIT && -MAT_LIMIT <= m.m03 <= MAT_LIMIT
    &&& -MAT_LIMIT <= m.m10 <= MAT_LIMIT && -MAT_LIMIT <= m.m11 <= MAT_LIMIT
    &&& -MAT_LIMIT <= m.m12 <= MAT_LIMIT && -MAT_LIMIT <= m.m13 <= MAT_LIMIT
    &&& -MAT_LIMIT <= m.m20 <= MAT_LIMIT && -MAT_LIMIT <= m.m21 <= MAT_LIMIT
    &&& -MAT_LIMIT <= m.m22 <= MAT_LIMIT && -MAT_LIMIT <= m.m23 <= MAT_LIMIT
    &&& -MAT_LIMIT <= m.m30 <= MAT_LIMIT && -MAT_LIMIT <= m.m31 <= MAT_LIMIT
    &&& -MAT_LIMIT <= m.m32 <= MAT_LIMIT && -MAT_LIMIT <= m.m33 <= MAT_LIMIT
}

/// Row-vector application, column 0: the new X coordinate.
pub open spec fn apply_x(m: Mat4, v: Vertex) -> int {
    (m.m00 * v.x + m.m10 * v.y + m.m20 * v.z) / (FP as int) + m.m30
}

/// Row-vector application, column 1: the new Y coordinate.
pub open spec fn apply_y(m: Mat4, v: Vertex) -> int {
    (m.m01 * v.x + m.m11 * v.y + m.m21 * v.z) / (FP as int) + m.m31
}

/// Row-vector application, column 2: the new Z coordinate.
pub open spec fn apply_z(m: Mat4, v: Vertex) -> int {
    (m.m02 * v.x + m.m12 * v.y + m.m22 * v.z) / (FP as int) + m.m32
}

/// Bounds the products and the quotient of one column application.
proof fn lemma_apply_bounds(p: int, q: int, r: int, x: int, y: int, z: int)
    requires
        -MAT_LIMIT <= p <= MAT_LIMIT,
        -MAT_LIMIT <= q <= MAT_LIMIT,
        -MAT_LIMIT <= r <= MAT_LIMIT,
        -VTX_LIMIT <= x <= VTX_LIMIT,
        -VTX_LIMIT <= y <= VTX_LIMIT,
        -VTX_LIMIT <= z <= VTX_LIMIT,
    ensures
        -0x200_0000_0000_0000 <= p * x <= 0x200_0000_0000_0000,
        -0x200_0000_0000_0000 <= q * y <= 0x200_0000_0000_0000,
        -0x200_0000_0000_0000 <= r * z <= 0x200_0000_0000_0000,
        -0x600_0000_0000_0000 <= p * x + q * y + r * z <= 0x600_0000_0000_0000,
        -0x600_0000_0000 <= (p * x + q * y + r * z) / (FP as int) <= 0x600_0000_0000,
{
    crate::fixed::lemma_mul_abs_bound(p, x, MAT_LIMIT as int, VTX_LIMIT as int);
    crate::fixed::lemma_mul_abs_bound(q, y, MAT_LIMIT as int, VTX_LIMIT as int);
    crate::fixed::lemma_mul_abs_bound(r, z, MAT_LIMIT as int, VTX_LIMIT as int);
    crate::fixed::lemma_div_range(
        p * x + q * y + r * z,
        FP as int,
        -0x600_0000_0000_0000,
        0x600_0000_0000_0000,
    );
}

/// Applies a homogeneous matrix to a row-vector vertex, as the
/// scanline renderer's convention has it: each output coordinate is
/// the vertex dotted with one matrix column, rescaled out of fixed
/// point, plus that column's translation entry.
pub fn apply_vertex(m: &Mat4, v: &Vertex) -> (r: Vertex)
    requires
        mat_bounded(*m),
        vertex_bounded(*v),
    ensures
        r.x == apply_x(*m, *v),
        r.y == apply_y(*m, *v),
        r.z == apply_z(*m, *v),
{
    proof {
        lemma_apply_bounds(m.m00 as int, m.m10 as int, m.m20 as int, v.x as int, v.y as int, v.z as int);
        lemma_apply_bounds(m.m01 as int, m.m11 as int, m.m21 as int, v.x as int, v.y as int, v.z as int);
        lemma_apply_bounds(m.m02 as int, m.m12 as int, m.m22 as int, v.x as int, v.y as int, v.z as int);
    }
    let sx: i64 = m.m00 * v.x + m.m10 * v.y + m.m20 * v.z;
    let sy: i64 = m.m01 * v.x + m.m11 * v.y + m.m21 * v.z;
    let sz: i64 = m.m02 * v.x + m.m12 * v.y + m.m22 * v.z;
    Vertex {
        x: div_floor(sx, FP) + m.m30,
        y: div_floor(sy, FP) + m.m31,
        z: div_floor(sz, FP) + m.m32,
    }
}

/// The rotated X coordinate of a point, before the aspect scale.
pub open spec fn spec_rot_x(s: int, c: int, x: int, y: int) -> int {
    (c * x + s * y) / (FP as int)
}

/// The rotated Y coordinate of a point.
pub open spec fn spec_rot_y(s: int, c: int, x: int, y: int) -> int {
    (-s * x + c * y) / (FP as int)
}

/// The transformed X coordinate: rotation first, then the aspect
/// scale.
pub open spec fn spec_transformed_x(s: int, c: int, a: int, x: int, y: int) -> int {
    (a * spec_rot_x(s, c, x, y)) / (FP as int)
}

/// The transformed Y coordinate: the aspect scale leaves Y untouched.
pub open spec fn spec_transformed_y(s: int, c: int, a: int, x: int, y: int) -> int {
    spec_rot_y(s, c, x, y)
}

/// What the transform pipeline returns: each base vertex rotated and
/// then scaled; Z starts at zero and stays zero.
pub open spec fn transform_post(t: Triangle, s: int, c: int, a: int) -> bool {
    let b = spec_base_triangle();
    &&& t.v0.x == spec_transformed_x(s, c, a, b.v0.x as int, b.v0.y as int)
    &&& t.v0.y == spec_transformed_y(s, c, a, b.v0.x as int, b.v0.y as int)
    &&& t.v0.z == 0
    &&& t.v1.x == spec_transformed_x(s, c, a, b.v1.x as int, b.v1.y as int)
    &&& t.v1.y == spec_transformed_y(s, c, a, b.v1.x as int, b.v1.y as int)
    &&& t.v1.z == 0
    &&& t.v2.x == spec_transformed_x(s, c, a, b.v2.x as int, b.v2.y as int)
    &&& t.v2.y == spec_transformed_y(s, c, a, b.v2.x as int, b.v2.y as int)
    &&& t.v2.z == 0
}

/// The fixed base triangle as a value.
pub fn base_triangle() -> (t: Triangle)
    ensures
        t == spec_base_triangle(),
{
    Triangle {
        v0: Vertex { x: -HALF, y: -HALF, z: 0 },
        v1: Vertex { x: HALF, y: -HALF, z: 0 },
        v2: Vertex { x: 0, y: HALF, z: 0 },
    }
}

/// Shows that one rotated-then-scaled base vertex comes out of the two
/// matrix applications with the composed coordinates.
proof fn lemma_transform_vertex(rm: Mat4, sm: Mat4, v: Vertex, rv: Vertex, sv: Vertex, s: int, c: int, a: int)
    requires
        rotation_post(rm, s, c),
        scale_post(sm, a),
        v.z == 0,
        rv.x == apply_x(rm, v),
        rv.y == apply_y(rm, v),
        rv.z == apply_z(rm, v),
        sv.x == apply_x(sm, rv),
        sv.y == apply_y(sm, rv),
        sv.z == apply_z(sm, rv),
    ensures
        sv.x == spec_transformed_x(s, c, a, v.x as int, v.y as int),
        sv.y == spec_transformed_y(s, c, a, v.x as int, v.y as int),
        sv.z == 0,
{
    assert(rv.x == spec_rot_x(s, c, v.x as int, v.y as int));
    assert(rv.y == spec_rot_y(s, c, v.x as int, v.y as int));
    assert(rv.z == 0) by {
        assert(rm.m02 * v.x + rm.m12 * v.y + rm.m22 * v.z == 0);
        vstd::arithmetic::div_mod::lemma_div_of0(FP as int);
    }
    assert(sv.x == (a * rv.x) / (FP as int));
    assert(sv.y == rv.y) by {
        assert(sm.m01 * rv.x + sm.m11 * rv.y + sm.m21 * rv.z == FP * rv.y);
        lemma_div_multiples_vanish(rv.y as int, FP as int);
    }
    assert(sv.z == 0) by {
        assert(sm.m02 * rv.x + sm.m12 * rv.y + sm.m22 * rv.z == 0);
        vstd::arithmetic::div_mod::lemma_div_of0(FP as int);
    }
}

/// The transform pipeline: build the rotation from the given sine and
/// cosine, build the aspect scale, and apply them in that order to
/// each vertex of the fixed base triangle.
pub fn transform_triangle(sin: i64, cos: i64, aspect: i64) -> (t: Triangle)
    requires
        -FP <= sin <= FP,
        -FP <= cos <= FP,
        0 < aspect <= ASPECT_LIMIT,
    ensures
        transform_post(t, sin as int, cos as int, aspect as int),
{
    let base = base_triangle();
    let rot = rotation_z(sin, cos);
    let sc = scale_x(aspect);

    let r0 = apply_vertex(&rot, &base.v0);
    let r1 = apply_vertex(&rot, &base.v1);
    let r2 = apply_vertex(&rot, &base.v2);
    proof {
        lemma_rotated_base_bounded(rot, base.v0, r0, sin as int, cos as int);
        lemma_rotated_base_bounded(rot, base.v1, r1, sin as int, cos as int);
        lemma_rotated_base_bounded(rot, base.v2, r2, sin as int, cos as int);
    }
    let s0 = apply_vertex(&sc, &r0);
    let s1 = apply_vertex(&sc, &r1);
    let s2 = apply_vertex(&sc, &r2);
    proof {
        lemma_transform_vertex(rot, sc, base.v0, r0, s0, sin as int, cos as int, aspect as int);
        lemma_transform_vertex(rot, sc, base.v1, r1, s1, sin as int, cos as int, aspect as int);
        lemma_transform_vertex(rot, sc, base.v2, r2, s2, sin as int, cos as int, aspect as int);
    }
    Triangle { v0: s0, v1: s1, v2: s2 }
}

/// A base vertex rotated by any angle stays within one unit of the
/// origin in fixed point, so it is in range for the scale stage.
proof fn lemma_rotated_base_bounded(rm: Mat4, v: Vertex, rv: Vertex, s: int, c: int)
    requires
        rotation_post(rm, s, c),
        -FP <= s <= FP,
        -FP <= c <= FP,
        -HALF <= v.x <= HALF,
        -HALF <= v.y <= HALF,
        v.z == 0,
        rv.x == apply_x(rm, v),
        rv.y == apply_y(rm, v),
        rv.z == apply_z(rm, v),
    ensures
        vertex_bounded(rv),
{
    crate::fixed::lemma_mul_abs_bound(c, v.x as int, FP as int, HALF as int);
    crate::fixed::lemma_mul_abs_bound(s, v.y as int, FP as int, HALF as int);
    crate::fixed::lemma_mul_abs_bound(-s, v.x as int, FP as int, HALF as int);
    crate::fixed::lemma_mul_abs_bound(c, v.y as int, FP as int, HALF as int);
    crate::fixed::lemma_div_range(
        rm.m00 * v.x + rm.m10 * v.y + rm.m20 * v.z,
        FP as int,
        -0x1_0000_0000,
        0x1_0000_0000,
    );
    crate::fixed::lemma_div_range(
        rm.m01 * v.x + rm.m11 * v.y + rm.m21 * v.z,
        FP as int,
        -0x1_0000_0000,
        0x1_0000_0000,
    );
    assert(rm.m02 * v.x + rm.m12 * v.y + rm.m22 * v.z == 0);
    vstd::arithmetic::div_mod::lemma_div_of0(FP as int);
}

/// The transformed triangle as a value: what the pipeline returns for
/// a given sine, cosine and aspect ratio.
pub open spec fn spec_transform_triangle(s: int, c: int, a: int) -> Triangle {
    let b = spec_base_triangle();
    Triangle {
        v0: Vertex {
            x: spec_transformed_x(s, c, a, b.v0.x as int, b.v0.y as int) as i64,
            y: spec_transformed_y(s, c, a, b.v0.x as int, b.v0.y as int) as i64,
            z: 0,
        },
        v1: Vertex {
            x: spec_transformed_x(s, c, a, b.v1.x as int, b.v1.y as int) as i64,
            y: spec_transformed_y(s, c, a, b.v1.x as int, b.v1.y as int) as i64,
            z: 0,
        },
        v2: Vertex {
            x: spec_transformed_x(s, c, a, b.v2.x as int, b.v2.y as int) as i64,
            y: spec_transformed_y(s, c, a, b.v2.x as int, b.v2.y as int) as i64,
            z: 0,
        },
    }
}

/// A triangle that satisfies the pipeline's per-coordinate contract
/// is the transformed triangle value.
pub proof fn lemma_transform_is_spec(t: Triangle, s: int, c: int, a: int)
    requires
        transform_post(t, s, c, a),
    ensures
        t == spec_transform_triangle(s, c, a),
{
}

/// The transform pipeline is deterministic: two triangles that both
/// satisfy its contract for the same sine, cosine and aspect ratio are
/// the same triangle.
pub proof fn lemma_transform_deterministic(t1: Triangle, t2: Triangle, s: int, c: int, a: int)
    requires
        transform_post(t1, s, c, a),
        transform_post(t2, s, c, a),
    ensures
        t1 == t2,
{
}

/// At a zero angle the pipeline reduces to the aspect scale alone:
/// the X coordinate is scaled by `aspect` and the Y coordinate is the
/// base coordinate unchanged.
pub proof fn lemma_zero_angle_scales_only(a: int, x: int, y: int)
    ensures
        spec_transformed_x(0, FP as int, a, x, y) == (a * x) / (FP as int),
        spec_transformed_y(0, FP as int, a, x, y) == y,
{
    assert((FP as int) * x + 0 * y == (FP as int) * x);
    lemma_div_multiples_vanish(x, FP as int);
    assert(-0 * x + (FP as int) * y == (FP as int) * y);
    lemma_div_multiples_vanish(y, FP as int);
}

} // verus!
