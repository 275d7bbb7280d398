use tri_raster::FP;
use tri_raster::HALF;
use tri_raster::fixed::div_floor;
use tri_raster::fixed::div_round;
use tri_raster::geom::base_triangle;
use tri_raster::geom::identity;
use tri_raster::geom::rotation_z;
use tri_raster::geom::transform_triangle;

#[test]
fn div_floor_rounds_toward_negative_infinity() {
    assert_eq!(div_floor(7, 2), 3);
    assert_eq!(div_floor(-7, 2), -4);
    assert_eq!(div_floor(-8, 2), -4);
    assert_eq!(div_floor(0, 5), 0);
}

#[test]
fn div_round_rounds_half_away_from_zero() {
    assert_eq!(div_round(5, 2), 3);
    assert_eq!(div_round(-5, 2), -3);
    assert_eq!(div_round(4, 2), 2);
    assert_eq!(div_round(49, 100), 0);
    assert_eq!(div_round(50, 100), 1);
    assert_eq!(div_round(-50, 100), -1);
}

#[test]
fn transform_is_deterministic() {
    let t1 = transform_triangle(1234, 65000, FP);
    let t2 = transform_triangle(1234, 65000, FP);
    assert_eq!(t1, t2);
    let u1 = transform_triangle(-40000, 51000, HALF);
    let u2 = transform_triangle(-40000, 51000, HALF);
    assert_eq!(u1, u2);
}

#[test]
fn zero_rotation_matrix_is_identity() {
    assert_eq!(rotation_z(0, FP), identity());
    assert_ne!(rotation_z(1, FP), identity());
}

#[test]
fn zero_angle_square_aspect_is_base_triangle() {
    let t = transform_triangle(0, FP, FP);
    assert_eq!(t, base_triangle());
}

#[test]
fn zero_angle_scales_x_only() {
    let t = transform_triangle(0, FP, HALF);
    let b = base_triangle();
    assert_eq!(t.v0.x, b.v0.x / 2);
    assert_eq!(t.v0.y, b.v0.y);
    assert_eq!(t.v1.x, b.v1.x / 2);
    assert_eq!(t.v1.y, b.v1.y);
    assert_eq!(t.v2.x, 0);
    assert_eq!(t.v2.y, b.v2.y);
    assert_eq!(t.v0.z, 0);
    assert_eq!(t.v1.z, 0);
    assert_eq!(t.v2.z, 0);
}

#[test]
fn quarter_turn_swaps_axes() {
    let t = transform_triangle(FP, 0, FP);
    assert_eq!((t.v0.x, t.v0.y), (-HALF, HALF));
    assert_eq!((t.v1.x, t.v1.y), (-HALF, -HALF));
    assert_eq!((t.v2.x, t.v2.y), (HALF, 0));
}
