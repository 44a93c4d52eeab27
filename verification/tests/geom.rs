use sprite_scene::geom::affine_point;
use sprite_scene::geom::div_trunc;
use sprite_scene::geom::Origin;
use sprite_scene::geom::Rect;
use sprite_scene::geom::Vector2d;
use sprite_scene::geom::SCALE_ONE;

fn pt(x: i64, y: i64) -> Vector2d {
    Vector2d { x, y }
}

#[test]
fn div_trunc_rounds_toward_zero() {
    assert_eq!(div_trunc(7, 2), 3);
    assert_eq!(div_trunc(-7, 2), -3);
    assert_eq!(div_trunc(6, 2), 3);
    assert_eq!(div_trunc(-6, 2), -3);
    assert_eq!(div_trunc(0, 5), 0);
}

#[test]
fn affine_point_scales_about_pivot() {
    // Halving about the world origin.
    let half = SCALE_ONE / 2;
    let r = affine_point(pt(10, -10), pt(0, 0), half, 0, SCALE_ONE, 0, half, SCALE_ONE);
    assert_eq!(r, pt(5, -5));
    // Doubling about a pivot at (10, 10).
    let two = 2 * SCALE_ONE;
    let r2 = affine_point(pt(16, 12), pt(10, 10), two, 0, SCALE_ONE, 0, two, SCALE_ONE);
    assert_eq!(r2, pt(22, 14));
}

#[test]
fn new_raw_builds_axis_aligned_corners() {
    let r = Rect::new_raw(10, 20, 7, 30, 40);
    assert_eq!(r.top_left, pt(10, 20));
    assert_eq!(r.bottom_left, pt(10, 60));
    assert_eq!(r.bottom_right, pt(40, 60));
    assert_eq!(r.top_right, pt(40, 20));
    assert_eq!(r.depth, 7);
}

#[test]
fn bounding_rect_recovers_axis_aligned_hull() {
    let mut r = Rect::new_raw(0, 0, 3, 10, 10);
    // A quarter turn about the top-left corner carries the rect into
    // negative x: each point (x, y) maps to (-y, x).
    let origin = Origin::new(0, 0);
    let _new_origin = r.set_rotation_with_origin(0, SCALE_ONE, origin);
    let b = r.get_bounding_rect();
    assert_eq!(b.top_left, pt(-10, 0));
    assert_eq!(b.bottom_right, pt(0, 10));
    assert_eq!(b.depth, 3);
}

#[test]
fn scale_with_origin_keeps_the_pivot_fixed() {
    let mut r = Rect::new_raw(10, 10, 0, 16, 16);
    // Pivot at the rect's center.
    let origin = Origin::new(8, 8);
    let new_origin = r.set_scale_with_origin(2 * SCALE_ONE, 2 * SCALE_ONE, origin);
    // Corners double their distance from the pivot (18, 18).
    assert_eq!(r.top_left, pt(2, 2));
    assert_eq!(r.bottom_right, pt(34, 34));
    // The returned origin still denotes the same world point.
    assert_eq!(
        pt(r.top_left.x + new_origin.x(), r.top_left.y + new_origin.y()),
        pt(18, 18)
    );
}

#[test]
fn offset_pos_translates_every_corner() {
    let mut r = Rect::new_raw(1, 2, 0, 4, 4);
    r.offset_pos(pt(10, -2));
    assert_eq!(r.top_left, pt(11, 0));
    assert_eq!(r.bottom_right, pt(15, 4));
}

#[test]
fn set_pos_top_left_rebuilds_at_position() {
    let mut r = Rect::new_raw(5, 5, 9, 20, 10);
    r.set_pos_top_left(100, 200);
    assert_eq!(r.top_left, pt(100, 200));
    assert_eq!(r.bottom_right, pt(120, 210));
    assert_eq!(r.depth, 9);
}

#[test]
fn center_helpers_halve_the_extent() {
    let r = Rect::new_raw(10, 20, 0, 9, 5);
    let c = r.center_origin();
    assert_eq!(c.x(), 4);
    assert_eq!(c.y(), 2);
    assert_eq!(r.center_global(), pt(14, 22));
}
