use hole_diagram::geometry::GeoPoint;
use hole_diagram::transform::{
    bounding_box, divide_rounded, BoundingBox, CanvasPoint, RenderError, Transform,
};

fn pt(lat: i32, lon: i32) -> GeoPoint {
    GeoPoint { lat, lon }
}

#[test]
fn bounding_box_of_points() {
    let b = bounding_box(&vec![pt(3, 7), pt(-2, 9), pt(5, -4)]);
    assert_eq!(b, Some(BoundingBox { min_x: -2, max_x: 5, min_y: -4, max_y: 9 }));
}

#[test]
fn bounding_box_of_one_point() {
    let b = bounding_box(&vec![pt(3, 7)]);
    assert_eq!(b, Some(BoundingBox { min_x: 3, max_x: 3, min_y: 7, max_y: 7 }));
}

#[test]
fn bounding_box_of_nothing() {
    assert_eq!(bounding_box(&vec![]), None);
}

#[test]
fn transform_fits_box_ten_by_five() {
    // Box [0, 10] x [0, 5] on a canvas of 1000 x 1000 at 90 percent:
    // horizontal scale 100, vertical 200, so the scale is 90.
    let t = Transform::build(&vec![pt(0, 0), pt(10, 5)], 1000, 1000, 90).unwrap();
    assert_eq!(t.scale_numerator(), 90_000);
    assert_eq!(t.scale_denominator(), 10);
    assert_eq!(t.scale_numerator() / t.scale_denominator(), 90 * 100);
    assert_eq!(t.apply(pt(0, 0)), CanvasPoint { x: 0, y: 100_000 });
    assert_eq!(t.apply(pt(10, 5)), CanvasPoint { x: 90_000, y: 55_000 });
    assert_eq!(t.origin(), pt(0, 0));
    assert_eq!(t.canvas_height(), 1000);
}

#[test]
fn transform_limited_by_the_vertical_axis() {
    let t = Transform::build(&vec![pt(0, 0), pt(5, 10)], 1000, 1000, 90).unwrap();
    assert_eq!(t.scale_numerator(), 90_000);
    assert_eq!(t.scale_denominator(), 10);
    assert_eq!(t.apply(pt(5, 10)), CanvasPoint { x: 45_000, y: 10_000 });
}

#[test]
fn transform_uses_canvas_height_when_vertical_axis_limits() {
    let t = Transform::build(&vec![pt(0, 0), pt(10, 10)], 1000, 500, 100).unwrap();
    assert_eq!(t.scale_numerator(), 50_000);
    assert_eq!(t.scale_denominator(), 10);
    assert_eq!(t.apply(pt(10, 10)), CanvasPoint { x: 50_000, y: 0 });
    assert_eq!(t.apply(pt(0, 0)), CanvasPoint { x: 0, y: 50_000 });
}

#[test]
fn transform_of_no_points_is_refused() {
    assert_eq!(Transform::build(&vec![], 1000, 1000, 90).err(), Some(RenderError::EmptyGeometry));
}

#[test]
fn transform_of_coinciding_points_is_refused() {
    let built = Transform::build(&vec![pt(4, 4), pt(4, 4)], 1000, 1000, 90);
    assert_eq!(built.err(), Some(RenderError::DegenerateAxis));
    let single = Transform::build(&vec![pt(4, 4)], 1000, 1000, 90);
    assert_eq!(single.err(), Some(RenderError::DegenerateAxis));
}

#[test]
fn axis_without_extent_leaves_the_scale_to_the_other() {
    let flat = Transform::build(&vec![pt(0, 7), pt(10, 7)], 1000, 400, 90).unwrap();
    assert_eq!(flat.scale_numerator(), 90_000);
    assert_eq!(flat.scale_denominator(), 10);
    assert_eq!(flat.apply(pt(10, 7)), CanvasPoint { x: 90_000, y: 40_000 });
    let upright = Transform::build(&vec![pt(3, 0), pt(3, 20)], 1000, 400, 90).unwrap();
    assert_eq!(upright.scale_numerator(), 36_000);
    assert_eq!(upright.scale_denominator(), 20);
    assert_eq!(upright.apply(pt(3, 20)), CanvasPoint { x: 0, y: 4_000 });
}

#[test]
fn positions_are_rounded_to_the_nearest_hundredth() {
    let t = Transform::build(&vec![pt(0, 0), pt(7, 7)], 1000, 1000, 90).unwrap();
    // 90000 / 7 = 12857.14..., 3 * 90000 / 7 = 38571.43..., 5 * 90000 / 7 = 64285.71...
    assert_eq!(t.apply(pt(1, 0)).x, 12_857);
    assert_eq!(t.apply(pt(3, 0)).x, 38_571);
    assert_eq!(t.apply(pt(5, 0)).x, 64_286);
    assert_eq!(t.apply(pt(0, 5)).y, 100_000 - 64_286);
}

#[test]
fn point_outside_the_box_leaves_the_canvas() {
    let t = Transform::build(&vec![pt(0, 0), pt(10, 5)], 1000, 1000, 90).unwrap();
    assert_eq!(t.apply(pt(-1, -1)), CanvasPoint { x: -9_000, y: 109_000 });
    assert_eq!(t.apply(pt(20, 0)), CanvasPoint { x: 180_000, y: 100_000 });
}

#[test]
fn extreme_coordinates_do_not_overflow() {
    let t = Transform::build(&vec![pt(i32::MIN, i32::MIN), pt(i32::MIN + 1, i32::MIN)], 65_535, 65_535, 255)
        .unwrap();
    assert_eq!(t.scale_numerator(), 16_711_425);
    assert_eq!(t.scale_denominator(), 1);
    let far = t.apply(pt(i32::MAX, i32::MAX));
    assert_eq!(far.x, 4_294_967_295i64 * 16_711_425);
    assert_eq!(far.y, 6_553_500 - 4_294_967_295i64 * 16_711_425);
}

#[test]
fn rounded_division_rounds_halves_upwards() {
    assert_eq!(divide_rounded(2, 4), 1);
    assert_eq!(divide_rounded(1, 4), 0);
    assert_eq!(divide_rounded(6, 4), 2);
    assert_eq!(divide_rounded(-2, 4), 0);
    assert_eq!(divide_rounded(-3, 4), -1);
    assert_eq!(divide_rounded(-6, 4), -1);
    assert_eq!(divide_rounded(-7, 4), -2);
    assert_eq!(divide_rounded(7, 1), 7);
    assert_eq!(divide_rounded(-7, 1), -7);
    assert_eq!(divide_rounded(0, 9), 0);
}

#[test]
fn ring_is_mapped_point_by_point() {
    let t = Transform::build(&vec![pt(0, 0), pt(10, 5)], 1000, 1000, 90).unwrap();
    let ring = t.apply_ring(&vec![pt(0, 0), pt(10, 5), pt(5, 0)]);
    assert_eq!(
        ring,
        vec![
            CanvasPoint { x: 0, y: 100_000 },
            CanvasPoint { x: 90_000, y: 55_000 },
            CanvasPoint { x: 45_000, y: 100_000 },
        ]
    );
}

#[test]
fn fitted_points_stay_on_the_canvas() {
    let points = vec![pt(-300, 40), pt(17, 4_000), pt(900, -77), pt(0, 0), pt(450, 3_999)];
    for margin in [0u8, 1, 50, 90, 100] {
        let t = Transform::build(&points, 640, 480, margin).unwrap();
        for p in &points {
            let at = t.apply(*p);
            assert!(0 <= at.x && at.x <= 64_000);
            assert!(0 <= at.y && at.y <= 48_000);
        }
    }
}

#[test]
fn lower_left_corner_of_the_box_is_the_canvas_corner() {
    let t = Transform::build(&vec![pt(-5, 20), pt(40, -3), pt(7, 7)], 640, 480, 90).unwrap();
    assert_eq!(t.origin(), pt(-5, -3));
    assert_eq!(t.apply(pt(-5, -3)), CanvasPoint { x: 0, y: 48_000 });
}
