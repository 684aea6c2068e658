use sw_render::primitives::{Barycentric, PolygonPoints2};
use sw_render::space::ScreenPoint;

fn p(x: i32, y: i32) -> ScreenPoint {
    ScreenPoint::new(x, y)
}

fn triangle() -> PolygonPoints2 {
    PolygonPoints2::new([p(0, 0), p(6, 0), p(0, 6)])
}

fn as_f64(b: Barycentric) -> (f64, f64, f64) {
    let d = b.denominator as f64;
    (b.u as f64 / d, b.v as f64 / d, b.w as f64 / d)
}

#[test]
fn vertices_have_unit_weights() {
    let t = triangle();
    assert_eq!(as_f64(t.barycentric(p(0, 0)).unwrap()), (1.0, 0.0, 0.0));
    assert_eq!(as_f64(t.barycentric(p(6, 0)).unwrap()), (0.0, 1.0, 0.0));
    assert_eq!(as_f64(t.barycentric(p(0, 6)).unwrap()), (0.0, 0.0, 1.0));
}

#[test]
fn centroid_has_equal_weights() {
    let t = PolygonPoints2::new([p(1, 2), p(10, 5), p(4, 11)]);
    let b = t.barycentric(p(5, 6)).unwrap();
    assert_eq!(3 * b.u, b.denominator);
    assert_eq!(3 * b.v, b.denominator);
    assert_eq!(3 * b.w, b.denominator);
    let (u, v, w) = as_f64(b);
    assert!((u - 1.0 / 3.0).abs() < 1e-9 && (v - 1.0 / 3.0).abs() < 1e-9 && (w - 1.0 / 3.0).abs() < 1e-9);
}

#[test]
fn exact_weights_for_interior_point() {
    // Edges AB = (6, 0), AC = (0, 6): |AB|² = |AC|² = 36, AB·AC = 0, denominator 1296.
    let b = triangle().barycentric(p(1, 2)).unwrap();
    assert_eq!(b, Barycentric { u: 648, v: 216, w: 432, denominator: 1296 });
}

#[test]
fn boundary_point_counts_as_inside() {
    let b = triangle().barycentric(p(3, 3)).unwrap();
    assert_eq!(b.u, 0);
    assert_eq!(b.v + b.w, b.denominator);
}

#[test]
fn points_outside_have_no_weights() {
    let t = triangle();
    assert!(t.barycentric(p(-1, 0)).is_none());
    assert!(t.barycentric(p(7, 1)).is_none());
    assert!(t.barycentric(p(2, -3)).is_none());
    // inside the bounding box, beyond the hypotenuse
    assert!(t.barycentric(p(5, 5)).is_none());
}

#[test]
fn degenerate_triangle_has_no_weights() {
    let t = PolygonPoints2::new([p(0, 0), p(2, 2), p(5, 5)]);
    assert!(t.barycentric(p(0, 0)).is_none());
    assert!(t.barycentric(p(2, 2)).is_none());
    assert!(t.barycentric(p(1, 3)).is_none());
    let same = PolygonPoints2::new([p(4, 4), p(4, 4), p(4, 4)]);
    assert!(same.barycentric(p(4, 4)).is_none());
}

#[test]
fn bounding_box_spans_points() {
    let t = PolygonPoints2::new([p(3, -2), p(-4, 7), p(5, 1)]);
    let r = t.bounding_box();
    assert_eq!((r.min.x, r.min.y, r.max.x, r.max.y), (-4, -2, 5, 7));
}
