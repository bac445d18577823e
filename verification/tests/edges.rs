use ui_render::edges::{BorderCorners, OutlineRects};
use ui_render::geometry::{Rect, Vec2};
use ui_render::scalar::Scalar;

fn point(x: f32, y: f32) -> Vec2 {
    Vec2 {
        x: Scalar { bits: x.to_bits() },
        y: Scalar { bits: y.to_bits() },
    }
}

fn rect(x0: f32, y0: f32, x1: f32, y1: f32) -> Rect {
    Rect {
        min: point(x0, y0),
        max: point(x1, y1),
    }
}

fn number(n: Scalar) -> f32 {
    f32::from_bits(n.bits)
}

fn encloses(r: &Rect, x: f32, y: f32) -> bool {
    number(r.min.x) < x && x < number(r.max.x) && number(r.min.y) < y && y < number(r.max.y)
}

#[test]
fn borders_of_a_node() {
    let corners = BorderCorners {
        min: point(-50.0, -20.0),
        max: point(50.0, 20.0),
        inset_min: point(-49.0, -18.0),
        inset_max: point(47.0, 16.0),
    };
    assert_eq!(
        corners.edges(),
        [
            rect(-50.0, -20.0, -49.0, 20.0),
            rect(47.0, -20.0, 50.0, 20.0),
            rect(-49.0, -20.0, 47.0, -18.0),
            rect(-49.0, 16.0, 47.0, 20.0),
        ]
    );
}

#[test]
fn a_missing_border_has_no_area() {
    let corners = BorderCorners {
        min: point(-50.0, -20.0),
        max: point(50.0, 20.0),
        inset_min: point(-50.0, -20.0),
        inset_max: point(47.0, 20.0),
    };
    let drawn: Vec<bool> = corners.edges().iter().map(|edge| edge.is_drawn()).collect();
    assert_eq!(drawn, vec![false, true, false, false]);
}

#[test]
fn borders_that_cross_leave_no_inside() {
    let corners = BorderCorners {
        min: point(-10.0, -10.0),
        max: point(10.0, 10.0),
        inset_min: point(5.0, 0.0),
        inset_max: point(-5.0, 2.0),
    };
    assert_eq!(
        corners.edges(),
        [
            rect(-10.0, -10.0, 5.0, 10.0),
            rect(5.0, -10.0, 10.0, 10.0),
            rect(5.0, -10.0, 5.0, 0.0),
            rect(5.0, 2.0, 5.0, 10.0),
        ]
    );
}

#[test]
fn each_point_of_the_frame_is_on_one_border() {
    let corners = BorderCorners {
        min: point(-10.0, -10.0),
        max: point(10.0, 10.0),
        inset_min: point(-8.0, -6.0),
        inset_max: point(7.0, 9.0),
    };
    let edges = corners.edges();
    for i in 0..39 {
        for j in 0..39 {
            let x = -9.75 + 0.5 * i as f32;
            let y = -9.75 + 0.5 * j as f32;
            let inside = encloses(&rect(-8.0, -6.0, 7.0, 9.0), x, y);
            let count = edges.iter().filter(|edge| encloses(edge, x, y)).count();
            assert_eq!(count, if inside { 0 } else { 1 }, "{x} {y}");
        }
    }
}

#[test]
fn edges_of_an_outline() {
    let rects = OutlineRects {
        inner: rect(-50.0, -20.0, 50.0, 20.0),
        outer: rect(-53.0, -23.0, 53.0, 23.0),
    };
    assert_eq!(
        rects.edges(),
        [
            rect(-53.0, -23.0, -50.0, 23.0),
            rect(50.0, -23.0, 53.0, 23.0),
            rect(-50.0, -23.0, 50.0, -20.0),
            rect(-50.0, 20.0, 50.0, 23.0),
        ]
    );
}

#[test]
fn an_outline_of_negative_width_is_put_in_order() {
    let rects = OutlineRects {
        inner: rect(-50.0, -20.0, 50.0, 20.0),
        outer: rect(-48.0, -18.0, 48.0, 18.0),
    };
    let edges = rects.edges();
    assert_eq!(edges[0], rect(-50.0, -18.0, -48.0, 18.0));
    assert_eq!(edges[1], rect(48.0, -18.0, 50.0, 18.0));
    assert_eq!(edges[2], rect(-50.0, -20.0, 50.0, -18.0));
    assert_eq!(edges[3], rect(-50.0, 18.0, 50.0, 20.0));
}

#[test]
fn each_point_of_the_frame_is_on_one_edge_of_the_outline() {
    let rects = OutlineRects {
        inner: rect(-6.0, -7.0, 6.0, 7.0),
        outer: rect(-9.0, -10.0, 9.0, 10.0),
    };
    let edges = rects.edges();
    for i in 0..38 {
        for j in 0..42 {
            let x = -9.25 + 0.5 * i as f32;
            let y = -10.25 + 0.5 * j as f32;
            let frame = encloses(&rects.outer, x, y) && !encloses(&rects.inner, x, y);
            let count = edges.iter().filter(|edge| encloses(edge, x, y)).count();
            assert_eq!(count, if frame { 1 } else { 0 }, "{x} {y}");
        }
    }
}

#[test]
fn corners_in_any_order() {
    assert_eq!(
        Rect::from_corners(point(3.0, 1.0), point(-2.0, 5.0)),
        rect(-2.0, 1.0, 3.0, 5.0)
    );
}

#[test]
fn a_rectangle_with_a_nan_has_no_area() {
    assert!(rect(0.0, 0.0, 1.0, 1.0).is_drawn());
    assert!(!rect(0.0, 0.0, f32::NAN, 1.0).is_drawn());
    assert!(!rect(0.0, 0.0, 0.0, 1.0).is_drawn());
    assert!(!rect(1.0, 0.0, 0.0, 1.0).is_drawn());
}
