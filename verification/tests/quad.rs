use ui_render::entity::Entity;
use ui_render::geometry::{Color, Mat4, Rect, Vec2, Vec3, Vec4};
use ui_render::image::ImageId;
use ui_render::nodes::ExtractedUiNode;
use ui_render::quad::{
    clip_offsets, image_extent, is_culled, push_quad, side_offsets, texture_corners, ClipGaps,
    Quad, UiVertex, QUAD_INDICES, TEXTURED_QUAD, UNTEXTURED_QUAD,
};
use ui_render::scalar::Scalar;

fn scalar(n: f32) -> Scalar {
    Scalar { bits: n.to_bits() }
}

fn point(x: f32, y: f32) -> Vec2 {
    Vec2 {
        x: scalar(x),
        y: scalar(y),
    }
}

fn rect(x0: f32, y0: f32, x1: f32, y1: f32) -> Rect {
    Rect {
        min: point(x0, y0),
        max: point(x1, y1),
    }
}

fn node(image: ImageId) -> ExtractedUiNode {
    let zero = Scalar::zero();
    let column = Vec4 {
        x: zero,
        y: zero,
        z: zero,
        w: zero,
    };
    ExtractedUiNode {
        stack_index: 0,
        transform: Mat4 {
            x_axis: column,
            y_axis: column,
            z_axis: column,
            w_axis: column,
        },
        color: Color {
            r: scalar(0.25),
            g: scalar(0.5),
            b: scalar(0.75),
            a: scalar(1.0),
        },
        rect: rect(10.0, 20.0, 30.0, 60.0),
        image,
        atlas_size: None,
        clip: None,
        flip_x: false,
        flip_y: false,
        camera_entity: Entity::try_from_bits(0x1_0000_0001).unwrap(),
    }
}

fn quad() -> Quad {
    let corner = |n: f32| Vec3 {
        x: scalar(n),
        y: scalar(n + 0.5),
        z: scalar(0.0),
    };
    Quad {
        positions: [corner(1.0), corner(2.0), corner(3.0), corner(4.0)],
        uvs: [
            point(0.1, 0.2),
            point(0.3, 0.4),
            point(0.5, 0.6),
            point(0.7, 0.8),
        ],
        culled: false,
    }
}

#[test]
fn triangles_of_a_rectangle() {
    assert_eq!(QUAD_INDICES, [0, 2, 3, 0, 1, 2]);
    assert_eq!(TEXTURED_QUAD, 0);
    assert_eq!(UNTEXTURED_QUAD, 1);
}

#[test]
fn vertices_with_an_image() {
    let image = ImageId::Index { number: 9 };
    let mut vertices: Vec<UiVertex> = Vec::new();
    push_quad(&mut vertices, &node(image), &quad());
    assert_eq!(vertices.len(), 6);
    for (k, corner) in [0, 2, 3, 0, 1, 2].into_iter().enumerate() {
        assert_eq!(vertices[k].position, quad().positions[corner]);
        assert_eq!(vertices[k].uv, quad().uvs[corner]);
        assert_eq!(vertices[k].color, node(image).color);
        assert_eq!(vertices[k].mode, TEXTURED_QUAD);
    }
}

#[test]
fn vertices_without_an_image_span_all_of_it() {
    let mut vertices: Vec<UiVertex> = Vec::new();
    push_quad(&mut vertices, &node(ImageId::none()), &quad());
    push_quad(&mut vertices, &node(ImageId::none()), &quad());
    assert_eq!(vertices.len(), 12);
    let whole = [
        point(0.0, 0.0),
        point(1.0, 0.0),
        point(1.0, 1.0),
        point(0.0, 1.0),
    ];
    for (k, corner) in [0, 2, 3, 0, 1, 2].into_iter().enumerate() {
        assert_eq!(vertices[6 + k].position, quad().positions[corner]);
        assert_eq!(vertices[6 + k].uv, whole[corner]);
        assert_eq!(vertices[6 + k].mode, UNTEXTURED_QUAD);
    }
}

#[test]
fn without_a_clip_no_corner_moves() {
    assert_eq!(clip_offsets(None), [point(0.0, 0.0); 4]);
}

#[test]
fn corners_over_the_clip_move_inwards() {
    // The corners of a rectangle from (0, 0) to (100, 50), and a clip from (10, -5) to (70, 40).
    let gaps = ClipGaps {
        to_min: [
            point(10.0, -5.0),
            point(-90.0, -5.0),
            point(-90.0, -55.0),
            point(10.0, -55.0),
        ],
        to_max: [
            point(70.0, 40.0),
            point(-30.0, 40.0),
            point(-30.0, -10.0),
            point(70.0, -10.0),
        ],
    };
    assert_eq!(
        clip_offsets(Some(gaps)),
        [
            point(10.0, 0.0),
            point(-30.0, 0.0),
            point(-30.0, -10.0),
            point(10.0, -10.0),
        ]
    );
}

#[test]
fn corners_within_the_clip_stay() {
    let gaps = ClipGaps {
        to_min: [point(-1.0, -2.0); 4],
        to_max: [point(3.0, 4.0); 4],
    };
    assert_eq!(clip_offsets(Some(gaps)), clip_offsets(None));
}

#[test]
fn a_clip_that_is_not_a_number_is_none() {
    let gaps = ClipGaps {
        to_min: [point(f32::NAN, f32::NAN); 4],
        to_max: [point(f32::NAN, f32::NAN); 4],
    };
    assert_eq!(clip_offsets(Some(gaps)), clip_offsets(None));
}

#[test]
fn what_is_clipped_away_is_culled() {
    let size = point(100.0, 50.0);
    let flat = scalar(0.0);
    assert!(!is_culled(flat, point(99.0, 49.0), size));
    assert!(is_culled(flat, point(100.0, 0.0), size));
    assert!(is_culled(flat, point(0.0, 50.0), size));
    assert!(is_culled(flat, point(250.0, 0.0), size));
    assert!(is_culled(scalar(-0.0), point(100.0, 0.0), size));
    assert!(is_culled(flat, point(0.0, 0.0), point(0.0, 50.0)));
}

#[test]
fn what_is_turned_by_half_is_not_culled() {
    let flat = scalar(0.0);
    let turned = point(-10.0, -10.0);
    assert!(!is_culled(flat, point(0.0, 0.0), turned));
    assert!(!is_culled(scalar(-0.0), point(0.0, 0.0), turned));
    assert!(!is_culled(flat, point(9.0, 9.0), turned));
    assert!(is_culled(flat, point(10.0, 0.0), turned));
    assert!(is_culled(flat, point(0.0, 12.0), turned));
}

#[test]
fn what_is_reflected_is_not_culled() {
    let flat = scalar(0.0);
    assert!(!is_culled(flat, point(0.0, 0.0), point(-10.0, 20.0)));
    assert!(!is_culled(flat, point(0.0, 0.0), point(10.0, -20.0)));
    assert!(is_culled(flat, point(0.0, 20.0), point(10.0, -20.0)));
    assert!(!is_culled(flat, point(5.0, 5.0), point(f32::NAN, -20.0)));
}

/// The gaps between a clip and a rectangle. A negative size exchanges its corners.
fn gaps_of(shown: Rect, size: Vec2, clip: Rect) -> ClipGaps {
    let number = |n: Scalar| f32::from_bits(n.bits);
    let (mut left, mut right) = (number(shown.min.x), number(shown.max.x));
    let (mut top, mut bottom) = (number(shown.min.y), number(shown.max.y));
    if number(size.x) < 0.0 {
        (left, right) = (right, left);
    }
    if number(size.y) < 0.0 {
        (top, bottom) = (bottom, top);
    }
    let corners = [(left, top), (right, top), (right, bottom), (left, bottom)];
    let to = |p: Vec2| corners.map(|(x, y)| point(number(p.x) - x, number(p.y) - y));
    ClipGaps {
        to_min: to(clip.min),
        to_max: to(clip.max),
    }
}

fn culled(shown: Rect, size: Vec2, clip: Rect) -> bool {
    let sides =
        side_offsets(Some(gaps_of(shown, size, clip)), size).map(|side| f32::from_bits(side.bits));
    let taken_off = point(sides[0] - sides[1], sides[2] - sides[3]);
    is_culled(scalar(0.0), taken_off, size)
}

#[test]
fn sides_without_a_clip_stay() {
    assert_eq!(side_offsets(None, point(10.0, 10.0)), [scalar(0.0); 4]);
    assert_eq!(side_offsets(None, point(-10.0, -10.0)), [scalar(0.0); 4]);
}

#[test]
fn sides_move_with_their_corners() {
    let shown = rect(0.0, 0.0, 100.0, 50.0);
    let clip = rect(10.0, 5.0, 70.0, 40.0);
    let expected = [scalar(10.0), scalar(-30.0), scalar(5.0), scalar(-10.0)];
    for (x, y) in [(100.0, 50.0), (-100.0, 50.0), (100.0, -50.0), (-100.0, -50.0)] {
        let size = point(x, y);
        assert_eq!(side_offsets(Some(gaps_of(shown, size, clip)), size), expected);
    }
    let gaps = gaps_of(shown, point(100.0, 50.0), clip);
    let corners = clip_offsets(Some(gaps));
    assert_eq!(
        [corners[0].x, corners[1].x, corners[1].y, corners[2].y],
        expected
    );
}

#[test]
fn what_is_reflected_beside_its_clip_is_culled() {
    let shown = rect(0.0, 0.0, 10.0, 10.0);
    let beside = rect(12.0, 0.0, 30.0, 10.0);
    assert!(culled(shown, point(-10.0, 10.0), beside));
    assert!(culled(shown, point(-10.0, -10.0), beside));
    assert!(culled(shown, point(10.0, 10.0), beside));
}

#[test]
fn culling_is_the_same_for_all_turns() {
    let shown = rect(0.0, 0.0, 10.0, 20.0);
    for x in -15..25 {
        for y in -25..35 {
            let (x, y) = (x as f32, y as f32);
            let clip = rect(x, y, x + 5.0, y + 7.0);
            let left = x.max(0.0) < (x + 5.0).min(10.0) && y.max(0.0) < (y + 7.0).min(20.0);
            for (w, h) in [(10.0, 20.0), (-10.0, 20.0), (10.0, -20.0), (-10.0, -20.0)] {
                assert_eq!(culled(shown, point(w, h), clip), !left, "{x} {y} {w} {h}");
            }
        }
    }
}

#[test]
fn what_is_rotated_is_not_culled() {
    let size = point(100.0, 50.0);
    assert!(!is_culled(scalar(0.1), point(250.0, 250.0), size));
    assert!(!is_culled(scalar(f32::NAN), point(250.0, 250.0), size));
}

#[test]
fn part_of_an_image() {
    let offsets = [
        point(1.0, 2.0),
        point(-3.0, 4.0),
        point(-5.0, -6.0),
        point(7.0, -8.0),
    ];
    let shown = texture_corners(rect(10.0, 20.0, 30.0, 60.0), offsets, false, false);
    assert_eq!(
        shown.corners,
        [
            point(10.0, 20.0),
            point(30.0, 20.0),
            point(30.0, 60.0),
            point(10.0, 60.0),
        ]
    );
    assert_eq!(shown.offsets, offsets);
}

#[test]
fn flipped_part_of_an_image() {
    let offsets = [
        point(1.0, 2.0),
        point(-3.0, 4.0),
        point(-5.0, -6.0),
        point(7.0, -8.0),
    ];
    let part = rect(10.0, 20.0, 30.0, 60.0);
    let across = texture_corners(part, offsets, true, false);
    assert_eq!(
        across.corners,
        [
            point(30.0, 20.0),
            point(10.0, 20.0),
            point(10.0, 60.0),
            point(30.0, 60.0),
        ]
    );
    assert_eq!(
        across.offsets,
        [
            point(-1.0, 2.0),
            point(3.0, 4.0),
            point(5.0, -6.0),
            point(-7.0, -8.0),
        ]
    );
    let down = texture_corners(part, offsets, false, true);
    assert_eq!(
        down.corners,
        [
            point(10.0, 60.0),
            point(30.0, 60.0),
            point(30.0, 20.0),
            point(10.0, 20.0),
        ]
    );
    assert_eq!(
        down.offsets,
        [
            point(1.0, -2.0),
            point(-3.0, -4.0),
            point(-5.0, 6.0),
            point(7.0, 8.0),
        ]
    );
}

#[test]
fn flipping_twice() {
    let offsets = [point(1.0, 2.0); 4];
    let part = rect(10.0, 20.0, 30.0, 60.0);
    let once = texture_corners(part, offsets, true, true);
    let turned = Rect {
        min: once.corners[0],
        max: once.corners[2],
    };
    let twice = texture_corners(turned, once.offsets, true, true);
    assert_eq!(twice.corners[0], part.min);
    assert_eq!(twice.corners[2], part.max);
    assert_eq!(twice.offsets, offsets);
}

#[test]
fn extent_of_the_image() {
    let mut shown = node(ImageId::none());
    assert_eq!(image_extent(&shown), point(30.0, 60.0));
    shown.atlas_size = Some(point(512.0, 256.0));
    assert_eq!(image_extent(&shown), point(512.0, 256.0));
}
