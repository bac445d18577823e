use ui_render::edges::{BorderCorners, OutlineRects};
use ui_render::entity::Entity;
use ui_render::extract::{
    extract_uinode_borders, extract_uinode_outlines, extract_uinodes, place_edges, target_camera,
    AtlasFrame, BorderRow, EdgePlacement, EdgePlan, EdgeStyle, OutlineRow, UiImage, UiNodeRow,
};
use ui_render::geometry::{Color, Mat4, Rect, Vec2, Vec4};
use ui_render::image::ImageId;
use ui_render::nodes::{ExtractedUiNode, ExtractedUiNodes};
use ui_render::scalar::Scalar;

fn entity(index: u64) -> Entity {
    Entity::try_from_bits(0x1_0000_0000 + index).unwrap()
}

fn scalar(n: f32) -> Scalar {
    Scalar { bits: n.to_bits() }
}

fn point(x: f32, y: f32) -> Vec2 {
    Vec2 {
        x: scalar(x),
        y: scalar(y),
    }
}

fn rect(x0: f32, y0: f32, x1: f32, y1: f32) -> Rect {
    Rect {
        min: point(x0, y0),
        max: point(x1, y1),
    }
}

fn color(r: f32, a: f32) -> Color {
    Color {
        r: scalar(r),
        g: scalar(0.0),
        b: scalar(0.0),
        a: scalar(a),
    }
}

fn transform(n: f32) -> Mat4 {
    let column = Vec4 {
        x: scalar(n),
        y: scalar(n),
        z: scalar(n),
        w: scalar(n),
    };
    Mat4 {
        x_axis: column,
        y_axis: column,
        z_axis: column,
        w_axis: column,
    }
}

fn border_row() -> BorderRow {
    BorderRow {
        stack_index: 7,
        size: point(100.0, 40.0),
        corners: BorderCorners {
            min: point(-50.0, -20.0),
            max: point(50.0, 20.0),
            inset_min: point(-49.0, -20.0),
            inset_max: point(48.0, 20.0),
        },
        color: color(0.5, 1.0),
        visible: true,
        clip: Some(rect(0.0, 0.0, 9.0, 9.0)),
        camera: None,
    }
}

fn outline_row() -> OutlineRow {
    OutlineRow {
        stack_index: 8,
        width: scalar(3.0),
        rects: Some(OutlineRects {
            inner: rect(-50.0, -20.0, 50.0, 20.0),
            outer: rect(-53.0, -23.0, 53.0, 23.0),
        }),
        color: color(0.25, 1.0),
        visible: true,
        clip: None,
        camera: Some(entity(2)),
    }
}

fn node_row(index: u64) -> UiNodeRow {
    UiNodeRow {
        entity: entity(index),
        stack_index: 5,
        size: point(30.0, 20.0),
        transform: transform(2.0),
        color: color(1.0, 1.0),
        image: None,
        visible: true,
        clip: Some(rect(1.0, 2.0, 3.0, 4.0)),
        atlas: None,
        camera: None,
        slices: None,
    }
}

fn whole(camera: u64) -> ExtractedUiNode {
    ExtractedUiNode {
        stack_index: 5,
        transform: transform(2.0),
        color: color(1.0, 1.0),
        rect: rect(0.0, 0.0, 30.0, 20.0),
        image: ImageId::none(),
        atlas_size: None,
        clip: Some(rect(1.0, 2.0, 3.0, 4.0)),
        flip_x: false,
        flip_y: false,
        camera_entity: entity(camera),
    }
}

#[test]
fn camera_of_a_node() {
    assert_eq!(
        target_camera(Some(entity(1)), Some(entity(2))),
        Some(entity(1))
    );
    assert_eq!(target_camera(None, Some(entity(2))), Some(entity(2)));
    assert_eq!(target_camera(None, None), None);
}

#[test]
fn borders_with_an_area_are_drawn() {
    let style = EdgeStyle {
        stack_index: 7,
        color: color(0.5, 1.0),
        clip: Some(rect(0.0, 0.0, 9.0, 9.0)),
        camera: entity(1),
    };
    let mut hidden = border_row();
    hidden.visible = false;
    assert_eq!(
        extract_uinode_borders(&vec![hidden, border_row()], Some(entity(1))),
        vec![
            EdgePlan {
                row: 1,
                edge: rect(-50.0, -20.0, -49.0, 20.0),
                style,
            },
            EdgePlan {
                row: 1,
                edge: rect(48.0, -20.0, 50.0, 20.0),
                style,
            },
        ]
    );
}

#[test]
fn borders_that_are_not_drawn() {
    let default = Some(entity(1));
    assert_eq!(border_row().drawn_to(default), default);
    assert_eq!(border_row().drawn_to(None), None);
    let mut row = border_row();
    row.visible = false;
    assert_eq!(row.drawn_to(default), None);
    let mut row = border_row();
    row.color = color(0.5, 0.0);
    assert_eq!(row.drawn_to(default), None);
    row.color = color(0.5, -0.0);
    assert_eq!(row.drawn_to(default), None);
    let mut row = border_row();
    row.size = point(0.0, 40.0);
    assert_eq!(row.drawn_to(default), None);
    row.size = point(100.0, -1.0);
    assert_eq!(row.drawn_to(default), None);
    row.size = point(f32::NAN, 40.0);
    assert_eq!(row.drawn_to(default), default);
}

#[test]
fn edges_of_an_outline_are_drawn() {
    let plans = extract_uinode_outlines(&vec![outline_row()], None);
    let edges: Vec<Rect> = plans.iter().map(|plan| plan.edge).collect();
    assert_eq!(
        edges,
        vec![
            rect(-53.0, -23.0, -50.0, 23.0),
            rect(50.0, -23.0, 53.0, 23.0),
            rect(-50.0, -23.0, 50.0, -20.0),
            rect(-50.0, 20.0, 50.0, 23.0),
        ]
    );
    for plan in plans {
        assert_eq!(plan.row, 0);
        assert_eq!(
            plan.style,
            EdgeStyle {
                stack_index: 8,
                color: color(0.25, 1.0),
                clip: None,
                camera: entity(2),
            }
        );
    }
}

#[test]
fn outlines_that_are_not_drawn() {
    let mut row = outline_row();
    row.rects = None;
    row.width = scalar(0.0);
    assert_eq!(row.drawn_to(None), None);
    assert!(extract_uinode_outlines(&vec![row], None).is_empty());
    row.width = scalar(-0.0);
    assert_eq!(row.drawn_to(None), None);
    let mut row = outline_row();
    row.width = scalar(-1.0);
    assert_eq!(row.drawn_to(None), Some(entity(2)));
    row.visible = false;
    assert_eq!(row.drawn_to(None), None);
    let mut row = outline_row();
    row.color = color(1.0, 0.0);
    assert_eq!(row.drawn_to(None), None);
    let mut row = outline_row();
    row.camera = None;
    assert_eq!(row.drawn_to(None), None);
    assert_eq!(row.drawn_to(Some(entity(4))), Some(entity(4)));
}

#[test]
fn rectangles_are_placed() {
    let plans = extract_uinode_borders(&vec![border_row()], Some(entity(1)));
    let placements = vec![
        EdgePlacement {
            entity: entity(10),
            transform: transform(1.0),
            size: point(1.0, 40.0),
        },
        EdgePlacement {
            entity: entity(11),
            transform: transform(3.0),
            size: point(2.0, 40.0),
        },
    ];
    let mut nodes = ExtractedUiNodes::new();
    nodes.insert(entity(9), whole(1));
    place_edges(&mut nodes, &plans, &placements);
    assert_eq!(nodes.get(entity(9)), Some(whole(1)));
    assert_eq!(
        nodes.get(entity(11)),
        Some(ExtractedUiNode {
            stack_index: 7,
            transform: transform(3.0),
            color: color(0.5, 1.0),
            rect: rect(0.0, 0.0, 2.0, 40.0),
            image: ImageId::none(),
            atlas_size: None,
            clip: Some(rect(0.0, 0.0, 9.0, 9.0)),
            flip_x: false,
            flip_y: false,
            camera_entity: entity(1),
        })
    );
    assert_eq!(
        nodes.get(entity(10)).map(|node| node.rect.max),
        Some(point(1.0, 40.0))
    );
}

#[test]
fn a_node_with_a_background_is_drawn() {
    let mut nodes = ExtractedUiNodes::new();
    extract_uinodes(&mut nodes, &vec![node_row(3)], Some(entity(1)));
    assert_eq!(nodes.get(entity(3)), Some(whole(1)));
}

#[test]
fn a_node_shows_its_image() {
    let image = ImageId::Index { number: 12 };
    let mut row = node_row(3);
    row.camera = Some(entity(2));
    row.image = Some(UiImage {
        texture: image,
        flip_x: true,
        flip_y: false,
    });
    let mut nodes = ExtractedUiNodes::new();
    extract_uinodes(&mut nodes, &vec![row], Some(entity(1)));
    let mut shown = whole(2);
    shown.image = image;
    shown.flip_x = true;
    assert_eq!(nodes.get(entity(3)), Some(shown));
}

#[test]
fn a_node_shows_a_part_of_an_atlas() {
    let mut row = node_row(3);
    row.atlas = Some(AtlasFrame::Frame {
        rect: rect(60.0, 20.0, 90.0, 40.0),
        size: point(120.0, 80.0),
    });
    let mut missing = node_row(4);
    missing.atlas = Some(AtlasFrame::MissingLayout);
    let mut nodes = ExtractedUiNodes::new();
    extract_uinodes(&mut nodes, &vec![row, missing], Some(entity(1)));
    let mut shown = whole(1);
    shown.rect = rect(60.0, 20.0, 90.0, 40.0);
    shown.atlas_size = Some(point(120.0, 80.0));
    assert_eq!(nodes.get(entity(3)), Some(shown));
    assert_eq!(nodes.get(entity(4)), None);
}

#[test]
fn pieces_take_the_place_of_the_node() {
    let mut row = node_row(3);
    row.image = Some(UiImage {
        texture: ImageId::Index { number: 12 },
        flip_x: false,
        flip_y: false,
    });
    row.atlas = Some(AtlasFrame::MissingLayout);
    row.slices = Some(vec![(entity(20), whole(6)), (entity(21), whole(7))]);
    let mut nodes = ExtractedUiNodes::new();
    extract_uinodes(&mut nodes, &vec![row], Some(entity(1)));
    assert_eq!(nodes.get(entity(3)), None);
    assert_eq!(nodes.get(entity(20)), Some(whole(6)));
    assert_eq!(nodes.get(entity(21)), Some(whole(7)));
}

#[test]
fn without_an_image_there_are_no_pieces() {
    let mut row = node_row(3);
    row.slices = Some(vec![(entity(20), whole(6))]);
    let mut nodes = ExtractedUiNodes::new();
    extract_uinodes(&mut nodes, &vec![row], Some(entity(1)));
    assert_eq!(nodes.get(entity(3)), Some(whole(1)));
    assert_eq!(nodes.get(entity(20)), None);
}

#[test]
fn nodes_that_are_not_drawn() {
    let mut hidden = node_row(3);
    hidden.visible = false;
    let mut clear = node_row(4);
    clear.color = color(1.0, 0.0);
    let mut nodes = ExtractedUiNodes::new();
    extract_uinodes(&mut nodes, &vec![hidden, clear], Some(entity(1)));
    extract_uinodes(&mut nodes, &vec![node_row(5)], None);
    assert!(nodes.entities().is_empty());
}
