use ui_render::entity::Entity;
use ui_render::geometry::{Color, Mat4, Rect, Vec2, Vec4};
use ui_render::image::ImageId;
use ui_render::nodes::{ExtractedUiNode, ExtractedUiNodes};
use ui_render::scalar::Scalar;
use ui_render::text::{extract_text_uinodes, Glyph, TextRow};

fn entity(index: u64) -> Entity {
    Entity::try_from_bits(0x1_0000_0000 + index).unwrap()
}

fn scalar(n: f32) -> Scalar {
    Scalar { bits: n.to_bits() }
}

fn point(x: f32, y: f32) -> Vec2 {
    Vec2 {
        x: scalar(x),
        y: scalar(y),
    }
}

fn gray(n: f32) -> Color {
    Color {
        r: scalar(n),
        g: scalar(n),
        b: scalar(n),
        a: scalar(1.0),
    }
}

fn glyph(index: u64, section: usize) -> Glyph {
    let column = Vec4 {
        x: scalar(index as f32),
        y: scalar(0.0),
        z: scalar(0.0),
        w: scalar(0.0),
    };
    Glyph {
        entity: entity(index),
        section,
        transform: Mat4 {
            x_axis: column,
            y_axis: column,
            z_axis: column,
            w_axis: column,
        },
        rect: Rect {
            min: point(1.0, 2.0),
            max: point(11.0, 18.0),
        },
        image: ImageId::Index { number: 4 },
        atlas_size: point(512.0, 512.0),
    }
}

fn text(glyphs: Vec<Glyph>) -> TextRow {
    TextRow {
        stack_index: 6,
        size: point(80.0, 20.0),
        sections: vec![gray(0.25), gray(0.5)],
        glyphs,
        visible: true,
        clip: None,
        camera: None,
    }
}

#[test]
fn glyphs_have_the_color_of_their_section() {
    let row = text(vec![
        glyph(10, 0),
        glyph(11, 0),
        glyph(12, 1),
        glyph(13, 0),
    ]);
    let mut nodes = ExtractedUiNodes::new();
    extract_text_uinodes(&mut nodes, &vec![row], Some(entity(1)));
    let color = |index: u64| nodes.get(entity(index)).map(|node| node.color);
    assert_eq!(color(10), Some(gray(0.25)));
    assert_eq!(color(11), Some(gray(0.25)));
    assert_eq!(color(12), Some(gray(0.5)));
    assert_eq!(color(13), Some(gray(0.25)));
    assert_eq!(nodes.entities().len(), 4);
}

#[test]
fn a_glyph_is_drawn_from_its_atlas() {
    let mut nodes = ExtractedUiNodes::new();
    extract_text_uinodes(&mut nodes, &vec![text(vec![glyph(10, 1)])], Some(entity(1)));
    assert_eq!(
        nodes.get(entity(10)),
        Some(ExtractedUiNode {
            stack_index: 6,
            transform: glyph(10, 1).transform,
            color: gray(0.5),
            rect: glyph(10, 1).rect,
            image: ImageId::Index { number: 4 },
            atlas_size: Some(point(512.0, 512.0)),
            clip: None,
            flip_x: false,
            flip_y: false,
            camera_entity: entity(1),
        })
    );
}

#[test]
fn glyphs_of_no_section_are_white() {
    let row = text(vec![glyph(10, usize::MAX), glyph(11, 0)]);
    let mut nodes = ExtractedUiNodes::new();
    extract_text_uinodes(&mut nodes, &vec![row], Some(entity(1)));
    assert_eq!(
        nodes.get(entity(10)).map(|node| node.color),
        Some(Color::white())
    );
    assert_eq!(
        nodes.get(entity(11)).map(|node| node.color),
        Some(gray(0.25))
    );
}

#[test]
fn texts_that_are_not_drawn() {
    let default = Some(entity(1));
    let shown = text(vec![glyph(10, 0)]);
    assert_eq!(shown.drawn_to(default), default);
    assert_eq!(shown.drawn_to(None), None);
    let mut hidden = text(vec![glyph(10, 0)]);
    hidden.visible = false;
    assert_eq!(hidden.drawn_to(default), None);
    let mut flat = text(vec![glyph(10, 0)]);
    flat.size = point(80.0, 0.0);
    assert_eq!(flat.drawn_to(default), None);
    let mut narrow = text(vec![glyph(10, 0)]);
    narrow.size = point(-0.0, 20.0);
    assert_eq!(narrow.drawn_to(default), None);
    let mut nodes = ExtractedUiNodes::new();
    extract_text_uinodes(&mut nodes, &vec![hidden, flat, narrow], default);
    extract_text_uinodes(&mut nodes, &vec![shown], None);
    assert!(nodes.entities().is_empty());
}

#[test]
fn a_text_of_negative_size_is_drawn() {
    let mut row = text(vec![glyph(10, 0)]);
    row.size = point(-80.0, 20.0);
    row.camera = Some(entity(3));
    let mut nodes = ExtractedUiNodes::new();
    extract_text_uinodes(&mut nodes, &vec![row], Some(entity(1)));
    assert_eq!(
        nodes.get(entity(10)).map(|node| node.camera_entity),
        Some(entity(3))
    );
}
