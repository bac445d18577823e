use ui_render::entity::Entity;
use ui_render::geometry::{Color, Mat4, Rect, Vec2, Vec4};
use ui_render::image::ImageId;
use ui_render::nodes::{ExtractedUiNode, ExtractedUiNodes};
use ui_render::scalar::Scalar;

fn entity(index: u64) -> Entity {
    Entity::try_from_bits(0x1_0000_0000 + index).unwrap()
}

fn node(stack_index: u32) -> ExtractedUiNode {
    let zero = Scalar::zero();
    let column = Vec4 {
        x: zero,
        y: zero,
        z: zero,
        w: zero,
    };
    ExtractedUiNode {
        stack_index,
        transform: Mat4 {
            x_axis: column,
            y_axis: column,
            z_axis: column,
            w_axis: column,
        },
        color: Color::white(),
        rect: Rect {
            min: Vec2::zero(),
            max: Vec2::zero(),
        },
        image: ImageId::none(),
        atlas_size: None,
        clip: None,
        flip_x: false,
        flip_y: false,
        camera_entity: entity(1),
    }
}

#[test]
fn a_node_is_found_under_its_entity() {
    let mut nodes = ExtractedUiNodes::new();
    assert_eq!(nodes.get(entity(3)), None);
    nodes.insert(entity(3), node(30));
    nodes.insert(entity(4), node(40));
    assert_eq!(nodes.get(entity(3)), Some(node(30)));
    assert_eq!(nodes.get(entity(4)), Some(node(40)));
    assert_eq!(nodes.get(entity(5)), None);
}

#[test]
fn the_last_node_stays() {
    let mut nodes = ExtractedUiNodes::default();
    let entries = vec![
        (entity(3), node(1)),
        (entity(4), node(2)),
        (entity(3), node(3)),
    ];
    nodes.insert(entity(9), node(9));
    nodes.insert_all(&entries);
    assert_eq!(nodes.get(entity(3)), Some(node(3)));
    assert_eq!(nodes.get(entity(4)), Some(node(2)));
    assert_eq!(nodes.get(entity(9)), Some(node(9)));
}

#[test]
fn the_same_nodes_twice_change_nothing() {
    let entries = vec![
        (entity(3), node(1)),
        (entity(4), node(2)),
        (entity(3), node(3)),
    ];
    let mut nodes = ExtractedUiNodes::new();
    nodes.insert(entity(9), node(9));
    nodes.insert_all(&entries);
    nodes.insert_all(&entries);
    assert_eq!(nodes.get(entity(3)), Some(node(3)));
    assert_eq!(nodes.get(entity(4)), Some(node(2)));
    assert_eq!(nodes.get(entity(9)), Some(node(9)));
    assert_eq!(nodes.entities().len(), 3);
}

#[test]
fn every_entity_is_listed_once() {
    let mut nodes = ExtractedUiNodes::new();
    assert!(nodes.entities().is_empty());
    for index in [8, 2, 5, 2, 8] {
        nodes.insert(entity(index), node(0));
    }
    let mut listed: Vec<u64> = nodes.entities().iter().map(|e| e.to_bits()).collect();
    listed.sort();
    assert_eq!(
        listed,
        vec![
            entity(2).to_bits(),
            entity(5).to_bits(),
            entity(8).to_bits()
        ]
    );
}

#[test]
fn clearing_leaves_no_node() {
    let mut nodes = ExtractedUiNodes::new();
    nodes.insert(entity(3), node(30));
    nodes.clear();
    assert_eq!(nodes.get(entity(3)), None);
    assert!(nodes.entities().is_empty());
}
