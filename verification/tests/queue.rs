use ui_render::entity::Entity;
use ui_render::geometry::{Color, Mat4, Rect, Vec2, Vec4};
use ui_render::image::ImageId;
use ui_render::nodes::{ExtractedUiNode, ExtractedUiNodes};
use ui_render::phase::{SortKey, UiPipelineKey, ViewPhase};
use ui_render::queue::{queue_in_order, queue_uinodes};
use ui_render::scalar::Scalar;

fn entity(index: u64) -> Entity {
    Entity::try_from_bits(0x1_0000_0000 + index).unwrap()
}

fn node(stack_index: u32, camera: u64) -> ExtractedUiNode {
    let zero = Scalar::zero();
    let column = Vec4 {
        x: zero,
        y: zero,
        z: zero,
        w: zero,
    };
    ExtractedUiNode {
        stack_index,
        transform: Mat4 {
            x_axis: column,
            y_axis: column,
            z_axis: column,
            w_axis: column,
        },
        color: Color::white(),
        rect: Rect {
            min: Vec2::zero(),
            max: Vec2::zero(),
        },
        image: ImageId::none(),
        atlas_size: None,
        clip: None,
        flip_x: false,
        flip_y: false,
        camera_entity: entity(camera),
    }
}

fn list(camera: u64, hdr: bool) -> ViewPhase {
    ViewPhase {
        camera: entity(camera),
        hdr,
        items: vec![],
    }
}

fn entities(phase: &ViewPhase) -> Vec<u32> {
    phase.items.iter().map(|item| item.entity.index()).collect()
}

#[test]
fn nodes_come_on_the_list_of_their_camera() {
    let mut nodes = ExtractedUiNodes::new();
    nodes.insert(entity(10), node(3, 1));
    nodes.insert(entity(11), node(2, 2));
    nodes.insert(entity(12), node(1, 1));
    nodes.insert(entity(13), node(0, 9));
    let mut phases = vec![list(1, false), list(2, true), list(3, false)];
    queue_uinodes(&nodes, 42, &mut phases);
    let mut first = entities(&phases[0]);
    first.sort();
    assert_eq!(first, vec![10, 12]);
    assert_eq!(entities(&phases[1]), vec![11]);
    assert!(phases[2].items.is_empty());
    let item = &phases[1].items[0];
    assert_eq!(item.entity, entity(11));
    assert_eq!(
        item.sort_key,
        SortKey {
            stack: Scalar::from_u32(2),
            index: 11
        }
    );
    assert_eq!(item.pipeline, UiPipelineKey { hdr: true });
    assert_eq!(item.draw_function, 42);
    assert_eq!(item.batch_range, 0..0);
    assert_eq!(item.dynamic_offset, None);
    assert_eq!(phases[0].items[0].pipeline, UiPipelineKey { hdr: false });
}

#[test]
fn nodes_are_queued_in_the_given_order() {
    let mut nodes = ExtractedUiNodes::new();
    for index in [10, 11, 12] {
        nodes.insert(entity(index), node(0, 1));
    }
    let mut phases = vec![list(1, false)];
    queue_in_order(
        &nodes,
        &vec![entity(12), entity(10), entity(11)],
        0,
        &mut phases,
    );
    assert_eq!(entities(&phases[0]), vec![12, 10, 11]);
}

#[test]
fn queueing_adds_to_a_list() {
    let mut nodes = ExtractedUiNodes::new();
    nodes.insert(entity(10), node(0, 1));
    let mut phases = vec![list(1, false)];
    queue_uinodes(&nodes, 0, &mut phases);
    queue_uinodes(&nodes, 1, &mut phases);
    assert_eq!(entities(&phases[0]), vec![10, 10]);
    assert_eq!(phases[0].items[0].draw_function, 0);
    assert_eq!(phases[0].items[1].draw_function, 1);
}

#[test]
fn places_far_up_the_stack_can_coincide() {
    let mut nodes = ExtractedUiNodes::new();
    nodes.insert(entity(10), node(16777216, 1));
    nodes.insert(entity(11), node(16777217, 1));
    let mut phases = vec![list(1, false)];
    queue_in_order(&nodes, &vec![entity(10), entity(11)], 0, &mut phases);
    let keys: Vec<SortKey> = phases[0].items.iter().map(|item| item.sort_key).collect();
    assert_eq!(keys[0].stack, keys[1].stack);
    assert_eq!(keys[0].stack.bits, 16777216.0f32.to_bits());
    assert!(keys[0].index < keys[1].index);
}

#[test]
fn without_nodes_nothing_is_queued() {
    let mut phases = vec![list(1, false)];
    queue_uinodes(&ExtractedUiNodes::new(), 0, &mut phases);
    assert!(phases[0].items.is_empty());
}
