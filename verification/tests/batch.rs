use ui_render::batch::{
    prepare_uinodes, ImageEvent, Prepared, UiImageBindGroups, UiMeta,
};
use ui_render::count::can_be_counted;
use ui_render::entity::Entity;
use ui_render::geometry::{Color, Mat4, Rect, Vec2, Vec3, Vec4};
use ui_render::image::{ImageId, ImageSet};
use ui_render::nodes::{ExtractedUiNode, ExtractedUiNodes};
use ui_render::phase::{SortKey, TransparentUi, UiPipelineKey, ViewPhase};
use ui_render::quad::Quad;
use ui_render::scalar::Scalar;

fn entity(index: u64) -> Entity {
    Entity::try_from_bits(0x1_0000_0000 + index).unwrap()
}

fn image(number: u64) -> ImageId {
    ImageId::Index { number }
}

fn node(image: ImageId, camera: u64) -> ExtractedUiNode {
    let zero = Scalar::zero();
    let column = Vec4 {
        x: zero,
        y: zero,
        z: zero,
        w: zero,
    };
    ExtractedUiNode {
        stack_index: 0,
        transform: Mat4 {
            x_axis: column,
            y_axis: column,
            z_axis: column,
            w_axis: column,
        },
        color: Color::white(),
        rect: Rect {
            min: Vec2::zero(),
            max: Vec2::zero(),
        },
        image,
        atlas_size: None,
        clip: None,
        flip_x: false,
        flip_y: false,
        camera_entity: entity(camera),
    }
}

fn item(index: u64) -> TransparentUi {
    TransparentUi {
        sort_key: SortKey {
            stack: Scalar::zero(),
            index: index as u32,
        },
        entity: entity(index),
        pipeline: UiPipelineKey { hdr: false },
        draw_function: 0,
        batch_range: 0..0,
        dynamic_offset: None,
    }
}

fn quad(n: u32, culled: bool) -> Quad {
    let corner = Vec3 {
        x: Scalar::from_u32(n),
        y: Scalar::zero(),
        z: Scalar::zero(),
    };
    Quad {
        positions: [corner; 4],
        uvs: [Vec2::zero(); 4],
        culled,
    }
}

/// A frame under way: lists of what is to be drawn, and of what clipping leaves nothing.
struct Frame {
    meta: UiMeta,
    nodes: ExtractedUiNodes,
    groups: UiImageBindGroups,
    gpu_images: ImageSet,
    phases: Vec<ViewPhase>,
    quads: Vec<Vec<Quad>>,
    events: Vec<ImageEvent>,
    previous_len: usize,
}

impl Frame {
    fn new(loaded: &[ImageId]) -> Frame {
        let mut gpu_images = ImageSet::new();
        for image in loaded {
            gpu_images.insert(*image);
        }
        Frame {
            meta: UiMeta::default(),
            nodes: ExtractedUiNodes::new(),
            groups: UiImageBindGroups::default(),
            gpu_images,
            phases: vec![],
            quads: vec![],
            events: vec![],
            previous_len: 0,
        }
    }

    fn list(&mut self, camera: u64) {
        self.phases.push(ViewPhase {
            camera: entity(camera),
            hdr: false,
            items: vec![],
        });
        self.quads.push(vec![]);
    }

    fn add(&mut self, index: u64, node: Option<ExtractedUiNode>, culled: bool) {
        if let Some(node) = node {
            self.nodes.insert(entity(index), node);
        }
        let last = self.phases.len() - 1;
        self.phases[last].items.push(item(index));
        self.quads[last].push(quad(index as u32, culled));
    }

    fn prepare(&mut self, view_binding: bool) -> Option<Prepared> {
        prepare_uinodes(
            &mut self.meta,
            &mut self.nodes,
            view_binding,
            &mut self.groups,
            &self.gpu_images,
            &mut self.phases,
            &self.quads,
            &self.events,
            &mut self.previous_len,
        )
    }

    fn counts(&self, list: usize) -> Vec<u32> {
        self.phases[list]
            .items
            .iter()
            .map(|item| {
                assert_eq!(item.batch_range.start, 0);
                item.batch_range.end
            })
            .collect()
    }

    fn drawn(&self) -> Vec<u32> {
        self.meta
            .vertices
            .chunks(6)
            .map(|six| {
                assert!(six.iter().all(|vertex| vertex.position == six[0].position));
                f32::from_bits(six[0].position.x.bits) as u32
            })
            .collect()
    }
}

fn batches(prepared: &Prepared) -> Vec<(u32, u32, u32, ImageId, u32)> {
    prepared
        .batches
        .iter()
        .map(|(entity, batch)| {
            (
                entity.index(),
                batch.range.start,
                batch.range.end,
                batch.image,
                batch.camera.index(),
            )
        })
        .collect()
}

#[test]
fn nodes_without_images_share_a_batch() {
    let none = ImageId::none();
    let mut frame = Frame::new(&[none]);
    frame.list(1);
    for index in [10, 11, 12] {
        frame.add(index, Some(node(none, 1)), false);
    }
    let prepared = frame.prepare(true).unwrap();
    assert_eq!(batches(&prepared), vec![(10, 0, 18, none, 1)]);
    assert_eq!(prepared.created, vec![none]);
    assert_eq!(frame.counts(0), vec![3, 0, 0]);
    assert_eq!(frame.drawn(), vec![10, 11, 12]);
    assert_eq!(frame.previous_len, 1);
    assert!(frame.meta.view_bind_group);
    assert!(frame.nodes.entities().is_empty());
}

#[test]
fn another_image_begins_a_batch() {
    let mut frame = Frame::new(&[image(1), image(2)]);
    frame.list(1);
    frame.add(10, Some(node(image(1), 1)), false);
    frame.add(11, Some(node(image(1), 1)), false);
    frame.add(12, Some(node(image(2), 1)), false);
    frame.add(13, Some(node(image(1), 1)), false);
    let prepared = frame.prepare(true).unwrap();
    assert_eq!(
        batches(&prepared),
        vec![
            (10, 0, 12, image(1), 1),
            (12, 12, 18, image(2), 1),
            (13, 18, 24, image(1), 1),
        ]
    );
    assert_eq!(prepared.created, vec![image(1), image(2)]);
    assert_eq!(frame.counts(0), vec![2, 0, 1, 1]);
    assert_eq!(frame.previous_len, 3);
}

#[test]
fn a_batch_without_an_image_takes_on_the_first_one() {
    let none = ImageId::none();
    let mut frame = Frame::new(&[none, image(1), image(2)]);
    frame.list(1);
    frame.add(10, Some(node(none, 1)), false);
    frame.add(11, Some(node(image(1), 1)), false);
    frame.add(12, Some(node(none, 1)), false);
    frame.add(13, Some(node(image(2), 1)), false);
    let prepared = frame.prepare(true).unwrap();
    assert_eq!(
        batches(&prepared),
        vec![(10, 0, 18, image(1), 1), (13, 18, 24, image(2), 1)]
    );
    assert_eq!(prepared.created, vec![none, image(1), image(2)]);
    assert_eq!(frame.counts(0), vec![3, 0, 0, 1]);
    assert_eq!(frame.meta.vertices[0].mode, 1);
    assert_eq!(frame.meta.vertices[6].mode, 0);
    assert_eq!(frame.meta.vertices[12].mode, 1);
}

#[test]
fn an_image_that_is_not_loaded_is_passed_over() {
    let none = ImageId::none();
    let mut frame = Frame::new(&[none, image(2)]);
    frame.list(1);
    frame.add(10, Some(node(image(1), 1)), false);
    frame.add(11, Some(node(none, 1)), false);
    frame.add(12, Some(node(image(1), 1)), false);
    frame.add(13, Some(node(none, 1)), false);
    frame.add(14, Some(node(image(2), 1)), false);
    let prepared = frame.prepare(true).unwrap();
    assert_eq!(batches(&prepared), vec![(11, 0, 18, image(2), 1)]);
    assert_eq!(frame.drawn(), vec![11, 13, 14]);
    assert_eq!(frame.counts(0), vec![0, 3, 0, 0, 0]);
    assert!(!frame.groups.values.contains(image(1)));
    assert!(frame.groups.values.contains(image(2)));
}

#[test]
fn an_item_without_a_node_ends_the_batch() {
    let none = ImageId::none();
    let mut frame = Frame::new(&[none]);
    frame.list(1);
    frame.add(10, Some(node(none, 1)), false);
    frame.add(11, None, false);
    frame.add(12, Some(node(none, 1)), false);
    let prepared = frame.prepare(true).unwrap();
    assert_eq!(
        batches(&prepared),
        vec![(10, 0, 6, none, 1), (12, 6, 12, none, 1)]
    );
    assert_eq!(prepared.created, vec![none]);
    assert_eq!(frame.counts(0), vec![1, 0, 1]);
}

#[test]
fn another_camera_begins_a_batch() {
    let none = ImageId::none();
    let mut frame = Frame::new(&[none]);
    frame.list(1);
    frame.add(10, Some(node(none, 1)), false);
    frame.add(11, Some(node(none, 2)), false);
    let prepared = frame.prepare(true).unwrap();
    assert_eq!(
        batches(&prepared),
        vec![(10, 0, 6, none, 1), (11, 6, 12, none, 2)]
    );
}

#[test]
fn each_list_begins_a_batch() {
    let none = ImageId::none();
    let mut frame = Frame::new(&[none]);
    frame.list(1);
    frame.add(10, Some(node(none, 1)), false);
    frame.list(2);
    frame.add(20, Some(node(none, 2)), false);
    frame.add(21, Some(node(none, 2)), false);
    let prepared = frame.prepare(true).unwrap();
    assert_eq!(
        batches(&prepared),
        vec![(10, 0, 6, none, 1), (20, 6, 18, none, 2)]
    );
    assert_eq!(frame.counts(0), vec![1]);
    assert_eq!(frame.counts(1), vec![2, 0]);
    assert_eq!(frame.drawn(), vec![10, 20, 21]);
}

#[test]
fn what_is_clipped_away_is_not_drawn_but_may_begin_a_batch() {
    let none = ImageId::none();
    let mut frame = Frame::new(&[none, image(1)]);
    frame.list(1);
    frame.add(10, Some(node(none, 1)), true);
    frame.add(11, Some(node(none, 1)), false);
    frame.add(12, Some(node(image(1), 1)), true);
    frame.add(13, Some(node(none, 1)), false);
    let prepared = frame.prepare(true).unwrap();
    assert_eq!(batches(&prepared), vec![(10, 0, 12, image(1), 1)]);
    assert_eq!(frame.drawn(), vec![11, 13]);
    assert_eq!(frame.counts(0), vec![2, 0, 0, 0]);
}

#[test]
fn a_batch_can_be_empty() {
    let mut frame = Frame::new(&[image(1), image(2)]);
    frame.list(1);
    frame.add(10, Some(node(image(1), 1)), true);
    frame.add(11, Some(node(image(2), 1)), false);
    let prepared = frame.prepare(true).unwrap();
    assert_eq!(
        batches(&prepared),
        vec![(10, 0, 0, image(1), 1), (11, 0, 6, image(2), 1)]
    );
    assert_eq!(frame.counts(0), vec![0, 1]);
}

#[test]
fn bind_groups_are_kept_from_frame_to_frame() {
    let mut frame = Frame::new(&[image(1), image(2)]);
    frame.list(1);
    frame.add(10, Some(node(image(1), 1)), false);
    assert_eq!(frame.prepare(true).unwrap().created, vec![image(1)]);
    frame.phases.clear();
    frame.quads.clear();
    frame.list(1);
    frame.add(10, Some(node(image(1), 1)), false);
    frame.add(11, Some(node(image(2), 1)), false);
    let prepared = frame.prepare(true).unwrap();
    assert_eq!(prepared.created, vec![image(2)]);
    assert_eq!(frame.drawn(), vec![10, 11]);
}

#[test]
fn changed_images_are_bound_anew() {
    let mut frame = Frame::new(&[image(1)]);
    for number in [1, 2, 3, 4, 5] {
        frame.groups.values.insert(image(number));
    }
    frame.events = vec![
        ImageEvent::Modified { id: image(1) },
        ImageEvent::Added { id: image(2) },
        ImageEvent::Removed { id: image(3) },
        ImageEvent::Unused { id: image(4) },
        ImageEvent::LoadedWithDependencies { id: image(5) },
    ];
    frame.list(1);
    frame.add(10, Some(node(image(1), 1)), false);
    let prepared = frame.prepare(true).unwrap();
    assert_eq!(prepared.created, vec![image(1)]);
    let bound: Vec<bool> = [1, 2, 3, 4, 5]
        .into_iter()
        .map(|number| frame.groups.values.contains(image(number)))
        .collect();
    assert_eq!(bound, vec![true, true, false, true, true]);
}

#[test]
fn without_a_view_nothing_is_grouped() {
    let none = ImageId::none();
    let mut frame = Frame::new(&[none]);
    frame.groups.values.insert(image(1));
    frame.events = vec![ImageEvent::Removed { id: image(1) }];
    frame.previous_len = 5;
    frame.list(1);
    frame.add(10, Some(node(none, 1)), false);
    assert!(frame.prepare(false).is_none());
    assert!(frame.meta.vertices.is_empty());
    assert!(!frame.meta.view_bind_group);
    assert_eq!(frame.counts(0), vec![0]);
    assert_eq!(frame.previous_len, 5);
    assert!(!frame.groups.values.contains(image(1)));
    assert!(frame.nodes.entities().is_empty());
}

#[test]
fn old_vertices_are_dropped() {
    let none = ImageId::none();
    let mut frame = Frame::new(&[none]);
    frame.list(1);
    frame.add(10, Some(node(none, 1)), false);
    frame.prepare(true);
    assert_eq!(frame.meta.vertices.len(), 6);
    let prepared = frame.prepare(true).unwrap();
    assert!(prepared.batches.is_empty());
    assert!(frame.meta.vertices.is_empty());
    assert_eq!(frame.previous_len, 0);
}

/// Three lists, with what may happen to an item in every combination.
fn mixed_frame(loaded: &[ImageId]) -> (Frame, Vec<u32>) {
    let mut frame = Frame::new(loaded);
    let images = [ImageId::none(), image(1), image(2), image(3)];
    let mut seen: Vec<u32> = vec![];
    let mut seed: u32 = 99;
    let mut next = || {
        seed = seed.wrapping_mul(1664525).wrapping_add(1013904223);
        (seed >> 16) as usize
    };
    for list in 0..3u64 {
        frame.list(list);
        for k in 0..40u64 {
            let shown = node(images[next() % 4], (next() % 2) as u64);
            let there = next() % 5 != 0;
            let culled = next() % 6 == 0;
            let index = 100 * list + k;
            if there && !culled {
                seen.push(index as u32);
            }
            frame.add(index, if there { Some(shown) } else { None }, culled);
        }
    }
    (frame, seen)
}

#[test]
fn batches_part_the_vertices_among_them() {
    let (mut frame, _) = mixed_frame(&[ImageId::none(), image(1), image(2)]);
    let prepared = frame.prepare(true).unwrap();
    let mut end = 0;
    for (_, batch) in &prepared.batches {
        assert_eq!(batch.range.start, end);
        assert_eq!(batch.range.start % 6, 0);
        assert!(batch.range.end >= batch.range.start);
        assert!(frame.groups.values.contains(batch.image));
        assert!(frame.gpu_images.contains(batch.image));
        end = batch.range.end;
    }
    assert_eq!(end as usize, frame.meta.vertices.len());
    let counted: u32 = (0..3).map(|list| frame.counts(list).iter().sum::<u32>()).sum();
    assert_eq!(6 * counted as usize, frame.meta.vertices.len());
    assert!(counted > 0);
}

#[test]
fn items_match_batches() {
    let (mut frame, _) = mixed_frame(&[ImageId::none(), image(1), image(2)]);
    let prepared = frame.prepare(true).unwrap();
    for list in 0..3 {
        let counts = frame.counts(list);
        let mut free = 0;
        for (i, count) in counts.iter().enumerate() {
            if *count > 0 {
                assert!(i >= free, "{list} {i}");
                free = i + *count as usize;
                assert!(free <= counts.len());
                let entity = frame.phases[list].items[i].entity;
                let (_, batch) = prepared
                    .batches
                    .iter()
                    .find(|(first, _)| *first == entity)
                    .unwrap();
                assert_eq!(batch.range.end - batch.range.start, 6 * count);
            }
        }
    }
}

#[test]
fn all_that_can_be_seen_is_drawn() {
    let all = [ImageId::none(), image(1), image(2), image(3)];
    let (mut frame, seen) = mixed_frame(&all);
    frame.prepare(true);
    assert_eq!(frame.drawn(), seen);
    assert!(seen.len() > 60);
}

#[test]
fn without_an_image_nothing_of_it_is_drawn() {
    let (mut frame, seen) = mixed_frame(&[ImageId::none(), image(1), image(2)]);
    let waiting: Vec<u32> = seen
        .iter()
        .copied()
        .filter(|index| {
            frame
                .nodes
                .get(entity(*index as u64))
                .is_some_and(|node| node.image == image(3))
        })
        .collect();
    assert!(!waiting.is_empty());
    frame.prepare(true);
    let drawn = frame.drawn();
    assert!(waiting.iter().all(|index| !drawn.contains(index)));
    assert_eq!(drawn.len() + waiting.len(), seen.len());
}

#[test]
fn each_batch_is_begun_for_a_reason() {
    let (mut frame, _) = mixed_frame(&[ImageId::none(), image(1), image(2)]);
    let there: Vec<Vec<bool>> = frame
        .phases
        .iter()
        .map(|list| {
            list.items
                .iter()
                .map(|item| frame.nodes.get(item.entity).is_some())
                .collect()
        })
        .collect();
    let prepared = frame.prepare(true).unwrap();
    let none = ImageId::none();
    let mut compared = 0;
    for pair in prepared.batches.windows(2) {
        let (list, first) = place(pair[0].0);
        let (next_list, second) = place(pair[1].0);
        assert!((list, first) < (next_list, second));
        if list == next_list && there[list][first..second].iter().all(|node| *node) {
            let (a, b) = (&pair[0].1, &pair[1].1);
            let images_differ = a.image != none && b.image != none && a.image != b.image;
            assert!(a.camera != b.camera || images_differ, "{list} {first} {second}");
            compared += 1;
        }
    }
    assert!(compared > 5);
}

/// The list of an entity of a mixed frame, and its place there.
fn place(entity: Entity) -> (usize, usize) {
    let index = entity.index() as usize;
    (index / 100, index % 100)
}

#[test]
fn a_batch_keeps_to_one_list() {
    let (mut frame, _) = mixed_frame(&[ImageId::none(), image(1), image(2), image(3)]);
    let prepared = frame.prepare(true).unwrap();
    let drawn = frame.drawn();
    for (entity, batch) in &prepared.batches {
        for node in batch.range.start / 6..batch.range.end / 6 {
            assert_eq!(drawn[node as usize] as usize / 100, place(*entity).0);
        }
    }
}

#[test]
fn bind_groups_are_of_loaded_images() {
    let (mut frame, _) = mixed_frame(&[ImageId::none(), image(1), image(2)]);
    let prepared = frame.prepare(true).unwrap();
    assert_eq!(prepared.created.len(), 3);
    for created in prepared.created {
        assert!(frame.gpu_images.contains(created));
    }
}

#[test]
fn items_go_on_counting() {
    let none = ImageId::none();
    let mut frame = Frame::new(&[none]);
    frame.list(1);
    for index in [10, 11, 12] {
        frame.add(index, Some(node(none, 1)), false);
    }
    frame.phases[0].items[0].batch_range = 2..7;
    frame.phases[0].items[2].batch_range = 0..u32::MAX;
    let prepared = frame.prepare(true).unwrap();
    assert_eq!(batches(&prepared), vec![(10, 0, 18, none, 1)]);
    assert_eq!(frame.phases[0].items[0].batch_range, 2..10);
    assert_eq!(frame.phases[0].items[1].batch_range, 0..0);
    assert_eq!(frame.phases[0].items[2].batch_range, 0..u32::MAX);
}

#[test]
fn what_can_be_counted() {
    let none = ImageId::none();
    let counted = |head: u32, other: u32, missing: bool, culled: bool| {
        let mut frame = Frame::new(&[none]);
        frame.list(1);
        frame.add(10, Some(node(none, 1)), culled);
        frame.add(11, if missing { None } else { Some(node(none, 1)) }, false);
        frame.add(12, Some(node(none, 1)), false);
        frame.phases[0].items[0].batch_range.end = head;
        frame.phases[0].items[2].batch_range.end = other;
        can_be_counted(&frame.nodes, &frame.gpu_images, &frame.phases, &frame.quads)
    };
    assert!(counted(0, 0, false, false));
    assert!(counted(u32::MAX - 3, u32::MAX, false, false));
    assert!(!counted(u32::MAX - 2, 0, false, false));
    assert!(counted(u32::MAX - 2, 0, false, true));
    assert!(counted(u32::MAX - 1, 0, true, false));
    assert!(!counted(0, u32::MAX, true, false));
    assert!(counted(0, u32::MAX - 1, true, false));
}

#[test]
fn mixed_lists_can_be_counted() {
    let (frame, _) = mixed_frame(&[ImageId::none(), image(1), image(2)]);
    assert!(can_be_counted(
        &frame.nodes,
        &frame.gpu_images,
        &frame.phases,
        &frame.quads
    ));
}
