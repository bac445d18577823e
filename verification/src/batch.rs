//! Grouping what is drawn into batches of vertices that share an image and a camera.
use crate::entity::Entity;
use crate::image::{ImageId, ImageSet};
use crate::nodes::{lookup, ExtractedUiNode, ExtractedUiNodes};
use crate::phase::{TransparentUi, ViewPhase};
use crate::quad::{push_quad, quad_vertices, Quad, UiVertex};
use std::ops::Range;
use vstd::prelude::*;

verus! {

/// Vertices that are drawn together.
#[derive(Debug)]
pub struct UiBatch {
    /// Which of the vertices these are.
    pub range: Range<u32>,
    /// The image that they show, if they show one.
    pub image: ImageId,
    /// The camera that they are drawn to.
    pub camera: Entity,
}

/// What is handed to the graphics card.
#[derive(Debug)]
pub struct UiMeta {
    pub vertices: Vec<UiVertex>,
    /// Whether there is a bind group for the view.
    pub view_bind_group: bool,
}

impl Default for UiMeta {
    fn default() -> (r: UiMeta)
        ensures
            r.vertices@ == Seq::<UiVertex>::empty(),
            !r.view_bind_group,
    {
        UiMeta { vertices: Vec::new(), view_bind_group: false }
    }
}

/// The images that have a bind group.
pub struct UiImageBindGroups {
    pub values: ImageSet,
}

impl Default for UiImageBindGroups {
    fn default() -> (r: UiImageBindGroups)
        ensures
            r.values@ == Set::<ImageId>::empty(),
    {
        UiImageBindGroups { values: ImageSet::new() }
    }
}

/// What happened to an image.
#[derive(Clone, Copy, PartialEq, Eq, Structural, Debug)]
pub enum ImageEvent {
    Added { id: ImageId },
    Modified { id: ImageId },
    Removed { id: ImageId },
    Unused { id: ImageId },
    LoadedWithDependencies { id: ImageId },
}

impl ImageEvent {
    /// Whether a bind group for an image is out of date after the event.
    pub open spec fn outdates(self, image: ImageId) -> bool {
        match self {
            ImageEvent::Modified { id } => id == image,
            ImageEvent::Removed { id } => id == image,
            _ => false,
        }
    }
}

/// The images whose bind groups are still good after some events.
pub open spec fn after_events(bound: Set<ImageId>, events: Seq<ImageEvent>) -> Set<ImageId> {
    Set::new(
        |image: ImageId|
            bound.contains(image) && forall|k: int|
                0 <= k < events.len() ==> !(#[trigger] events[k]).outdates(image),
    )
}

impl UiImageBindGroups {
    /// Drops the bind groups that are out of date after some events.
    pub fn drop_outdated(&mut self, events: &Vec<ImageEvent>)
        ensures
            final(self).values@ == after_events(old(self).values@, events@),
    {
        let ghost bound = self.values@;
        assert(self.values@ =~= after_events(bound, events@.take(0)));
        for k in 0..events.len()
            invariant
                self.values@ == after_events(bound, events@.take(k as int)),
        {
            let ghost before = self.values@;
            match events[k] {
                ImageEvent::Added { .. }
                | ImageEvent::Unused { .. }
                | ImageEvent::LoadedWithDependencies { .. } => {},
                ImageEvent::Modified { id } | ImageEvent::Removed { id } => {
                    self.values.remove(id);
                },
            }
            proof {
                let taken = events@.take(k + 1);
                assert(taken[k as int] == events@[k as int]);
                assert(taken.take(k as int) =~= events@.take(k as int));
                assert forall|image: ImageId|
                    self.values@.contains(image) <==> #[trigger] after_events(
                        bound,
                        taken,
                    ).contains(image) by {
                    if before.contains(image) && !events@[k as int].outdates(image) {
                        assert forall|j: int| 0 <= j < taken.len() implies !(
                        #[trigger] taken[j]).outdates(image) by {
                            if j < k {
                                assert(taken[j] == events@.take(k as int)[j]);
                            }
                        }
                    }
                    if after_events(bound, taken).contains(image) {
                        assert forall|j: int| 0 <= j < k implies !(#[trigger] events@.take(
                            k as int,
                        )[j]).outdates(image) by {
                            assert(taken[j] == events@.take(k as int)[j]);
                        }
                        assert(!taken[k as int].outdates(image));
                    }
                }
                assert(self.values@ =~= after_events(bound, taken));
            }
        }
        assert(events@.take(events@.len() as int) =~= events@);
    }
}

/// What is to be done after the grouping.
#[derive(Debug)]
pub struct Prepared {
    /// The batches, each with the entity of the node that it began with.
    pub batches: Vec<(Entity, UiBatch)>,
    /// The images that bind groups are to be created for.
    pub created: Vec<ImageId>,
}

/// How far the grouping has come.
#[verifier::ext_equal]
pub struct Progress {
    /// The batches, each with the entity of the node that it began with.
    pub batches: Seq<(Entity, UiBatch)>,
    pub vertices: Seq<UiVertex>,
    /// The images that have a bind group.
    pub bound: Set<ImageId>,
    /// The images that were given a bind group, in this order.
    pub created: Seq<ImageId>,
    /// The nodes that were drawn, in this order, each with how it was drawn.
    pub drawn: Seq<(ExtractedUiNode, Quad)>,
}

impl Progress {
    /// The batch that is added to.
    pub open spec fn current(self) -> UiBatch {
        self.batches.last().1
    }

    /// What follows when an image is given a bind group, unless it has one.
    pub open spec fn bind(self, image: ImageId) -> Progress {
        Progress {
            bound: self.bound.insert(image),
            created: if self.bound.contains(image) {
                self.created
            } else {
                self.created.push(image)
            },
            ..self
        }
    }

    /// What follows when a batch without vertices is begun.
    pub open spec fn open(self, entity: Entity, node: ExtractedUiNode) -> Progress {
        let at = self.vertices.len() as u32;
        Progress {
            batches: self.batches.push(
                (
                    entity,
                    UiBatch {
                        range: Range { start: at, end: at },
                        image: node.image,
                        camera: node.camera_entity,
                    },
                ),
            ),
            ..self
        }
    }

    /// What follows when the last batch is replaced.
    pub open spec fn replace_current(self, batch: UiBatch) -> Progress {
        let last = self.batches.len() - 1;
        Progress { batches: self.batches.update(last, (self.batches[last].0, batch)), ..self }
    }

    /// What follows when a node is drawn as part of the last batch.
    pub open spec fn draw(self, node: ExtractedUiNode, quad: Quad) -> Progress {
        let vertices = self.vertices + quad_vertices(node, quad);
        let current = self.current();
        Progress {
            vertices,
            drawn: self.drawn.push((node, quad)),
            ..self.replace_current(
                UiBatch {
                    range: Range { start: current.range.start, end: vertices.len() as u32 },
                    ..current
                },
            )
        }
    }
}

/// How far the grouping of the list of a camera has come.
#[verifier::ext_equal]
pub struct PhaseProgress {
    pub frame: Progress,
    pub items: Seq<TransparentUi>,
    /// The item that the last batch began with.
    pub head: int,
    /// The image of the last batch, or the invalid image where nothing can be added to it.
    pub image: ImageId,
}

/// An item that so many more nodes are drawn together with.
pub open spec fn counting_more(item: TransparentUi, count: nat) -> TransparentUi {
    TransparentUi {
        batch_range: Range {
            start: item.batch_range.start,
            end: (item.batch_range.end + count) as u32,
        },
        ..item
    }
}

impl PhaseProgress {
    /// Whether a node cannot be part of the last batch.
    pub open spec fn needs_batch(self, node: ExtractedUiNode) -> bool {
        ||| self.image == ImageId::spec_invalid()
        ||| self.frame.batches.len() == 0
        ||| {
            &&& self.image != ImageId::spec_none()
            &&& node.image != ImageId::spec_none()
            &&& self.image != node.image
        }
        ||| self.frame.current().camera != node.camera_entity
    }

    /// Whether a node with an image joins a batch that so far has none.
    pub open spec fn gives_image(self, node: ExtractedUiNode) -> bool {
        &&& !self.needs_batch(node)
        &&& self.image == ImageId::spec_none()
        &&& node.image != ImageId::spec_none()
    }

    /// Whether a node has to wait for its image.
    pub open spec fn waits(self, node: ExtractedUiNode, gpu_images: Set<ImageId>) -> bool {
        &&& self.needs_batch(node) || self.gives_image(node)
        &&& !gpu_images.contains(node.image)
    }

    /// What follows when the node of an item is made room for in the last batch or in a new one.
    pub open spec fn make_room(self, index: int, node: ExtractedUiNode) -> PhaseProgress {
        if self.needs_batch(node) {
            PhaseProgress {
                frame: self.frame.open(self.items[index].entity, node).bind(node.image),
                head: index,
                image: node.image,
                ..self
            }
        } else if self.gives_image(node) {
            PhaseProgress {
                frame: self.frame.replace_current(
                    UiBatch { image: node.image, ..self.frame.current() },
                ).bind(node.image),
                image: node.image,
                ..self
            }
        } else {
            self
        }
    }

    /// What follows when a node is drawn as part of the last batch.
    pub open spec fn draw(self, node: ExtractedUiNode, quad: Quad) -> PhaseProgress {
        PhaseProgress {
            frame: self.frame.draw(node, quad),
            items: self.items.update(self.head, counting_more(self.items[self.head], 1)),
            ..self
        }
    }

    /// What follows after the next item. An item without a node ends the batch. A node whose image
    /// is not there yet is passed over, as is one of which clipping leaves nothing; but the latter
    /// may have begun a batch.
    pub open spec fn step(
        self,
        index: int,
        node: Option<ExtractedUiNode>,
        gpu_images: Set<ImageId>,
        quad: Quad,
    ) -> PhaseProgress {
        match node {
            None => PhaseProgress { image: ImageId::spec_invalid(), ..self },
            Some(node) => {
                if self.waits(node, gpu_images) {
                    self
                } else if quad.culled {
                    self.make_room(index, node)
                } else {
                    self.make_room(index, node).draw(node, quad)
                }
            },
        }
    }
}

/// What is grouped: the lists of the cameras, the nodes, the images that can be shown, and how each
/// item of each list is drawn.
pub struct Scene {
    pub phases: Seq<ViewPhase>,
    pub nodes: Map<Entity, ExtractedUiNode>,
    pub gpu_images: Set<ImageId>,
    pub quads: Seq<Vec<Quad>>,
}

impl Scene {
    /// How far the grouping has come after `n` items of the list of a camera.
    pub open spec fn phase_progress(self, frame: Progress, phase: int, n: nat) -> PhaseProgress
        decreases n,
    {
        if n == 0 {
            PhaseProgress {
                frame,
                items: self.phases[phase].items@,
                head: 0,
                image: ImageId::spec_invalid(),
            }
        } else {
            let index = n - 1;
            self.phase_progress(frame, phase, index as nat).step(
                index,
                lookup(self.nodes, self.phases[phase].items@[index].entity),
                self.gpu_images,
                self.quads[phase]@[index],
            )
        }
    }

    /// How far the grouping has come after the list of a camera.
    pub open spec fn after_phase(self, frame: Progress, phase: int) -> PhaseProgress {
        self.phase_progress(frame, phase, self.phases[phase].items@.len())
    }

    /// How far the grouping has come after the lists of `n` cameras, when it began with bind groups
    /// for the images of `bound`.
    pub open spec fn progress(self, bound: Set<ImageId>, n: nat) -> Progress
        decreases n,
    {
        if n == 0 {
            Progress {
                batches: Seq::empty(),
                vertices: Seq::empty(),
                bound,
                created: Seq::empty(),
                drawn: Seq::empty(),
            }
        } else {
            self.after_phase(self.progress(bound, (n - 1) as nat), n - 1).frame
        }
    }

    /// How far the grouping has come at its end.
    pub open spec fn result(self, bound: Set<ImageId>) -> Progress {
        self.progress(bound, self.phases.len())
    }

    /// The list of a camera after the grouping.
    pub open spec fn result_items(self, bound: Set<ImageId>, phase: int) -> Seq<TransparentUi> {
        self.after_phase(self.progress(bound, phase as nat), phase).items
    }

    /// How many of the first `n` items of a list are drawn as part of the batch that began with
    /// item `i`.
    pub open spec fn drawn_with(self, frame: Progress, phase: int, i: int, n: nat) -> nat
        decreases n,
    {
        if n == 0 {
            0
        } else {
            let before = self.phase_progress(frame, phase, (n - 1) as nat);
            let after = self.phase_progress(frame, phase, n);
            let count = self.drawn_with(frame, phase, i, (n - 1) as nat);
            if after.frame.drawn.len() > before.frame.drawn.len() && after.head == i {
                count + 1
            } else {
                count
            }
        }
    }

    /// Whether the numbers of vertices and of items drawn together can be counted after `n` items
    /// of a list.
    pub open spec fn list_fits(self, frame: Progress, phase: int, n: nat) -> bool {
        let items = self.phases[phase].items@;
        &&& 6 * self.phase_progress(frame, phase, n).frame.drawn.len() <= u32::MAX
        &&& forall|i: int|
            0 <= i < items.len() ==> (#[trigger] items[i]).batch_range.end + self.drawn_with(
                frame,
                phase,
                i,
                n,
            ) <= u32::MAX
    }

    /// How many items of a list are drawn as part of the batch that began with item `i`.
    pub open spec fn drawn_together(self, bound: Set<ImageId>, phase: int, i: int) -> nat {
        self.drawn_with(
            self.progress(bound, phase as nat),
            phase,
            i,
            self.phases[phase].items@.len(),
        )
    }

    /// Whether the numbers of vertices and of items drawn together can be counted.
    pub open spec fn fits(self, bound: Set<ImageId>) -> bool {
        &&& 6 * self.result(bound).drawn.len() <= u32::MAX
        &&& forall|phase: int, i: int|
            0 <= phase < self.phases.len() && 0 <= i < self.phases[phase].items@.len() ==> (
            #[trigger] self.phases[phase].items@[i]).batch_range.end + self.drawn_together(
                bound,
                phase,
                i,
            ) <= u32::MAX
    }

    /// Whether each item of each list is told how to draw it.
    pub open spec fn is_complete(self) -> bool {
        &&& self.quads.len() == self.phases.len()
        &&& forall|phase: int|
            0 <= phase < self.phases.len() ==> (#[trigger] self.quads[phase])@.len()
                == self.phases[phase].items@.len()
    }
}

/// Six vertices come of every node that is drawn.
pub proof fn lemma_vertices_of_drawn(scene: Scene, frame: Progress, phase: int, n: nat)
    requires
        frame.vertices.len() == 6 * frame.drawn.len(),
    ensures
        ({
            let reached = scene.phase_progress(frame, phase, n).frame;
            &&& reached.vertices.len() == 6 * reached.drawn.len()
            &&& frame.drawn.len() <= reached.drawn.len() <= frame.drawn.len() + n
        }),
    decreases n,
{
    if n > 0 {
        lemma_vertices_of_drawn(scene, frame, phase, (n - 1) as nat);
    }
}

/// The list keeps its length, and every item its entity.
pub proof fn lemma_items_kept(scene: Scene, frame: Progress, phase: int, n: nat)
    requires
        n <= scene.phases[phase].items@.len(),
    ensures
        ({
            let items = scene.phase_progress(frame, phase, n).items;
            let head = scene.phase_progress(frame, phase, n).head;
            &&& head == 0 || 0 < head < n
            &&& items.len() == scene.phases[phase].items@.len()
            &&& forall|i: int|
                0 <= i < items.len() ==> (#[trigger] items[i]).entity
                    == scene.phases[phase].items@[i].entity
        }),
    decreases n,
{
    if n > 0 {
        lemma_items_kept(scene, frame, phase, (n - 1) as nat);
    }
}

/// Drawing more nodes does not undo the drawing of nodes.
pub proof fn lemma_drawn_grows(scene: Scene, frame: Progress, phase: int, m: nat, n: nat)
    requires
        m <= n,
    ensures
        scene.phase_progress(frame, phase, m).frame.drawn.len() <= scene.phase_progress(
            frame,
            phase,
            n,
        ).frame.drawn.len(),
    decreases n,
{
    if m < n {
        lemma_drawn_grows(scene, frame, phase, m, (n - 1) as nat);
    }
}

/// More items are not drawn with fewer.
pub proof fn lemma_drawn_with_grows(
    scene: Scene,
    frame: Progress,
    phase: int,
    i: int,
    m: nat,
    n: nat,
)
    requires
        m <= n,
    ensures
        scene.drawn_with(frame, phase, i, m) <= scene.drawn_with(frame, phase, i, n),
    decreases n,
{
    if m < n {
        lemma_drawn_with_grows(scene, frame, phase, i, m, (n - 1) as nat);
    }
}

/// What can be counted of more items can be counted of fewer.
pub proof fn lemma_list_fits_before(scene: Scene, frame: Progress, phase: int, m: nat, n: nat)
    requires
        m <= n,
        scene.list_fits(frame, phase, n),
    ensures
        scene.list_fits(frame, phase, m),
{
    let items = scene.phases[phase].items@;
    lemma_drawn_grows(scene, frame, phase, m, n);
    assert forall|i: int| 0 <= i < items.len() implies (#[trigger] items[i]).batch_range.end
        + scene.drawn_with(frame, phase, i, m) <= u32::MAX by {
        lemma_drawn_with_grows(scene, frame, phase, i, m, n);
    }
}

/// Every item counts what is drawn with it, as long as that can be counted, and does not change
/// otherwise.
pub proof fn lemma_items_count(scene: Scene, frame: Progress, phase: int, n: nat)
    requires
        n <= scene.phases[phase].items@.len(),
        scene.list_fits(frame, phase, n),
    ensures
        ({
            let items = scene.phase_progress(frame, phase, n).items;
            let before = scene.phases[phase].items@;
            &&& items.len() == before.len()
            &&& forall|i: int|
                0 <= i < items.len() ==> #[trigger] items[i] == counting_more(
                    before[i],
                    scene.drawn_with(frame, phase, i, n),
                )
        }),
    decreases n,
{
    let before = scene.phases[phase].items@;
    let items = scene.phase_progress(frame, phase, n).items;
    if n > 0 {
        let index = (n - 1) as nat;
        let earlier = scene.phase_progress(frame, phase, index);
        lemma_list_fits_before(scene, frame, phase, index, n);
        lemma_items_count(scene, frame, phase, index);
        lemma_items_kept(scene, frame, phase, index);
        lemma_drawn_grows(scene, frame, phase, index, n);
        assert forall|i: int| 0 <= i < items.len() implies #[trigger] items[i] == counting_more(
            before[i],
            scene.drawn_with(frame, phase, i, n),
        ) by {
            assert(earlier.items[i] == counting_more(
                before[i],
                scene.drawn_with(frame, phase, i, index),
            ));
            assert(before[i].batch_range.end + scene.drawn_with(frame, phase, i, n) <= u32::MAX);
        }
    }
}

/// Whether the state of the grouping is held by these values.
spec fn holds(
    frame: Progress,
    batches: Seq<(Entity, UiBatch)>,
    vertices: Seq<UiVertex>,
    bound: Set<ImageId>,
    created: Seq<ImageId>,
) -> bool {
    &&& frame.batches == batches
    &&& frame.vertices == vertices
    &&& frame.bound == bound
    &&& frame.created == created
}

/// Gives an image a bind group, unless it has one.
fn bind(image: ImageId, bound: &mut ImageSet, created: &mut Vec<ImageId>)
    ensures
        final(bound)@ == old(bound)@.insert(image),
        final(created)@ == if old(bound)@.contains(image) {
            old(created)@
        } else {
            old(created)@.push(image)
        },
{
    if bound.insert(image) {
        created.push(image);
    }
}

/// Groups the list of a camera.
#[verifier::rlimit(40)]
fn prepare_phase(
    phase: &mut ViewPhase,
    quads: &Vec<Quad>,
    nodes: &ExtractedUiNodes,
    gpu_images: &ImageSet,
    batches: &mut Vec<(Entity, UiBatch)>,
    vertices: &mut Vec<UiVertex>,
    bound: &mut ImageSet,
    created: &mut Vec<ImageId>,
    Ghost(scene): Ghost<Scene>,
    Ghost(frame): Ghost<Progress>,
    Ghost(number): Ghost<int>,
)
    requires
        0 <= number < scene.phases.len(),
        scene.phases[number] == *old(phase),
        scene.quads[number] == *quads,
        scene.nodes == nodes@,
        scene.gpu_images == gpu_images@,
        quads@.len() == old(phase).items@.len(),
        holds(frame, old(batches)@, old(vertices)@, old(bound)@, old(created)@),
        frame.vertices.len() == 6 * frame.drawn.len(),
        scene.list_fits(frame, number, old(phase).items@.len()),
    ensures
        final(phase).camera == old(phase).camera,
        final(phase).hdr == old(phase).hdr,
        final(phase).items@ == scene.after_phase(frame, number).items,
        holds(
            scene.after_phase(frame, number).frame,
            final(batches)@,
            final(vertices)@,
            final(bound)@,
            final(created)@,
        ),
{
    let mut head: usize = 0;
    let mut image = ImageId::invalid();
    let count: usize = phase.items.len();
    for i in 0..count
        invariant
            count == phase.items@.len(),
            count == scene.phases[number].items@.len(),
            count == quads@.len(),
            scene.quads[number] == *quads,
            scene.nodes == nodes@,
            scene.gpu_images == gpu_images@,
            frame.vertices.len() == 6 * frame.drawn.len(),
            phase.camera == old(phase).camera,
            phase.hdr == old(phase).hdr,
            scene.phases[number] == *old(phase),
            scene.list_fits(frame, number, count as nat),
            ({
                let reached = scene.phase_progress(frame, number, i as nat);
                &&& holds(reached.frame, batches@, vertices@, bound@, created@)
                &&& reached.items == phase.items@
                &&& reached.head == head
                &&& reached.image == image
                &&& head < count || i == 0
            }),
    {
        let ghost before = scene.phase_progress(frame, number, i as nat);
        let ghost after = scene.phase_progress(frame, number, (i + 1) as nat);
        proof {
            lemma_vertices_of_drawn(scene, frame, number, i as nat);
            lemma_items_kept(scene, frame, number, i as nat);
            lemma_list_fits_before(scene, frame, number, (i + 1) as nat, count as nat);
            lemma_list_fits_before(scene, frame, number, i as nat, (i + 1) as nat);
            lemma_items_count(scene, frame, number, i as nat);
            lemma_items_count(scene, frame, number, (i + 1) as nat);
        }
        let entity = phase.items[i].entity;
        match nodes.get(entity) {
            None => {
                image = ImageId::invalid();
            },
            Some(node) => {
                let none = ImageId::none();
                let needs_batch = image == ImageId::invalid() || batches.len() == 0 || (image
                    != none && node.image != none && image != node.image)
                    || batches[batches.len() - 1].1.camera != node.camera_entity;
                let gives_image = !needs_batch && image == none && node.image != none;
                if !(needs_batch || gives_image) || gpu_images.contains(node.image) {
                    if needs_batch {
                        head = i;
                        image = node.image;
                        let at: u32 = vertices.len() as u32;
                        batches.push(
                            (
                                entity,
                                UiBatch {
                                    range: Range { start: at, end: at },
                                    image,
                                    camera: node.camera_entity,
                                },
                            ),
                        );
                        bind(image, bound, created);
                    } else if gives_image {
                        image = node.image;
                        let last: usize = batches.len() - 1;
                        batches[last].1.image = image;
                        bind(image, bound, created);
                    }
                    let quad = &quads[i];
                    if !quad.culled {
                        push_quad(vertices, &node, quad);
                        let last: usize = batches.len() - 1;
                        batches[last].1.range.end = vertices.len() as u32;
                        phase.items[head].batch_range.end = phase.items[head].batch_range.end + 1;
                    }
                }
            },
        }
        assert(after.items =~= phase.items@);
        assert(after.frame.batches =~= batches@);
    }
}

/// Drawing more lists does not undo the drawing of nodes.
pub proof fn lemma_progress_grows(scene: Scene, bound: Set<ImageId>, m: nat, n: nat)
    requires
        m <= n,
    ensures
        scene.progress(bound, n).vertices.len() == 6 * scene.progress(bound, n).drawn.len(),
        scene.progress(bound, m).drawn.len() <= scene.progress(bound, n).drawn.len(),
    decreases n,
{
    if n > 0 {
        let earlier = (n - 1) as nat;
        lemma_progress_grows(
            scene,
            bound,
            if m < n {
                m
            } else {
                earlier
            },
            earlier,
        );
        lemma_vertices_of_drawn(
            scene,
            scene.progress(bound, earlier),
            earlier as int,
            scene.phases[earlier as int].items@.len(),
        );
    }
}

/// What can be counted of all lists can be counted of each.
pub proof fn lemma_list_fits(scene: Scene, bound: Set<ImageId>, phase: int)
    requires
        0 <= phase < scene.phases.len(),
        scene.fits(bound),
    ensures
        ({
            let frame = scene.progress(bound, phase as nat);
            &&& frame.vertices.len() == 6 * frame.drawn.len()
            &&& scene.list_fits(frame, phase, scene.phases[phase].items@.len())
        }),
{
    lemma_progress_grows(scene, bound, phase as nat, phase as nat);
    lemma_progress_grows(scene, bound, (phase + 1) as nat, scene.phases.len());
    let items = scene.phases[phase].items@;
    assert forall|i: int| 0 <= i < items.len() implies (#[trigger] items[i]).batch_range.end
        + scene.drawn_with(scene.progress(bound, phase as nat), phase, i, items.len())
        <= u32::MAX by {
        assert(items[i].batch_range.end + scene.drawn_together(bound, phase, i) <= u32::MAX);
    }
}

/// Groups all that is to be drawn into batches, and makes its vertices.
///
/// First the bind groups of images that have changed are dropped. Without a binding of the view
/// that is all. `quads` says of each item of each list how its node is drawn, and `gpu_images`
/// which images can be shown. In the end there are no extracted nodes, whatever has been drawn.
#[verifier::rlimit(40)]
pub fn prepare_uinodes(
    ui_meta: &mut UiMeta,
    extracted_uinodes: &mut ExtractedUiNodes,
    view_binding: bool,
    image_bind_groups: &mut UiImageBindGroups,
    gpu_images: &ImageSet,
    phases: &mut Vec<ViewPhase>,
    quads: &Vec<Vec<Quad>>,
    events: &Vec<ImageEvent>,
    previous_len: &mut usize,
) -> (r: Option<Prepared>)
    requires
        view_binding ==> {
            let scene = Scene {
                phases: old(phases)@,
                nodes: old(extracted_uinodes)@,
                gpu_images: gpu_images@,
                quads: quads@,
            };
            let bound = after_events(old(image_bind_groups).values@, events@);
            scene.is_complete() && scene.fits(bound)
        },
    ensures
        final(extracted_uinodes)@ == Map::<Entity, ExtractedUiNode>::empty(),
        r is Some <==> view_binding,
        r is None ==> {
            &&& *final(ui_meta) == *old(ui_meta)
            &&& final(phases)@ == old(phases)@
            &&& *final(previous_len) == *old(previous_len)
            &&& final(image_bind_groups).values@ == after_events(
                old(image_bind_groups).values@,
                events@,
            )
        },
        r matches Some(prepared) ==> {
            let scene = Scene {
                phases: old(phases)@,
                nodes: old(extracted_uinodes)@,
                gpu_images: gpu_images@,
                quads: quads@,
            };
            let bound = after_events(old(image_bind_groups).values@, events@);
            let result = scene.result(bound);
            &&& prepared.batches@ == result.batches
            &&& prepared.created@ == result.created
            &&& final(ui_meta).vertices@ == result.vertices
            &&& final(ui_meta).view_bind_group
            &&& final(image_bind_groups).values@ == result.bound
            &&& *final(previous_len) == result.batches.len()
            &&& final(phases)@.len() == old(phases)@.len()
            &&& forall|p: int|
                0 <= p < old(phases)@.len() ==> {
                    &&& (#[trigger] final(phases)@[p]).camera == old(phases)@[p].camera
                    &&& final(phases)@[p].hdr == old(phases)@[p].hdr
                    &&& final(phases)@[p].items@ == scene.result_items(bound, p)
                }
        },
{
    image_bind_groups.drop_outdated(events);
    let ghost bound = image_bind_groups.values@;
    let ghost scene = Scene {
        phases: phases@,
        nodes: extracted_uinodes@,
        gpu_images: gpu_images@,
        quads: quads@,
    };
    let mut r: Option<Prepared> = None;
    if view_binding {
        let mut batches: Vec<(Entity, UiBatch)> = Vec::with_capacity(*previous_len);
        let mut created: Vec<ImageId> = Vec::new();
        ui_meta.vertices.clear();
        ui_meta.view_bind_group = true;
        let count: usize = phases.len();
        for p in 0..count
            invariant
                count == phases@.len(),
                count == scene.phases.len(),
                scene.is_complete(),
                scene.fits(bound),
                scene.nodes == extracted_uinodes@,
                scene.gpu_images == gpu_images@,
                scene.quads == quads@,
                ui_meta.view_bind_group,
                holds(
                    scene.progress(bound, p as nat),
                    batches@,
                    ui_meta.vertices@,
                    image_bind_groups.values@,
                    created@,
                ),
                forall|q: int|
                    0 <= q < p ==> {
                        &&& (#[trigger] phases@[q]).camera == scene.phases[q].camera
                        &&& phases@[q].hdr == scene.phases[q].hdr
                        &&& phases@[q].items@ == scene.result_items(bound, q)
                    },
                forall|q: int| p <= q < count ==> #[trigger] phases@[q] == scene.phases[q],
        {
            proof {
                lemma_list_fits(scene, bound, p as int);
                assert(scene.quads[p as int]@.len() == scene.phases[p as int].items@.len());
                assert(scene.phases[p as int] == phases@[p as int]);
            }
            prepare_phase(
                &mut phases[p],
                &quads[p],
                extracted_uinodes,
                gpu_images,
                &mut batches,
                &mut ui_meta.vertices,
                &mut image_bind_groups.values,
                &mut created,
                Ghost(scene),
                Ghost(scene.progress(bound, p as nat)),
                Ghost(p as int),
            );
        }
        *previous_len = batches.len();
        r = Some(Prepared { batches, created });
    }
    extracted_uinodes.clear();
    r
}

} // verus!
