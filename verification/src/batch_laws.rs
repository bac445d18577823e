//! What holds of the batches, whatever is drawn.
use crate::batch::{
    after_events, lemma_drawn_grows, lemma_items_count, lemma_items_kept, lemma_list_fits,
    lemma_list_fits_before, lemma_progress_grows, lemma_vertices_of_drawn, ImageEvent,
    PhaseProgress, Progress, Scene, UiBatch,
};
use crate::entity::Entity;
use crate::image::ImageId;
use crate::nodes::{lookup, ExtractedUiNode};
use crate::phase::{TransparentUi, ViewPhase};
use crate::quad::{
    are_triangles, corner_vertex, is_plain, law_vertices_are_triangles, quad_vertices, Quad,
    QUAD_INDICES,
};
use crate::queue::{grown, queued};
use vstd::prelude::*;

verus! {

/// Whether the vertices are those of the drawn nodes, one node after the other.
pub open spec fn shows_drawn(frame: Progress) -> bool {
    &&& frame.vertices.len() == 6 * frame.drawn.len()
    &&& forall|j: int, k: int|
        #![trigger frame.drawn[j], QUAD_INDICES@[k]]
        0 <= j < frame.drawn.len() && 0 <= k < 6 ==> frame.vertices[6 * j + k] == corner_vertex(
            frame.drawn[j].0,
            frame.drawn[j].1,
            QUAD_INDICES@[k] as int,
        )
}

/// Whether the batches part the vertices among them, without a gap, and split no node.
pub open spec fn tiles(frame: Progress) -> bool {
    &&& frame.batches.len() == 0 ==> frame.vertices.len() == 0
    &&& frame.batches.len() > 0 ==> {
        &&& frame.batches[0].1.range.start == 0
        &&& frame.batches.last().1.range.end == frame.vertices.len()
    }
    &&& forall|b: int|
        0 <= b < frame.batches.len() ==> {
            let range = (#[trigger] frame.batches[b]).1.range;
            &&& range.start <= range.end <= frame.vertices.len()
            &&& range.start % 6 == 0
            &&& range.end % 6 == 0
        }
    &&& forall|a: int, b: int|
        #![trigger frame.batches[a], frame.batches[b]]
        0 <= a && a + 1 == b < frame.batches.len() ==> frame.batches[b].1.range.start
            == frame.batches[a].1.range.end
}

/// Whether the nodes of each batch are drawn to its camera, and show its image or none.
pub open spec fn is_uniform(frame: Progress) -> bool {
    forall|b: int, j: int|
        #![trigger frame.batches[b], frame.drawn[j]]
        0 <= b < frame.batches.len() && 0 <= j < frame.drawn.len()
            && frame.batches[b].1.range.start <= 6 * j < frame.batches[b].1.range.end ==> {
            &&& frame.drawn[j].0.camera_entity == frame.batches[b].1.camera
            &&& frame.drawn[j].0.image == ImageId::spec_none() || frame.drawn[j].0.image
                == frame.batches[b].1.image
        }
}

/// Whether each batch has a bind group, of an image that can be shown.
pub open spec fn is_bound(frame: Progress, gpu_images: Set<ImageId>) -> bool {
    forall|b: int|
        0 <= b < frame.batches.len() ==> {
            &&& frame.bound.contains((#[trigger] frame.batches[b]).1.image)
            &&& gpu_images.contains(frame.batches[b].1.image)
        }
}

/// Whether bind groups were created once, and for images without one.
pub open spec fn creates_missing(frame: Progress, bound: Set<ImageId>) -> bool {
    &&& frame.created.no_duplicates()
    &&& forall|image: ImageId|
        #[trigger] frame.bound.contains(image) <==> bound.contains(image)
            || frame.created.contains(image)
    &&& forall|image: ImageId|
        bound.contains(image) ==> !(#[trigger] frame.created.contains(image))
}

/// Whether bind groups were created only for images that can be shown.
pub open spec fn creates_loaded(frame: Progress, gpu_images: Set<ImageId>) -> bool {
    forall|k: int| 0 <= k < frame.created.len() ==> gpu_images.contains(#[trigger] frame.created[k])
}

/// All of the above, as long as the vertices can be counted.
spec fn is_sound(frame: Progress, gpu_images: Set<ImageId>, bound: Set<ImageId>) -> bool {
    &&& shows_drawn(frame)
    &&& tiles(frame)
    &&& is_uniform(frame)
    &&& is_bound(frame, gpu_images)
    &&& creates_missing(frame, bound)
    &&& creates_loaded(frame, gpu_images)
}

/// Whether the last batch has the image that it is taken to have.
spec fn knows_image(progress: PhaseProgress, gpu_images: Set<ImageId>) -> bool {
    progress.image != ImageId::spec_invalid() ==> {
        &&& progress.frame.batches.len() > 0
        &&& progress.frame.current().image == progress.image
        &&& gpu_images.contains(progress.image)
    }
}

/// Giving an image a bind group changes nothing but the bind groups.
proof fn lemma_bind(frame: Progress, bound: Set<ImageId>, image: ImageId)
    requires
        creates_missing(frame, bound),
    ensures
        creates_missing(frame.bind(image), bound),
        frame.bind(image).bound.contains(image),
{
    let next = frame.bind(image);
    if !frame.bound.contains(image) {
        assert(next.created == frame.created.push(image));
        assert forall|other: ImageId|
            next.created.contains(other) <==> frame.created.contains(other) || other == image by {
            if frame.created.contains(other) {
                let k = choose|k: int| 0 <= k < frame.created.len() && frame.created[k] == other;
                assert(next.created[k] == other);
            }
            if other == image {
                assert(next.created[frame.created.len() as int] == other);
            }
        }
        assert(next.created.no_duplicates()) by {
            assert(!frame.created.contains(image));
            assert forall|a: int, b: int|
                0 <= a < b < next.created.len() implies next.created[a] != next.created[b] by {
                assert(frame.created[a] == next.created[a]);
                if b < frame.created.len() {
                    assert(frame.created[b] == next.created[b]);
                } else {
                    assert(frame.created.contains(next.created[a]));
                }
            }
        }
    }
}

/// Beginning a batch keeps what holds.
proof fn lemma_open(
    frame: Progress,
    gpu_images: Set<ImageId>,
    bound: Set<ImageId>,
    entity: Entity,
    node: ExtractedUiNode,
)
    requires
        is_sound(frame, gpu_images, bound),
        frame.vertices.len() <= u32::MAX,
        gpu_images.contains(node.image),
    ensures
        is_sound(frame.open(entity, node).bind(node.image), gpu_images, bound),
{
    let opened = frame.open(entity, node);
    let next = opened.bind(node.image);
    lemma_bind(opened, bound, node.image);
    let last = frame.batches.len() as int;
    assert forall|b: int| 0 <= b < last implies #[trigger] next.batches[b] == frame.batches[b] by {
    }
    assert(next.batches[last].1.range.start == frame.vertices.len());
    assert(tiles(next));
    assert(is_uniform(next));
    assert(is_bound(next, gpu_images));
}

/// Giving a batch its first image keeps what holds.
proof fn lemma_give_image(
    frame: Progress,
    gpu_images: Set<ImageId>,
    bound: Set<ImageId>,
    image: ImageId,
)
    requires
        is_sound(frame, gpu_images, bound),
        frame.batches.len() > 0,
        frame.current().image == ImageId::spec_none(),
        gpu_images.contains(image),
    ensures
        is_sound(
            frame.replace_current(UiBatch { image, ..frame.current() }).bind(image),
            gpu_images,
            bound,
        ),
{
    let replaced = frame.replace_current(UiBatch { image, ..frame.current() });
    let next = replaced.bind(image);
    lemma_bind(replaced, bound, image);
    let last = frame.batches.len() - 1;
    assert forall|b: int| 0 <= b < last implies #[trigger] next.batches[b] == frame.batches[b] by {
    }
    assert(next.batches[last].1.range == frame.batches[last].1.range);
    assert(next.batches[last].1.camera == frame.batches[last].1.camera);
    assert(tiles(next));
    assert(is_uniform(next));
    assert(is_bound(next, gpu_images));
}

/// Drawing a node that fits the last batch keeps what holds.
proof fn lemma_draw(
    frame: Progress,
    gpu_images: Set<ImageId>,
    bound: Set<ImageId>,
    node: ExtractedUiNode,
    quad: Quad,
)
    requires
        is_sound(frame, gpu_images, bound),
        frame.batches.len() > 0,
        6 * (frame.drawn.len() + 1) <= u32::MAX,
        frame.current().camera == node.camera_entity,
        node.image == ImageId::spec_none() || node.image == frame.current().image,
    ensures
        is_sound(frame.draw(node, quad), gpu_images, bound),
{
    let next = frame.draw(node, quad);
    let last = frame.batches.len() - 1;
    let n = frame.drawn.len() as int;
    assert(next.vertices.len() == 6 * (n + 1));
    assert forall|j: int, k: int|
        #![trigger next.drawn[j], QUAD_INDICES@[k]]
        0 <= j < next.drawn.len() && 0 <= k < 6 implies next.vertices[6 * j + k] == corner_vertex(
        next.drawn[j].0,
        next.drawn[j].1,
        QUAD_INDICES@[k] as int,
    ) by {
        if j < n {
            assert(next.drawn[j] == frame.drawn[j]);
            assert(next.vertices[6 * j + k] == frame.vertices[6 * j + k]);
        } else {
            assert(next.vertices[6 * j + k] == quad_vertices(node, quad)[k]);
        }
    }
    assert forall|b: int| 0 <= b < last implies #[trigger] next.batches[b] == frame.batches[b] by {
    }
    assert(next.batches[last].1.range.start == frame.batches[last].1.range.start);
    assert(next.batches[last].1.range.end == next.vertices.len());
    assert(tiles(next));
    assert forall|b: int, j: int|
        #![trigger next.batches[b], next.drawn[j]]
        0 <= b < next.batches.len() && 0 <= j < next.drawn.len()
            && next.batches[b].1.range.start <= 6 * j < next.batches[b].1.range.end implies {
        &&& next.drawn[j].0.camera_entity == next.batches[b].1.camera
        &&& next.drawn[j].0.image == ImageId::spec_none() || next.drawn[j].0.image
            == next.batches[b].1.image
    } by {
        if j < n {
            assert(next.drawn[j] == frame.drawn[j]);
            if b == last {
                assert(6 * j < frame.batches[last].1.range.end);
            }
            assert(frame.batches[b].1.camera == next.batches[b].1.camera);
        } else {
            assert(b == last);
        }
    }
    assert(is_bound(next, gpu_images));
}

/// An item more keeps what holds.
proof fn lemma_step(
    progress: PhaseProgress,
    gpu_images: Set<ImageId>,
    bound: Set<ImageId>,
    index: int,
    node: Option<ExtractedUiNode>,
    quad: Quad,
)
    requires
        is_sound(progress.frame, gpu_images, bound),
        knows_image(progress, gpu_images),
        6 * progress.step(index, node, gpu_images, quad).frame.drawn.len() <= u32::MAX,
    ensures
        is_sound(progress.step(index, node, gpu_images, quad).frame, gpu_images, bound),
        knows_image(progress.step(index, node, gpu_images, quad), gpu_images),
{
    if let Some(node) = node {
        if !progress.waits(node, gpu_images) {
            let frame = progress.frame;
            let roomy = progress.make_room(index, node);
            if progress.needs_batch(node) {
                lemma_open(frame, gpu_images, bound, progress.items[index].entity, node);
            } else if progress.gives_image(node) {
                lemma_give_image(frame, gpu_images, bound, node.image);
            }
            assert(roomy.frame.current().camera == node.camera_entity);
            if !quad.culled {
                lemma_draw(roomy.frame, gpu_images, bound, node, quad);
            }
        }
    }
}

/// A list more keeps what holds.
proof fn lemma_phase(scene: Scene, frame: Progress, bound: Set<ImageId>, phase: int, n: nat)
    requires
        is_sound(frame, scene.gpu_images, bound),
        6 * scene.phase_progress(frame, phase, n).frame.drawn.len() <= u32::MAX,
    ensures
        is_sound(scene.phase_progress(frame, phase, n).frame, scene.gpu_images, bound),
        knows_image(scene.phase_progress(frame, phase, n), scene.gpu_images),
    decreases n,
{
    if n > 0 {
        let index = n - 1;
        lemma_phase(scene, frame, bound, phase, index as nat);
        lemma_step(
            scene.phase_progress(frame, phase, index as nat),
            scene.gpu_images,
            bound,
            index,
            lookup(scene.nodes, scene.phases[phase].items@[index].entity),
            scene.quads[phase]@[index],
        );
    }
}

/// All holds after any number of lists.
proof fn lemma_progress(scene: Scene, bound: Set<ImageId>, n: nat)
    requires
        6 * scene.progress(bound, n).drawn.len() <= u32::MAX,
    ensures
        is_sound(scene.progress(bound, n), scene.gpu_images, bound),
    decreases n,
{
    if n > 0 {
        let earlier = (n - 1) as nat;
        lemma_progress_grows(scene, bound, earlier, n);
        lemma_progress(scene, bound, earlier);
        lemma_phase(
            scene,
            scene.progress(bound, earlier),
            bound,
            earlier as int,
            scene.phases[earlier as int].items@.len(),
        );
    }
}

/// The vertices are those of the nodes that were drawn, six for each, in the order of drawing.
pub proof fn law_vertices_show_the_drawn_nodes(scene: Scene, bound: Set<ImageId>)
    requires
        scene.fits(bound),
    ensures
        shows_drawn(scene.result(bound)),
{
    lemma_progress(scene, bound, scene.phases.len());
}

/// Every vertex is in exactly one batch: the first batch begins at the first vertex, each further
/// one where the one before it ends, and the last ends at the last vertex. No node is split.
pub proof fn law_batches_tile_the_vertices(scene: Scene, bound: Set<ImageId>)
    requires
        scene.fits(bound),
    ensures
        tiles(scene.result(bound)),
{
    lemma_progress(scene, bound, scene.phases.len());
}

/// All nodes of a batch are drawn to its camera, and those that show an image show the one of the
/// batch.
pub proof fn law_batches_are_uniform(scene: Scene, bound: Set<ImageId>)
    requires
        scene.fits(bound),
    ensures
        is_uniform(scene.result(bound)),
{
    lemma_progress(scene, bound, scene.phases.len());
}

/// The image of every batch can be shown and has a bind group.
pub proof fn law_batches_are_bound(scene: Scene, bound: Set<ImageId>)
    requires
        scene.fits(bound),
    ensures
        is_bound(scene.result(bound), scene.gpu_images),
{
    lemma_progress(scene, bound, scene.phases.len());
}

/// A bind group is created at most once for an image, and only where there is none; none is lost.
pub proof fn law_bind_groups_are_created_once(scene: Scene, bound: Set<ImageId>)
    requires
        scene.fits(bound),
    ensures
        creates_missing(scene.result(bound), bound),
{
    lemma_progress(scene, bound, scene.phases.len());
}

/// A bind group is created only for an image that can be shown.
pub proof fn law_bind_groups_are_of_loaded_images(scene: Scene, bound: Set<ImageId>)
    requires
        scene.fits(bound),
    ensures
        creates_loaded(scene.result(bound), scene.gpu_images),
{
    lemma_progress(scene, bound, scene.phases.len());
}

/// A node that is on the list, whose image can be shown and of which clipping leaves something, is
/// drawn, after those that come before it on the list.
pub proof fn law_ready_node_is_drawn(
    scene: Scene,
    bound: Set<ImageId>,
    phase: int,
    index: int,
    node: ExtractedUiNode,
)
    requires
        0 <= phase < scene.phases.len(),
        0 <= index < scene.phases[phase].items@.len(),
        lookup(scene.nodes, scene.phases[phase].items@[index].entity) == Some(node),
        scene.gpu_images.contains(node.image),
        !scene.quads[phase]@[index].culled,
    ensures
        scene.phase_progress(
            scene.progress(bound, phase as nat),
            phase,
            (index + 1) as nat,
        ).frame.drawn == scene.phase_progress(
            scene.progress(bound, phase as nat),
            phase,
            index as nat,
        ).frame.drawn.push((node, scene.quads[phase]@[index])),
{
}

/// Nothing is drawn for an item without a node, for one of whose node clipping leaves nothing, or
/// for one whose node shows an image that is not there yet.
pub proof fn law_other_item_is_not_drawn(
    scene: Scene,
    bound: Set<ImageId>,
    phase: int,
    index: int,
)
    requires
        scene.fits(bound),
        0 <= phase < scene.phases.len(),
        0 <= index < scene.phases[phase].items@.len(),
        match lookup(scene.nodes, scene.phases[phase].items@[index].entity) {
            None => true,
            Some(node) => {
                ||| scene.quads[phase]@[index].culled
                ||| node.image != ImageId::spec_none() && !scene.gpu_images.contains(node.image)
            },
        },
    ensures
        scene.phase_progress(
            scene.progress(bound, phase as nat),
            phase,
            (index + 1) as nat,
        ).frame.drawn == scene.phase_progress(
            scene.progress(bound, phase as nat),
            phase,
            index as nat,
        ).frame.drawn,
{
    let frame = scene.progress(bound, phase as nat);
    lemma_progress_grows(scene, bound, phase as nat, scene.phases.len());
    lemma_progress_grows(scene, bound, (phase + 1) as nat, scene.phases.len());
    lemma_drawn_grows(
        scene,
        frame,
        phase,
        index as nat,
        scene.phases[phase].items@.len(),
    );
    lemma_progress(scene, bound, phase as nat);
    lemma_phase(scene, frame, bound, phase, index as nat);
}

/// What is drawn later comes behind what is drawn.
proof fn lemma_phase_keeps_drawn(scene: Scene, frame: Progress, phase: int, m: nat, n: nat)
    requires
        m <= n,
    ensures
        scene.phase_progress(frame, phase, m).frame.drawn.is_prefix_of(
            scene.phase_progress(frame, phase, n).frame.drawn,
        ),
    decreases n,
{
    if m < n {
        lemma_phase_keeps_drawn(scene, frame, phase, m, (n - 1) as nat);
    }
}

/// What is drawn later comes behind what is drawn.
proof fn lemma_progress_keeps_drawn(scene: Scene, bound: Set<ImageId>, m: nat, n: nat)
    requires
        m <= n,
    ensures
        scene.progress(bound, m).drawn.is_prefix_of(scene.progress(bound, n).drawn),
    decreases n,
{
    if m < n {
        let earlier = (n - 1) as nat;
        lemma_progress_keeps_drawn(scene, bound, m, earlier);
        lemma_phase_keeps_drawn(
            scene,
            scene.progress(bound, earlier),
            earlier as int,
            0,
            scene.phases[earlier as int].items@.len(),
        );
    }
}

/// A node that is on a list, whose image can be shown and of which clipping leaves something, is
/// among those that are drawn in the end.
pub proof fn law_ready_node_stays_drawn(
    scene: Scene,
    bound: Set<ImageId>,
    phase: int,
    index: int,
    node: ExtractedUiNode,
)
    requires
        0 <= phase < scene.phases.len(),
        0 <= index < scene.phases[phase].items@.len(),
        lookup(scene.nodes, scene.phases[phase].items@[index].entity) == Some(node),
        scene.gpu_images.contains(node.image),
        !scene.quads[phase]@[index].culled,
    ensures
        scene.result(bound).drawn.contains((node, scene.quads[phase]@[index])),
{
    let frame = scene.progress(bound, phase as nat);
    let before = scene.phase_progress(frame, phase, index as nat).frame.drawn;
    let after = scene.phase_progress(frame, phase, (index + 1) as nat).frame.drawn;
    law_ready_node_is_drawn(scene, bound, phase, index, node);
    lemma_phase_keeps_drawn(
        scene,
        frame,
        phase,
        (index + 1) as nat,
        scene.phases[phase].items@.len(),
    );
    lemma_progress_keeps_drawn(scene, bound, (phase + 1) as nat, scene.phases.len());
    let at = before.len() as int;
    assert(after[at] == (node, scene.quads[phase]@[index]));
    let done = scene.progress(bound, (phase + 1) as nat).drawn;
    assert(done[at] == after[at]);
    assert(scene.result(bound).drawn[at] == done[at]);
}

/// The nodes of the first `n` items of a list of which clipping leaves something, in order.
pub open spec fn seen_on_list(scene: Scene, phase: int, n: nat) -> Seq<(ExtractedUiNode, Quad)>
    decreases n,
{
    if n == 0 {
        Seq::empty()
    } else {
        let before = seen_on_list(scene, phase, (n - 1) as nat);
        let quad = scene.quads[phase]@[n - 1];
        match lookup(scene.nodes, scene.phases[phase].items@[n - 1].entity) {
            Some(node) if !quad.culled => before.push((node, quad)),
            _ => before,
        }
    }
}

/// The nodes of the first `n` lists of which clipping leaves something, in order.
pub open spec fn seen(scene: Scene, n: nat) -> Seq<(ExtractedUiNode, Quad)>
    decreases n,
{
    if n == 0 {
        Seq::empty()
    } else {
        seen(scene, (n - 1) as nat) + seen_on_list(
            scene,
            n - 1,
            scene.phases[n - 1].items@.len(),
        )
    }
}

/// All of a list is drawn when its images can be shown.
proof fn lemma_list_is_drawn(scene: Scene, frame: Progress, phase: int, n: nat)
    requires
        forall|entity: Entity| #[trigger]
            scene.nodes.contains_key(entity) ==> scene.gpu_images.contains(
                scene.nodes[entity].image,
            ),
    ensures
        scene.phase_progress(frame, phase, n).frame.drawn == frame.drawn + seen_on_list(
            scene,
            phase,
            n,
        ),
    decreases n,
{
    if n == 0 {
        assert(frame.drawn + Seq::<(ExtractedUiNode, Quad)>::empty() =~= frame.drawn);
    } else {
        lemma_list_is_drawn(scene, frame, phase, (n - 1) as nat);
        assert(scene.phase_progress(frame, phase, n).frame.drawn =~= frame.drawn + seen_on_list(
            scene,
            phase,
            n,
        ));
    }
}

/// Where all images can be shown, what is drawn is what is on the lists and not clipped away: each
/// item once, list by list, in the order of the list.
pub proof fn law_all_that_can_be_seen_is_drawn(scene: Scene, bound: Set<ImageId>, n: nat)
    requires
        n <= scene.phases.len(),
        forall|entity: Entity| #[trigger]
            scene.nodes.contains_key(entity) ==> scene.gpu_images.contains(
                scene.nodes[entity].image,
            ),
    ensures
        scene.progress(bound, n).drawn == seen(scene, n),
        n == scene.phases.len() ==> scene.result(bound).drawn == seen(scene, n),
    decreases n,
{
    if n > 0 {
        let earlier = (n - 1) as nat;
        law_all_that_can_be_seen_is_drawn(scene, bound, earlier);
        lemma_list_is_drawn(
            scene,
            scene.progress(bound, earlier),
            earlier as int,
            scene.phases[earlier as int].items@.len(),
        );
    }
}

/// How many nodes the items say are drawn, up to item `n`.
pub open spec fn counted(items: Seq<TransparentUi>, n: nat) -> int
    decreases n,
{
    if n == 0 {
        0
    } else {
        counted(items, (n - 1) as nat) + items[n - 1].batch_range.end - items[n
            - 1].batch_range.start
    }
}

/// Drawing one more node is counted once.
proof fn lemma_counted_update(items: Seq<TransparentUi>, at: int, item: TransparentUi, n: nat)
    requires
        0 <= at < items.len(),
        n <= items.len(),
        item.batch_range.start == items[at].batch_range.start,
        item.batch_range.end == items[at].batch_range.end + 1,
    ensures
        counted(items.update(at, item), n) == counted(items, n) + if at < n {
            1int
        } else {
            0
        },
    decreases n,
{
    if n > 0 {
        lemma_counted_update(items, at, item, (n - 1) as nat);
    }
}

/// All that is drawn is counted.
proof fn lemma_counted(scene: Scene, frame: Progress, phase: int, n: nat)
    requires
        n <= scene.phases[phase].items@.len(),
        scene.list_fits(frame, phase, n),
    ensures
        ({
            let before = scene.phases[phase].items@;
            let reached = scene.phase_progress(frame, phase, n);
            &&& counted(reached.items, before.len()) == counted(before, before.len())
                + reached.frame.drawn.len() - frame.drawn.len()
        }),
    decreases n,
{
    if n > 0 {
        let index = (n - 1) as nat;
        let earlier = scene.phase_progress(frame, phase, index);
        let reached = scene.phase_progress(frame, phase, n);
        lemma_list_fits_before(scene, frame, phase, index, n);
        lemma_counted(scene, frame, phase, index);
        lemma_items_kept(scene, frame, phase, index);
        lemma_items_count(scene, frame, phase, index);
        lemma_items_count(scene, frame, phase, n);
        lemma_drawn_grows(scene, frame, phase, index, n);
        if reached.frame.drawn.len() > earlier.frame.drawn.len() {
            let head = reached.head;
            assert(earlier.items[head].batch_range.end + 1 == reached.items[head].batch_range.end);
            lemma_counted_update(
                earlier.items,
                head,
                reached.items[head],
                scene.phases[phase].items@.len(),
            );
        }
    }
}

/// The items of a list count the nodes that are drawn from it, each once: an item counts those that
/// are drawn as part of the batch that began with it. Nothing else of an item changes.
pub proof fn law_items_count_the_drawn_nodes(scene: Scene, bound: Set<ImageId>, phase: int)
    requires
        scene.fits(bound),
        0 <= phase < scene.phases.len(),
    ensures
        ({
            let before = scene.phases[phase].items@;
            let after = scene.result_items(bound, phase);
            &&& after.len() == before.len()
            &&& counted(after, after.len()) - counted(before, before.len()) == scene.progress(
                bound,
                (phase + 1) as nat,
            ).drawn.len() - scene.progress(bound, phase as nat).drawn.len()
            &&& forall|i: int|
                #![trigger after[i]]
                0 <= i < before.len() ==> {
                    &&& (TransparentUi { batch_range: before[i].batch_range, ..after[i] })
                        == before[i]
                    &&& after[i].batch_range.start == before[i].batch_range.start
                    &&& after[i].batch_range.end == before[i].batch_range.end
                        + scene.drawn_together(bound, phase, i)
                }
        }),
{
    let count = scene.phases[phase].items@.len();
    let frame = scene.progress(bound, phase as nat);
    lemma_list_fits(scene, bound, phase);
    lemma_items_count(scene, frame, phase, count);
    lemma_counted(scene, frame, phase, count);
}

/// The items that batches began with, among the first `n` of a list, in order.
pub open spec fn heads(scene: Scene, frame: Progress, phase: int, n: nat) -> Seq<int>
    decreases n,
{
    if n == 0 {
        Seq::empty()
    } else {
        let before = heads(scene, frame, phase, (n - 1) as nat);
        if scene.phase_progress(frame, phase, n).frame.batches.len() > scene.phase_progress(
            frame,
            phase,
            (n - 1) as nat,
        ).frame.batches.len() {
            before.push(n - 1)
        } else {
            before
        }
    }
}

/// The items of a list that batches began with, in order.
pub open spec fn list_heads(scene: Scene, bound: Set<ImageId>, phase: int) -> Seq<int> {
    heads(
        scene,
        scene.progress(bound, phase as nat),
        phase,
        scene.phases[phase].items@.len(),
    )
}

/// The batch that began with an item of a list, by the place of the item among the heads.
pub open spec fn list_batch(scene: Scene, bound: Set<ImageId>, phase: int, k: int) -> (
    Entity,
    UiBatch,
) {
    scene.result(bound).batches[scene.progress(bound, phase as nat).batches.len() + k]
}

/// Whether the batches of the first `n` items of a list match the items that they began with.
spec fn is_matched(scene: Scene, frame: Progress, phase: int, n: nat) -> bool {
    let reached = scene.phase_progress(frame, phase, n);
    let begun = heads(scene, frame, phase, n);
    let batches = reached.frame.batches;
    let from = frame.batches.len();
    &&& batches.len() == from + begun.len()
    &&& forall|b: int| 0 <= b < from ==> #[trigger] batches[b] == frame.batches[b]
    &&& reached.image != ImageId::spec_invalid() ==> begun.len() > 0
    &&& begun.len() > 0 ==> reached.head == begun.last()
    &&& forall|k: int|
        0 <= k < begun.len() ==> {
            let head = #[trigger] begun[k];
            let range = batches[from + k].1.range;
            &&& 0 <= head < n
            &&& batches[from + k].0 == scene.phases[phase].items@[head].entity
            &&& range.end - range.start == 6 * scene.drawn_with(frame, phase, head, n)
            &&& 6 * frame.drawn.len() <= range.start
            &&& head + scene.drawn_with(frame, phase, head, n) <= n
        }
    &&& forall|k: int, l: int|
        #![trigger begun[k], begun[l]]
        0 <= k < l < begun.len() ==> begun[k] + scene.drawn_with(frame, phase, begun[k], n)
            <= begun[l] && begun[k] < begun[l]
    &&& forall|i: int| #[trigger]
        scene.drawn_with(frame, phase, i, n) > 0 ==> begun.contains(i)
}

/// Batches and items match after any number of items of a list.
proof fn lemma_matched(scene: Scene, frame: Progress, bound: Set<ImageId>, phase: int, n: nat)
    requires
        0 <= phase < scene.phases.len(),
        n <= scene.phases[phase].items@.len(),
        is_sound(frame, scene.gpu_images, bound),
        6 * scene.phase_progress(frame, phase, n).frame.drawn.len() <= u32::MAX,
    ensures
        is_matched(scene, frame, phase, n),
    decreases n,
{
    if n > 0 {
        let index = (n - 1) as nat;
        lemma_drawn_grows(scene, frame, phase, 0, index);
        lemma_drawn_grows(scene, frame, phase, index, n);
        lemma_matched(scene, frame, bound, phase, index);
        lemma_phase(scene, frame, bound, phase, index);
        lemma_phase(scene, frame, bound, phase, n);
        lemma_items_kept(scene, frame, phase, index);
        lemma_matched_step(scene, frame, bound, phase, n);
    }
}

/// An item more keeps batches and items matched.
proof fn lemma_matched_step(scene: Scene, frame: Progress, bound: Set<ImageId>, phase: int, n: nat)
    requires
        0 < n <= scene.phases[phase].items@.len(),
        is_matched(scene, frame, phase, (n - 1) as nat),
        is_sound(
            scene.phase_progress(frame, phase, (n - 1) as nat).frame,
            scene.gpu_images,
            bound,
        ),
        is_sound(scene.phase_progress(frame, phase, n).frame, scene.gpu_images, bound),
        knows_image(scene.phase_progress(frame, phase, (n - 1) as nat), scene.gpu_images),
        frame.drawn.len() <= scene.phase_progress(frame, phase, (n - 1) as nat).frame.drawn.len(),
        6 * scene.phase_progress(frame, phase, n).frame.drawn.len() <= u32::MAX,
        forall|i: int|
            0 <= i < scene.phases[phase].items@.len() ==> (#[trigger] scene.phase_progress(
                frame,
                phase,
                (n - 1) as nat,
            ).items[i]).entity == scene.phases[phase].items@[i].entity,
    ensures
        is_matched(scene, frame, phase, n),
{
    let index = (n - 1) as nat;
    let earlier = scene.phase_progress(frame, phase, index);
    let reached = scene.phase_progress(frame, phase, n);
    let old_begun = heads(scene, frame, phase, index);
    let begun = heads(scene, frame, phase, n);
    let from = frame.batches.len();
    let batches = reached.frame.batches;
    let old_batches = earlier.frame.batches;
    let last = batches.len() - 1;
    let drew = reached.frame.drawn.len() > earlier.frame.drawn.len();
    let opened = batches.len() > old_batches.len();
    assert forall|i: int| #[trigger] scene.drawn_with(frame, phase, i, n) == scene.drawn_with(
        frame,
        phase,
        i,
        index,
    ) + if drew && reached.head == i {
        1int
    } else {
        0
    } by {
    }
    assert(scene.drawn_with(frame, phase, index as int, index) == 0) by {
        if scene.drawn_with(frame, phase, index as int, index) > 0 {
            let k = choose|k: int| 0 <= k < old_begun.len() && old_begun[k] == index;
            assert(old_begun[k] < index);
        }
    }
    if opened {
        assert(begun == old_begun.push(index as int));
        assert(batches.len() == old_batches.len() + 1);
        assert(reached.head == index);
    } else {
        assert(begun == old_begun);
        assert(reached.head == earlier.head);
        assert(batches.len() == old_batches.len());
    }
    assert(drew ==> begun.len() > 0);
    assert forall|b: int| 0 <= b < last implies #[trigger] batches[b] == old_batches[b] by {
    }
    if begun.len() > 0 {
        assert(reached.head == begun.last());
        let count = begun.len() - 1;
        let entry = batches[last];
        assert(last == from + count);
        if opened {
            assert(entry.0 == scene.phases[phase].items@[index as int].entity);
            assert(entry.1.range.start == earlier.frame.vertices.len());
            assert(entry.1.range.end == reached.frame.vertices.len());
        } else {
            assert(old_begun[count] == begun[count]);
            assert(entry.0 == old_batches[last].0);
            assert(entry.1.range.start == old_batches[last].1.range.start);
            assert(entry.1.range.end == old_batches[last].1.range.end + if drew {
                6int
            } else {
                0
            });
        }
    }
    assert forall|k: int| 0 <= k < begun.len() implies {
        let head = #[trigger] begun[k];
        let range = batches[from + k].1.range;
        &&& 0 <= head < n
        &&& batches[from + k].0 == scene.phases[phase].items@[head].entity
        &&& range.end - range.start == 6 * scene.drawn_with(frame, phase, head, n)
        &&& 6 * frame.drawn.len() <= range.start
        &&& head + scene.drawn_with(frame, phase, head, n) <= n
    } by {
        if k < begun.len() - 1 {
            assert(begun[k] == old_begun[k]);
            assert(batches[from + k] == old_batches[from + k]);
            assert(begun[k] != reached.head) by {
                if !opened {
                    assert(old_begun[k] < old_begun[old_begun.len() - 1]);
                }
            }
        }
    }
    assert forall|k: int, l: int|
        #![trigger begun[k], begun[l]]
        0 <= k < l < begun.len() implies begun[k] + scene.drawn_with(frame, phase, begun[k], n)
        <= begun[l] && begun[k] < begun[l] by {
        assert(begun[k] == old_begun[k]);
        if l < old_begun.len() {
            assert(begun[l] == old_begun[l]);
        }
        assert(begun[k] != reached.head) by {
            if !opened {
                if l < old_begun.len() - 1 {
                    assert(old_begun[k] < old_begun[old_begun.len() - 1]);
                }
            }
        }
    }
    assert forall|i: int| #[trigger]
        scene.drawn_with(frame, phase, i, n) > 0 implies begun.contains(i) by {
        if drew && reached.head == i {
            assert(begun[begun.len() - 1] == i);
        } else {
            let k = choose|k: int| 0 <= k < old_begun.len() && old_begun[k] == i;
            assert(begun[k] == i);
        }
    }
    assert forall|b: int| 0 <= b < from implies #[trigger] batches[b] == frame.batches[b] by {
        assert(old_batches[b] == frame.batches[b]);
    }
}

/// The batches of some lists stay as they are when further lists are grouped.
proof fn lemma_batches_stay(scene: Scene, bound: Set<ImageId>, m: nat, n: nat)
    requires
        m <= n <= scene.phases.len(),
        6 * scene.progress(bound, n).drawn.len() <= u32::MAX,
    ensures
        scene.progress(bound, m).batches.len() <= scene.progress(bound, n).batches.len(),
        forall|b: int|
            0 <= b < scene.progress(bound, m).batches.len() ==> #[trigger] scene.progress(
                bound,
                n,
            ).batches[b] == scene.progress(bound, m).batches[b],
    decreases n,
{
    if m < n {
        let earlier = (n - 1) as nat;
        let batches = scene.progress(bound, n).batches;
        lemma_progress_grows(scene, bound, earlier, n);
        lemma_batches_stay(scene, bound, m, earlier);
        lemma_progress(scene, bound, earlier);
        lemma_matched(
            scene,
            scene.progress(bound, earlier),
            bound,
            earlier as int,
            scene.phases[earlier as int].items@.len(),
        );
        assert forall|b: int| 0 <= b < scene.progress(bound, m).batches.len() implies
            #[trigger] batches[b] == scene.progress(bound, m).batches[b] by {
            assert(batches[b] == scene.progress(bound, earlier).batches[b]);
        }
    }
}

/// The batches of a list match its items, and are there in the end.
proof fn lemma_list_matched(scene: Scene, bound: Set<ImageId>, phase: int)
    requires
        scene.fits(bound),
        0 <= phase < scene.phases.len(),
    ensures
        ({
            let next = scene.progress(bound, (phase + 1) as nat);
            &&& is_matched(
                scene,
                scene.progress(bound, phase as nat),
                phase,
                scene.phases[phase].items@.len(),
            )
            &&& tiles(next)
            &&& next.vertices.len() == 6 * next.drawn.len()
            &&& next.batches.len() <= scene.result(bound).batches.len()
            &&& forall|k: int|
                0 <= k < list_heads(scene, bound, phase).len() ==> #[trigger] list_batch(
                    scene,
                    bound,
                    phase,
                    k,
                ) == next.batches[scene.progress(bound, phase as nat).batches.len() + k]
        }),
{
    let next = (phase + 1) as nat;
    lemma_progress_grows(scene, bound, phase as nat, scene.phases.len());
    lemma_progress_grows(scene, bound, next, scene.phases.len());
    lemma_progress(scene, bound, phase as nat);
    lemma_progress(scene, bound, next);
    lemma_matched(
        scene,
        scene.progress(bound, phase as nat),
        bound,
        phase,
        scene.phases[phase].items@.len(),
    );
    lemma_batches_stay(scene, bound, next, scene.phases.len());
}

/// A batch has the entity of the item that it began with, and that item counts as many nodes more
/// as the batch has. The batches of a list stand in the order of these items.
pub proof fn law_items_match_batches(scene: Scene, bound: Set<ImageId>, phase: int, k: int)
    requires
        scene.fits(bound),
        0 <= phase < scene.phases.len(),
        0 <= k < list_heads(scene, bound, phase).len(),
    ensures
        ({
            let head = list_heads(scene, bound, phase)[k];
            let before = scene.phases[phase].items@;
            let after = scene.result_items(bound, phase);
            let entry = list_batch(scene, bound, phase, k);
            &&& 0 <= head < before.len()
            &&& entry.0 == before[head].entity
            &&& entry.1.range.end - entry.1.range.start == 6 * (after[head].batch_range.end
                - before[head].batch_range.end)
            &&& k + 1 < list_heads(scene, bound, phase).len() ==> head < list_heads(
                scene,
                bound,
                phase,
            )[k + 1]
        }),
{
    lemma_list_matched(scene, bound, phase);
    law_items_count_the_drawn_nodes(scene, bound, phase);
    let head = list_heads(scene, bound, phase)[k];
    assert(scene.result_items(bound, phase)[head].batch_range.end
        == scene.phases[phase].items@[head].batch_range.end + scene.drawn_together(
        bound,
        phase,
        head,
    ));
    assert(list_batch(scene, bound, phase, k) == scene.progress(
        bound,
        (phase + 1) as nat,
    ).batches[scene.progress(bound, phase as nat).batches.len() + k]);
}

/// An item that no batch began with does not change.
pub proof fn law_other_items_do_not_change(scene: Scene, bound: Set<ImageId>, phase: int, i: int)
    requires
        scene.fits(bound),
        0 <= phase < scene.phases.len(),
        0 <= i < scene.phases[phase].items@.len(),
        !list_heads(scene, bound, phase).contains(i),
    ensures
        scene.result_items(bound, phase)[i] == scene.phases[phase].items@[i],
{
    lemma_list_matched(scene, bound, phase);
    law_items_count_the_drawn_nodes(scene, bound, phase);
    assert(scene.drawn_together(bound, phase, i) == 0);
    let before = scene.phases[phase].items@[i];
    let after = scene.result_items(bound, phase)[i];
    assert((TransparentUi { batch_range: before.batch_range, ..after }) == before);
    assert(after.batch_range == before.batch_range);
}

/// An item that a batch began with counts no more nodes than there are items up to the one that the
/// next batch of the list began with, or up to the end of the list.
pub proof fn law_batches_do_not_share_items(scene: Scene, bound: Set<ImageId>, phase: int, k: int)
    requires
        scene.fits(bound),
        0 <= phase < scene.phases.len(),
        0 <= k < list_heads(scene, bound, phase).len(),
    ensures
        ({
            let begun = list_heads(scene, bound, phase);
            let before = scene.phases[phase].items@;
            let after = scene.result_items(bound, phase);
            let next = if k + 1 < begun.len() {
                begun[k + 1]
            } else {
                before.len() as int
            };
            begun[k] + after[begun[k]].batch_range.end - before[begun[k]].batch_range.end <= next
        }),
{
    lemma_list_matched(scene, bound, phase);
    law_items_count_the_drawn_nodes(scene, bound, phase);
    let head = list_heads(scene, bound, phase)[k];
    assert(scene.result_items(bound, phase)[head].batch_range.end
        == scene.phases[phase].items@[head].batch_range.end + scene.drawn_together(
        bound,
        phase,
        head,
    ));
}

/// Every batch is one of the batches of one list, and all its nodes are among those that were drawn
/// from that list.
pub proof fn law_batch_comes_from_one_list(scene: Scene, bound: Set<ImageId>, b: int) -> (at: (
    int,
    int,
))
    requires
        scene.fits(bound),
        0 <= b < scene.result(bound).batches.len(),
    ensures
        ({
            let (phase, k) = at;
            let range = scene.result(bound).batches[b].1.range;
            &&& 0 <= phase < scene.phases.len()
            &&& 0 <= k < list_heads(scene, bound, phase).len()
            &&& b == scene.progress(bound, phase as nat).batches.len() + k
            &&& list_batch(scene, bound, phase, k) == scene.result(bound).batches[b]
            &&& 6 * scene.progress(bound, phase as nat).drawn.len() <= range.start
            &&& range.end <= 6 * scene.progress(bound, (phase + 1) as nat).drawn.len()
        }),
{
    let phase = lemma_list_of_batch(scene, bound, b, scene.phases.len());
    let from = scene.progress(bound, phase as nat).batches.len();
    let k = b - from;
    lemma_list_matched(scene, bound, phase);
    let next = scene.progress(bound, (phase + 1) as nat);
    assert(next.batches.len() == from + list_heads(scene, bound, phase).len());
    assert(list_batch(scene, bound, phase, k) == next.batches[from + k]);
    let head = list_heads(scene, bound, phase)[k];
    assert(next.batches[from + k].1.range.end <= next.vertices.len());
    (phase, k)
}

/// The list that a batch belongs to.
proof fn lemma_list_of_batch(scene: Scene, bound: Set<ImageId>, b: int, n: nat) -> (phase: int)
    requires
        0 <= b < scene.progress(bound, n).batches.len(),
    ensures
        0 <= phase < n,
        scene.progress(bound, phase as nat).batches.len() <= b < scene.progress(
            bound,
            (phase + 1) as nat,
        ).batches.len(),
    decreases n,
{
    let earlier = (n - 1) as nat;
    if b < scene.progress(bound, earlier).batches.len() {
        lemma_list_of_batch(scene, bound, b, earlier)
    } else {
        earlier as int
    }
}

/// Whether no node of one batch could be part of the other: they are drawn to different cameras, or
/// show different images.
pub open spec fn must_differ(a: UiBatch, b: UiBatch) -> bool {
    ||| a.camera != b.camera
    ||| a.image != ImageId::spec_none() && b.image != ImageId::spec_none() && a.image != b.image
}

/// Whether all items of a list between two others have nodes.
pub open spec fn have_nodes(scene: Scene, phase: int, from: int, to: int) -> bool {
    forall|i: int|
        from < i < to ==> lookup(
            scene.nodes,
            (#[trigger] scene.phases[phase].items@[i]).entity,
        ) is Some
}

/// Whether batches of the first `n` items of a list were begun for a reason.
spec fn is_split_for_a_reason(scene: Scene, frame: Progress, phase: int, n: nat) -> bool {
    let reached = scene.phase_progress(frame, phase, n);
    let begun = heads(scene, frame, phase, n);
    let batches = reached.frame.batches;
    let from = frame.batches.len();
    &&& begun.len() > 0 && have_nodes(scene, phase, begun.last(), n as int) ==> reached.image
        != ImageId::spec_invalid()
    &&& forall|k: int, l: int|
        #![trigger begun[k], begun[l]]
        0 <= k && k + 1 == l < begun.len() && have_nodes(scene, phase, begun[k], begun[l])
            ==> must_differ(batches[from + k].1, batches[from + l].1)
}

/// No batch of a list was begun without a reason.
proof fn lemma_split_for_a_reason(
    scene: Scene,
    frame: Progress,
    bound: Set<ImageId>,
    phase: int,
    n: nat,
)
    requires
        0 <= phase < scene.phases.len(),
        n <= scene.phases[phase].items@.len(),
        is_sound(frame, scene.gpu_images, bound),
        6 * scene.phase_progress(frame, phase, n).frame.drawn.len() <= u32::MAX,
        !scene.gpu_images.contains(ImageId::spec_invalid()),
    ensures
        is_split_for_a_reason(scene, frame, phase, n),
    decreases n,
{
    if n > 0 {
        let index = (n - 1) as nat;
        let earlier = scene.phase_progress(frame, phase, index);
        let reached = scene.phase_progress(frame, phase, n);
        let old_begun = heads(scene, frame, phase, index);
        let begun = heads(scene, frame, phase, n);
        let from = frame.batches.len();
        let batches = reached.frame.batches;
        let old_batches = earlier.frame.batches;
        let last = batches.len() - 1;
        let opened = batches.len() > old_batches.len();
        lemma_drawn_grows(scene, frame, phase, index, n);
        lemma_split_for_a_reason(scene, frame, bound, phase, index);
        lemma_matched(scene, frame, bound, phase, index);
        lemma_matched(scene, frame, bound, phase, n);
        lemma_phase(scene, frame, bound, phase, index);
        lemma_phase(scene, frame, bound, phase, n);
        assert forall|b: int| 0 <= b < last implies #[trigger] batches[b] == old_batches[b] by {
        }
        let entity = scene.phases[phase].items@[index as int].entity;
        if begun.len() > 0 && have_nodes(scene, phase, begun.last(), n as int) {
            if opened {
                assert(begun.last() == index);
            } else {
                assert(begun == old_begun);
                assert(begun[begun.len() - 1] < index);
                assert(lookup(scene.nodes, entity) is Some);
                assert(have_nodes(scene, phase, begun.last(), index as int));
            }
            assert(reached.image != ImageId::spec_invalid());
        }
        assert forall|k: int, l: int|
            #![trigger begun[k], begun[l]]
            0 <= k && k + 1 == l < begun.len() && have_nodes(
                scene,
                phase,
                begun[k],
                begun[l],
            ) implies must_differ(batches[from + k].1, batches[from + l].1) by {
            assert(begun[k] == old_begun[k]);
            assert(batches[from + k] == old_batches[from + k]);
            if l < old_begun.len() {
                assert(begun[l] == old_begun[l]);
                let (a, b) = (old_batches[from + k].1, old_batches[from + l].1);
                assert(must_differ(a, b));
                assert(batches[from + l].1.camera == b.camera);
                if from + l == last && batches[last].1.image != b.image {
                    assert(b.image == ImageId::spec_none());
                }
            } else {
                assert(begun[l] == index);
                assert(old_begun.last() == begun[k]);
                assert(earlier.image != ImageId::spec_invalid());
                assert(earlier.frame.current() == old_batches[from + k].1);
            }
        }
    }
}

/// Two successive batches of a list, with no item without a node between those that they began
/// with, are drawn to different cameras or show different images. No image goes by the identifier
/// that none has.
pub proof fn law_batches_are_split_for_a_reason(
    scene: Scene,
    bound: Set<ImageId>,
    phase: int,
    k: int,
)
    requires
        scene.fits(bound),
        !scene.gpu_images.contains(ImageId::spec_invalid()),
        0 <= phase < scene.phases.len(),
        0 <= k,
        k + 1 < list_heads(scene, bound, phase).len(),
        have_nodes(
            scene,
            phase,
            list_heads(scene, bound, phase)[k],
            list_heads(scene, bound, phase)[k + 1],
        ),
    ensures
        must_differ(
            list_batch(scene, bound, phase, k).1,
            list_batch(scene, bound, phase, k + 1).1,
        ),
{
    lemma_progress_grows(scene, bound, phase as nat, scene.phases.len());
    lemma_progress_grows(scene, bound, (phase + 1) as nat, scene.phases.len());
    lemma_progress(scene, bound, phase as nat);
    lemma_list_matched(scene, bound, phase);
    lemma_split_for_a_reason(
        scene,
        scene.progress(bound, phase as nat),
        bound,
        phase,
        scene.phases[phase].items@.len(),
    );
    let begun = list_heads(scene, bound, phase);
    let (head, next) = (begun[k], begun[k + 1]);
    assert(list_batch(scene, bound, phase, k) == scene.progress(
        bound,
        (phase + 1) as nat,
    ).batches[scene.progress(bound, phase as nat).batches.len() + k]);
    assert(list_batch(scene, bound, phase, k + 1) == scene.progress(
        bound,
        (phase + 1) as nat,
    ).batches[scene.progress(bound, phase as nat).batches.len() + k + 1]);
}

/// Whether no item counts anything yet.
pub open spec fn is_fresh(items: Seq<TransparentUi>) -> bool {
    forall|i: int|
        0 <= i < items.len() ==> (#[trigger] items[i]).batch_range.start == 0
            && items[i].batch_range.end == 0
}

/// Items that are put on new lists count nothing yet.
pub proof fn law_queued_items_are_new(
    before: Seq<ViewPhase>,
    after: Seq<ViewPhase>,
    order: Seq<Entity>,
    nodes: Map<Entity, ExtractedUiNode>,
    draw_function: u32,
    phase: int,
)
    requires
        grown(before, after, order, nodes, draw_function),
        0 <= phase < before.len(),
        is_fresh(before[phase].items@),
    ensures
        is_fresh(after[phase].items@),
{
    lemma_queued_is_fresh(order, nodes, draw_function, before, phase);
    let added = queued(order, nodes, draw_function, before, phase);
    assert(after[phase].items@ == before[phase].items@ + added);
}

/// What is queued counts nothing yet.
proof fn lemma_queued_is_fresh(
    order: Seq<Entity>,
    nodes: Map<Entity, ExtractedUiNode>,
    draw_function: u32,
    phases: Seq<ViewPhase>,
    phase: int,
)
    ensures
        is_fresh(queued(order, nodes, draw_function, phases, phase)),
    decreases order.len(),
{
    if order.len() > 0 {
        lemma_queued_is_fresh(order.drop_last(), nodes, draw_function, phases, phase);
    }
}

/// How many items there are on the first `n` lists.
pub open spec fn item_count(phases: Seq<ViewPhase>, n: nat) -> nat
    decreases n,
{
    if n == 0 {
        0
    } else {
        item_count(phases, (n - 1) as nat) + phases[n - 1].items@.len()
    }
}

/// No more nodes are drawn than there are items.
proof fn lemma_drawn_bound(scene: Scene, bound: Set<ImageId>, n: nat)
    ensures
        scene.progress(bound, n).drawn.len() <= item_count(scene.phases, n),
    decreases n,
{
    if n > 0 {
        let earlier = (n - 1) as nat;
        lemma_drawn_bound(scene, bound, earlier);
        lemma_progress_grows(scene, bound, earlier, earlier);
        lemma_vertices_of_drawn(
            scene,
            scene.progress(bound, earlier),
            earlier as int,
            scene.phases[earlier as int].items@.len(),
        );
    }
}

/// No more items are drawn together than there are.
proof fn lemma_drawn_with_bound(scene: Scene, frame: Progress, phase: int, i: int, n: nat)
    ensures
        scene.drawn_with(frame, phase, i, n) <= n,
    decreases n,
{
    if n > 0 {
        lemma_drawn_with_bound(scene, frame, phase, i, (n - 1) as nat);
    }
}

/// What is drawn can be counted as long as there are not too many items.
pub proof fn law_short_lists_fit(scene: Scene, bound: Set<ImageId>)
    requires
        6 * item_count(scene.phases, scene.phases.len()) <= u32::MAX,
        forall|phase: int, i: int|
            0 <= phase < scene.phases.len() && 0 <= i < scene.phases[phase].items@.len() ==> (
            #[trigger] scene.phases[phase].items@[i]).batch_range.end
                + scene.phases[phase].items@.len() <= u32::MAX,
    ensures
        scene.fits(bound),
{
    lemma_drawn_bound(scene, bound, scene.phases.len());
    assert forall|phase: int, i: int|
        0 <= phase < scene.phases.len() && 0 <= i < scene.phases[phase].items@.len() implies (
    #[trigger] scene.phases[phase].items@[i]).batch_range.end + scene.drawn_together(
        bound,
        phase,
        i,
    ) <= u32::MAX by {
        lemma_drawn_with_bound(
            scene,
            scene.progress(bound, phase as nat),
            phase,
            i,
            scene.phases[phase].items@.len(),
        );
    }
}

/// Whether the batches of the first `n` items of a list have the cameras and the images of the
/// nodes that they began with.
spec fn is_headed(scene: Scene, frame: Progress, phase: int, n: nat) -> bool {
    let begun = heads(scene, frame, phase, n);
    let batches = scene.phase_progress(frame, phase, n).frame.batches;
    forall|k: int|
        0 <= k < begun.len() ==> {
            let node = lookup(scene.nodes, scene.phases[phase].items@[#[trigger] begun[k]].entity);
            let batch = batches[frame.batches.len() + k].1;
            &&& node is Some
            &&& scene.gpu_images.contains(node->0.image)
            &&& batch.camera == node->0.camera_entity
            &&& node->0.image == ImageId::spec_none() || batch.image == node->0.image
        }
}

/// Batches have the cameras and the images of the nodes that they began with, after any number of
/// items of a list.
proof fn lemma_headed(scene: Scene, frame: Progress, bound: Set<ImageId>, phase: int, n: nat)
    requires
        0 <= phase < scene.phases.len(),
        n <= scene.phases[phase].items@.len(),
        is_sound(frame, scene.gpu_images, bound),
        6 * scene.phase_progress(frame, phase, n).frame.drawn.len() <= u32::MAX,
    ensures
        is_headed(scene, frame, phase, n),
    decreases n,
{
    if n > 0 {
        let index = (n - 1) as nat;
        let earlier = scene.phase_progress(frame, phase, index);
        let reached = scene.phase_progress(frame, phase, n);
        let old_begun = heads(scene, frame, phase, index);
        let begun = heads(scene, frame, phase, n);
        let from = frame.batches.len();
        let batches = reached.frame.batches;
        let old_batches = earlier.frame.batches;
        let last = batches.len() - 1;
        lemma_drawn_grows(scene, frame, phase, index, n);
        lemma_headed(scene, frame, bound, phase, index);
        lemma_matched(scene, frame, bound, phase, index);
        lemma_matched(scene, frame, bound, phase, n);
        lemma_phase(scene, frame, bound, phase, index);
        assert forall|b: int| 0 <= b < last implies #[trigger] batches[b] == old_batches[b] by {
        }
        assert forall|k: int| 0 <= k < begun.len() implies {
            let node = lookup(scene.nodes, scene.phases[phase].items@[#[trigger] begun[k]].entity);
            let batch = batches[from + k].1;
            &&& node is Some
            &&& scene.gpu_images.contains(node->0.image)
            &&& batch.camera == node->0.camera_entity
            &&& node->0.image == ImageId::spec_none() || batch.image == node->0.image
        } by {
            if k < old_begun.len() {
                assert(begun[k] == old_begun[k]);
                if from + k == last {
                    let (a, b) = (old_batches[last].1, batches[last].1);
                    assert(b.camera == a.camera);
                    assert(b.image == a.image || a.image == ImageId::spec_none());
                } else {
                    assert(batches[from + k] == old_batches[from + k]);
                }
            } else {
                assert(begun[k] == index);
                assert(from + k == last);
            }
        }
    }
}

/// A batch is drawn to the camera of the node of the item that it began with. That node could be
/// shown, and the batch shows its image, if it has one.
pub proof fn law_batch_is_that_of_its_head(scene: Scene, bound: Set<ImageId>, phase: int, k: int)
    requires
        scene.fits(bound),
        0 <= phase < scene.phases.len(),
        0 <= k < list_heads(scene, bound, phase).len(),
    ensures
        ({
            let head = list_heads(scene, bound, phase)[k];
            let node = lookup(scene.nodes, scene.phases[phase].items@[head].entity);
            let batch = list_batch(scene, bound, phase, k).1;
            &&& node is Some
            &&& scene.gpu_images.contains(node->0.image)
            &&& batch.camera == node->0.camera_entity
            &&& is_plain(node->0) || batch.image == node->0.image
        }),
{
    lemma_progress_grows(scene, bound, phase as nat, scene.phases.len());
    lemma_progress_grows(scene, bound, (phase + 1) as nat, scene.phases.len());
    lemma_progress(scene, bound, phase as nat);
    lemma_list_matched(scene, bound, phase);
    lemma_headed(
        scene,
        scene.progress(bound, phase as nat),
        bound,
        phase,
        scene.phases[phase].items@.len(),
    );
    let head = list_heads(scene, bound, phase)[k];
    assert(list_batch(scene, bound, phase, k) == scene.progress(
        bound,
        (phase + 1) as nat,
    ).batches[scene.progress(bound, phase as nat).batches.len() + k]);
}

/// An item without a node ends the batch: the next item begins another, if its node can be shown.
pub proof fn law_item_without_node_ends_the_batch(
    scene: Scene,
    frame: Progress,
    phase: int,
    index: int,
    node: ExtractedUiNode,
)
    requires
        0 <= index,
        index + 1 < scene.phases[phase].items@.len(),
        lookup(scene.nodes, scene.phases[phase].items@[index].entity) is None,
        lookup(scene.nodes, scene.phases[phase].items@[index + 1].entity) == Some(node),
        scene.gpu_images.contains(node.image),
    ensures
        ({
            let before = scene.phase_progress(frame, phase, (index + 1) as nat).frame;
            let after = scene.phase_progress(frame, phase, (index + 2) as nat).frame;
            &&& after.batches.len() == before.batches.len() + 1
            &&& after.batches.last().0 == scene.phases[phase].items@[index + 1].entity
            &&& after.batches.last().1.camera == node.camera_entity
            &&& after.batches.last().1.image == node.image
        }),
{
    lemma_items_kept(scene, frame, phase, (index + 1) as nat);
}

/// The first item of a list begins a batch, if its node can be shown.
pub proof fn law_each_list_begins_a_batch(
    scene: Scene,
    frame: Progress,
    phase: int,
    node: ExtractedUiNode,
)
    requires
        0 < scene.phases[phase].items@.len(),
        lookup(scene.nodes, scene.phases[phase].items@[0].entity) == Some(node),
        scene.gpu_images.contains(node.image),
    ensures
        ({
            let after = scene.phase_progress(frame, phase, 1).frame;
            &&& after.batches.len() == frame.batches.len() + 1
            &&& after.batches.last().0 == scene.phases[phase].items@[0].entity
            &&& after.batches.last().1.camera == node.camera_entity
            &&& after.batches.last().1.image == node.image
        }),
{
    assert(scene.phase_progress(frame, phase, 0).items[0] == scene.phases[phase].items@[0]);
    reveal_with_fuel(Scene::phase_progress, 2);
}

/// A node without an image is drawn along with the one before it, whether or not there is an image
/// for nodes without one, if that could be shown and is drawn to the same camera. The batch goes
/// on.
pub proof fn law_plain_node_joins_the_batch(
    scene: Scene,
    frame: Progress,
    phase: int,
    index: int,
    earlier: ExtractedUiNode,
    node: ExtractedUiNode,
)
    requires
        0 <= index,
        index + 1 < scene.phases[phase].items@.len(),
        lookup(scene.nodes, scene.phases[phase].items@[index].entity) == Some(earlier),
        scene.gpu_images.contains(earlier.image),
        !scene.gpu_images.contains(ImageId::spec_invalid()),
        lookup(scene.nodes, scene.phases[phase].items@[index + 1].entity) == Some(node),
        is_plain(node),
        node.camera_entity == earlier.camera_entity,
    ensures
        ({
            let before = scene.phase_progress(frame, phase, (index + 1) as nat).frame;
            let after = scene.phase_progress(frame, phase, (index + 2) as nat).frame;
            let quad = scene.quads[phase]@[index + 1];
            &&& after.batches.len() == before.batches.len()
            &&& after.batches.last().1.image == before.batches.last().1.image
            &&& !quad.culled ==> after.drawn == before.drawn.push((node, quad))
            &&& quad.culled ==> after.drawn == before.drawn
        }),
{
    let first = scene.phase_progress(frame, phase, index as nat);
    let second = scene.phase_progress(frame, phase, (index + 1) as nat);
    assert(second.image != ImageId::spec_invalid());
    assert(second.frame.batches.len() > 0);
    assert(second.frame.current().camera == earlier.camera_entity);
}

/// A node without an image that begins a list, or comes after an item without a node, is not drawn
/// as long as there is no image for nodes without one.
pub proof fn law_plain_node_waits_to_begin(
    scene: Scene,
    frame: Progress,
    phase: int,
    index: int,
    node: ExtractedUiNode,
)
    requires
        0 <= index < scene.phases[phase].items@.len(),
        index > 0 ==> lookup(scene.nodes, scene.phases[phase].items@[index - 1].entity) is None,
        lookup(scene.nodes, scene.phases[phase].items@[index].entity) == Some(node),
        is_plain(node),
        !scene.gpu_images.contains(node.image),
    ensures
        ({
            let before = scene.phase_progress(frame, phase, index as nat).frame;
            let after = scene.phase_progress(frame, phase, (index + 1) as nat).frame;
            &&& after.drawn == before.drawn
            &&& after.batches == before.batches
        }),
{
}

/// Whether an item of a list has a node that shows an image.
pub open spec fn has_image(scene: Scene, phase: int, index: int, image: ImageId) -> bool {
    let node = lookup(scene.nodes, scene.phases[phase].items@[index].entity);
    &&& 0 <= phase < scene.phases.len()
    &&& 0 <= index < scene.phases[phase].items@.len()
    &&& node is Some
    &&& node->0.image == image
}

/// Whether some item of some list has a node that shows an image.
pub open spec fn is_needed(scene: Scene, image: ImageId) -> bool {
    exists|phase: int, index: int| #[trigger] has_image(scene, phase, index, image)
}

/// Whether bind groups were created only for the images of nodes.
spec fn creates_needed(scene: Scene, created: Seq<ImageId>) -> bool {
    forall|c: int| 0 <= c < created.len() ==> is_needed(scene, #[trigger] created[c])
}

/// Items create bind groups only for the images of their nodes.
proof fn lemma_creates_needed(scene: Scene, frame: Progress, phase: int, n: nat)
    requires
        0 <= phase < scene.phases.len(),
        n <= scene.phases[phase].items@.len(),
        creates_needed(scene, frame.created),
    ensures
        creates_needed(scene, scene.phase_progress(frame, phase, n).frame.created),
    decreases n,
{
    if n > 0 {
        lemma_creates_needed(scene, frame, phase, (n - 1) as nat);
        let before = scene.phase_progress(frame, phase, (n - 1) as nat).frame.created;
        let created = scene.phase_progress(frame, phase, n).frame.created;
        assert forall|c: int| 0 <= c < created.len() implies is_needed(
            scene,
            #[trigger] created[c],
        ) by {
            if c < before.len() {
                assert(created[c] == before[c]);
            } else {
                assert(has_image(scene, phase, n - 1, created[c]));
            }
        }
    }
}

/// Lists create bind groups only for the images of their nodes.
proof fn lemma_lists_create_needed(scene: Scene, bound: Set<ImageId>, m: nat)
    requires
        m <= scene.phases.len(),
    ensures
        creates_needed(scene, scene.progress(bound, m).created),
    decreases m,
{
    if m > 0 {
        lemma_lists_create_needed(scene, bound, (m - 1) as nat);
        lemma_creates_needed(
            scene,
            scene.progress(bound, (m - 1) as nat),
            m - 1,
            scene.phases[m - 1].items@.len(),
        );
    }
}

/// A bind group is created only for the image of a node that is on a list.
pub proof fn law_bind_groups_are_of_nodes(scene: Scene, bound: Set<ImageId>, c: int)
    requires
        0 <= c < scene.result(bound).created.len(),
    ensures
        is_needed(scene, scene.result(bound).created[c]),
{
    lemma_lists_create_needed(scene, bound, scene.phases.len());
}

/// An image keeps its bind group through events, unless one says that it was modified or removed.
pub proof fn law_events_outdate_bind_groups(
    bound: Set<ImageId>,
    events: Seq<ImageEvent>,
    image: ImageId,
)
    ensures
        after_events(bound, events).contains(image) <==> {
            &&& bound.contains(image)
            &&& !events.contains(ImageEvent::Modified { id: image })
            &&& !events.contains(ImageEvent::Removed { id: image })
        },
{
    let (modified, removed) = (
        ImageEvent::Modified { id: image },
        ImageEvent::Removed { id: image },
    );
    if events.contains(modified) {
        let k = choose|k: int| 0 <= k < events.len() && events[k] == modified;
        assert(events[k].outdates(image));
    }
    if events.contains(removed) {
        let k = choose|k: int| 0 <= k < events.len() && events[k] == removed;
        assert(events[k].outdates(image));
    }
    assert forall|k: int| 0 <= k < events.len() && (#[trigger] events[k]).outdates(
        image,
    ) implies events.contains(modified) || events.contains(removed) by {
        assert(events[k] == modified || events[k] == removed);
    }
}

/// The item that a drawn node comes from, on the first `n` of a list.
proof fn lemma_source_on_list(scene: Scene, frame: Progress, phase: int, n: nat, j: int) -> (index:
    int)
    requires
        frame.drawn.len() <= j < scene.phase_progress(frame, phase, n).frame.drawn.len(),
    ensures
        0 <= index < n,
        !scene.quads[phase]@[index].culled,
        lookup(scene.nodes, scene.phases[phase].items@[index].entity) is Some,
        scene.phase_progress(frame, phase, n).frame.drawn[j] == (
            lookup(scene.nodes, scene.phases[phase].items@[index].entity)->0,
            scene.quads[phase]@[index],
        ),
    decreases n,
{
    let before = scene.phase_progress(frame, phase, (n - 1) as nat).frame.drawn;
    if j < before.len() {
        lemma_source_on_list(scene, frame, phase, (n - 1) as nat, j)
    } else {
        n - 1
    }
}

/// The list and the item that a drawn node comes from.
proof fn lemma_source(scene: Scene, bound: Set<ImageId>, n: nat, j: int) -> (at: (int, int))
    requires
        n <= scene.phases.len(),
        0 <= j < scene.progress(bound, n).drawn.len(),
    ensures
        ({
            let (phase, index) = at;
            &&& 0 <= phase < n
            &&& 0 <= index < scene.phases[phase].items@.len()
            &&& !scene.quads[phase]@[index].culled
            &&& lookup(scene.nodes, scene.phases[phase].items@[index].entity) is Some
            &&& scene.progress(bound, n).drawn[j] == (
                lookup(scene.nodes, scene.phases[phase].items@[index].entity)->0,
                scene.quads[phase]@[index],
            )
        }),
    decreases n,
{
    let earlier = (n - 1) as nat;
    let frame = scene.progress(bound, earlier);
    if j < frame.drawn.len() {
        lemma_progress_keeps_drawn(scene, bound, earlier, n);
        lemma_source(scene, bound, earlier, j)
    } else {
        let phase = earlier as int;
        let index = lemma_source_on_list(
            scene,
            frame,
            phase,
            scene.phases[phase].items@.len(),
            j,
        );
        (phase, index)
    }
}

/// The six vertices of a drawn node are two triangles that make it up.
proof fn lemma_triangles(frame: Progress, j: int)
    requires
        shows_drawn(frame),
        0 <= j < frame.drawn.len(),
    ensures
        are_triangles(frame.vertices, 6 * j, frame.drawn[j].0, frame.drawn[j].1),
{
    let (node, quad) = frame.drawn[j];
    law_vertices_are_triangles(node, quad);
    let vertices = quad_vertices(node, quad);
    assert forall|k: int| 0 <= k < 6 implies frame.vertices[6 * j + k]
        == #[trigger] vertices[k] by {
        assert(frame.vertices[6 * j + k] == corner_vertex(node, quad, QUAD_INDICES@[k] as int));
    }
    assert(frame.vertices[6 * j] == vertices[0]);
    assert(frame.vertices[6 * j + 1] == vertices[1]);
    assert(frame.vertices[6 * j + 2] == vertices[2]);
    assert(frame.vertices[6 * j + 3] == vertices[3]);
    assert(frame.vertices[6 * j + 4] == vertices[4]);
    assert(frame.vertices[6 * j + 5] == vertices[5]);
}

/// Each of the six vertices of a drawn node has exactly the color of that node, opacity included,
/// and is in the mode that shows an image if and only if the node has one.
pub proof fn law_vertices_have_the_color_of_their_node(
    scene: Scene,
    bound: Set<ImageId>,
    j: int,
    k: int,
)
    requires
        scene.fits(bound),
        0 <= j < scene.result(bound).drawn.len(),
        0 <= k < 6,
    ensures
        ({
            let vertex = scene.result(bound).vertices[6 * j + k];
            let node = scene.result(bound).drawn[j].0;
            &&& vertex.color.r == node.color.r
            &&& vertex.color.g == node.color.g
            &&& vertex.color.b == node.color.b
            &&& vertex.color.a == node.color.a
            &&& vertex.mode == if is_plain(node) {
                1u32
            } else {
                0u32
            }
        }),
{
    law_vertices_show_the_drawn_nodes(scene, bound);
    lemma_triangles(scene.result(bound), j);
    let (at, vertices) = (6 * j, scene.result(bound).vertices);
    assert(vertices[at + k] == vertices[at] || vertices[at + k] == vertices[at + 1] || vertices[at
        + k] == vertices[at + 2] || vertices[at + k] == vertices[at + 3] || vertices[at + k]
        == vertices[at + 4] || vertices[at + k] == vertices[at + 5]);
}

/// A node that is on a list, whose image can be shown and of which clipping leaves something, has
/// its two triangles among the vertices, within a batch of its camera that shows its image, if it
/// has one.
pub proof fn law_ready_node_has_triangles(
    scene: Scene,
    bound: Set<ImageId>,
    phase: int,
    index: int,
    node: ExtractedUiNode,
) -> (at: (int, int))
    requires
        scene.fits(bound),
        0 <= phase < scene.phases.len(),
        0 <= index < scene.phases[phase].items@.len(),
        lookup(scene.nodes, scene.phases[phase].items@[index].entity) == Some(node),
        scene.gpu_images.contains(node.image),
        !scene.quads[phase]@[index].culled,
    ensures
        ({
            let (j, b) = at;
            let result = scene.result(bound);
            let batch = result.batches[b].1;
            &&& are_triangles(result.vertices, 6 * j, node, scene.quads[phase]@[index])
            &&& 0 <= b < result.batches.len()
            &&& batch.range.start <= 6 * j && 6 * j + 6 <= batch.range.end
            &&& batch.camera == node.camera_entity
            &&& is_plain(node) || batch.image == node.image
        }),
{
    let result = scene.result(bound);
    law_ready_node_stays_drawn(scene, bound, phase, index, node);
    law_vertices_show_the_drawn_nodes(scene, bound);
    law_batches_tile_the_vertices(scene, bound);
    law_batches_are_uniform(scene, bound);
    lemma_drawn_in_batch(result, node, scene.quads[phase]@[index])
}

/// A drawn node has its triangles within a batch.
proof fn lemma_drawn_in_batch(frame: Progress, node: ExtractedUiNode, quad: Quad) -> (at: (
    int,
    int,
))
    requires
        shows_drawn(frame),
        tiles(frame),
        is_uniform(frame),
        frame.drawn.contains((node, quad)),
    ensures
        ({
            let (j, b) = at;
            let batch = frame.batches[b].1;
            &&& are_triangles(frame.vertices, 6 * j, node, quad)
            &&& 0 <= b < frame.batches.len()
            &&& batch.range.start <= 6 * j && 6 * j + 6 <= batch.range.end
            &&& batch.camera == node.camera_entity
            &&& is_plain(node) || batch.image == node.image
        }),
{
    let j = choose|j: int| 0 <= j < frame.drawn.len() && frame.drawn[j] == (node, quad);
    lemma_triangles(frame, j);
    let b = lemma_batch_of_vertex(frame, j, frame.batches.len());
    assert(frame.batches[b].1.range.end % 6 == 0);
    assert(frame.drawn[j].0.camera_entity == frame.batches[b].1.camera);
    (j, b)
}

/// The batch that the vertices of a drawn node are in.
proof fn lemma_batch_of_vertex(frame: Progress, j: int, n: nat) -> (b: int)
    requires
        tiles(frame),
        0 < n <= frame.batches.len(),
        0 <= 6 * j < frame.batches[n - 1].1.range.end,
    ensures
        0 <= b < n,
        frame.batches[b].1.range.start <= 6 * j < frame.batches[b].1.range.end,
    decreases n,
{
    if frame.batches[n - 1].1.range.start <= 6 * j {
        n - 1
    } else {
        if n == 1 {
            assert(frame.batches[0].1.range.start == 0);
        }
        let (a, c) = (n - 2, n - 1);
        assert(frame.batches[c].1.range.start == frame.batches[a].1.range.end);
        lemma_batch_of_vertex(frame, j, (n - 1) as nat)
    }
}

/// All vertices are triangles of nodes that are on a list and of which clipping leaves something.
pub proof fn law_all_vertices_are_of_nodes(scene: Scene, bound: Set<ImageId>, j: int) -> (at: (
    int,
    int,
))
    requires
        scene.fits(bound),
        0 <= 6 * j < scene.result(bound).vertices.len(),
    ensures
        ({
            let (phase, index) = at;
            let node = lookup(scene.nodes, scene.phases[phase].items@[index].entity);
            &&& 0 <= phase < scene.phases.len()
            &&& 0 <= index < scene.phases[phase].items@.len()
            &&& node is Some
            &&& !scene.quads[phase]@[index].culled
            &&& are_triangles(
                scene.result(bound).vertices,
                6 * j,
                node->0,
                scene.quads[phase]@[index],
            )
        }),
{
    law_vertices_show_the_drawn_nodes(scene, bound);
    lemma_triangles(scene.result(bound), j);
    lemma_source(scene, bound, scene.phases.len(), j)
}

} // verus!
