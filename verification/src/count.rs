//! Finding out beforehand whether what is drawn can be counted.
use crate::batch::{
    lemma_items_kept, lemma_list_fits, lemma_list_fits_before, Progress, Scene,
};
use crate::entity::Entity;
use crate::image::{ImageId, ImageSet};
use crate::nodes::ExtractedUiNodes;
use crate::phase::ViewPhase;
use crate::quad::Quad;
use vstd::prelude::*;

verus! {

/// Whether two states of the grouping differ in nothing but the bind groups.
spec fn alike(a: Progress, b: Progress) -> bool {
    &&& a.batches == b.batches
    &&& a.vertices == b.vertices
    &&& a.drawn == b.drawn
}

/// Bind groups do not matter to how a list is grouped.
proof fn lemma_phase_alike(scene: Scene, a: Progress, b: Progress, phase: int, n: nat)
    requires
        alike(a, b),
    ensures
        ({
            let p = scene.phase_progress(a, phase, n);
            let q = scene.phase_progress(b, phase, n);
            &&& alike(p.frame, q.frame)
            &&& p.items == q.items
            &&& p.head == q.head
            &&& p.image == q.image
        }),
        forall|i: int| #[trigger]
            scene.drawn_with(a, phase, i, n) == scene.drawn_with(b, phase, i, n),
    decreases n,
{
    if n > 0 {
        lemma_phase_alike(scene, a, b, phase, (n - 1) as nat);
        assert forall|i: int| #[trigger]
            scene.drawn_with(a, phase, i, n) == scene.drawn_with(b, phase, i, n) by {
            assert(scene.drawn_with(a, phase, i, (n - 1) as nat) == scene.drawn_with(
                b,
                phase,
                i,
                (n - 1) as nat,
            ));
        }
    }
}

/// Bind groups do not matter to how lists are grouped.
proof fn lemma_progress_alike(scene: Scene, a: Set<ImageId>, b: Set<ImageId>, n: nat)
    ensures
        alike(scene.progress(a, n), scene.progress(b, n)),
    decreases n,
{
    if n > 0 {
        let earlier = (n - 1) as nat;
        lemma_progress_alike(scene, a, b, earlier);
        lemma_phase_alike(
            scene,
            scene.progress(a, earlier),
            scene.progress(b, earlier),
            earlier as int,
            scene.phases[earlier as int].items@.len(),
        );
    }
}

/// Whether what is drawn can be counted does not depend on the bind groups that there are.
pub proof fn law_bind_groups_do_not_matter_to_counting(
    scene: Scene,
    a: Set<ImageId>,
    b: Set<ImageId>,
)
    requires
        scene.fits(a),
    ensures
        scene.fits(b),
{
    lemma_progress_alike(scene, a, b, scene.phases.len());
    assert forall|phase: int, i: int|
        0 <= phase < scene.phases.len() && 0 <= i < scene.phases[phase].items@.len() implies (
    #[trigger] scene.phases[phase].items@[i]).batch_range.end + scene.drawn_together(b, phase, i)
        <= u32::MAX by {
        lemma_progress_alike(scene, a, b, phase as nat);
        lemma_phase_alike(
            scene,
            scene.progress(a, phase as nat),
            scene.progress(b, phase as nat),
            phase,
            scene.phases[phase].items@.len(),
        );
        assert(scene.drawn_together(a, phase, i) == scene.drawn_together(b, phase, i));
    }
}

/// No item is drawn as part of a batch that is yet to begin.
proof fn lemma_nothing_is_drawn_ahead(scene: Scene, frame: Progress, phase: int, i: int, n: nat)
    requires
        n <= i,
        n <= scene.phases[phase].items@.len(),
    ensures
        scene.drawn_with(frame, phase, i, n) == 0,
    decreases n,
{
    if n > 0 {
        lemma_nothing_is_drawn_ahead(scene, frame, phase, i, (n - 1) as nat);
        lemma_items_kept(scene, frame, phase, n);
    }
}

/// The camera of the last batch.
spec fn last_camera(frame: Progress) -> Option<Entity> {
    if frame.batches.len() == 0 {
        None
    } else {
        Some(frame.current().camera)
    }
}

/// Counts what is drawn of a list. `camera` is the camera of the last batch, and `drawn` how many
/// nodes have been drawn.
#[verifier::rlimit(40)]
fn count_list(
    phase: &ViewPhase,
    quads: &Vec<Quad>,
    nodes: &ExtractedUiNodes,
    gpu_images: &ImageSet,
    camera: &mut Option<Entity>,
    drawn: &mut u64,
    Ghost(scene): Ghost<Scene>,
    Ghost(frame): Ghost<Progress>,
    Ghost(number): Ghost<int>,
) -> (r: bool)
    requires
        0 <= number < scene.phases.len(),
        scene.phases[number] == *phase,
        scene.quads[number] == *quads,
        scene.nodes == nodes@,
        scene.gpu_images == gpu_images@,
        quads@.len() == phase.items@.len(),
        *old(camera) == last_camera(frame),
        *old(drawn) == frame.drawn.len(),
        6 * frame.drawn.len() <= u32::MAX,
    ensures
        r == scene.list_fits(frame, number, phase.items@.len()),
        r ==> *final(camera) == last_camera(scene.after_phase(frame, number).frame),
        r ==> *final(drawn) == scene.after_phase(frame, number).frame.drawn.len(),
{
    let mut head: usize = 0;
    let mut together: u64 = 0;
    let mut image = ImageId::invalid();
    let count: usize = phase.items.len();
    for i in 0..count
        invariant
            count == phase.items@.len(),
            count == quads@.len(),
            scene.phases[number] == *phase,
            scene.quads[number] == *quads,
            scene.nodes == nodes@,
            scene.gpu_images == gpu_images@,
            scene.list_fits(frame, number, i as nat),
            ({
                let reached = scene.phase_progress(frame, number, i as nat);
                &&& reached.head == head
                &&& reached.image == image
                &&& *camera == last_camera(reached.frame)
                &&& *drawn == reached.frame.drawn.len()
                &&& together == scene.drawn_with(frame, number, head as int, i as nat)
            }),
    {
        let ghost before = scene.phase_progress(frame, number, i as nat);
        let ghost after = scene.phase_progress(frame, number, (i + 1) as nat);
        proof {
            lemma_items_kept(scene, frame, number, i as nat);
            lemma_nothing_is_drawn_ahead(scene, frame, number, i as int, i as nat);
            assert(phase.items@[head as int].batch_range.end + together <= u32::MAX);
        }
        let entity = phase.items[i].entity;
        assert(before.items[i as int].entity == entity);
        let mut shown = false;
        match nodes.get(entity) {
            None => {
                image = ImageId::invalid();
            },
            Some(node) => {
                let none = ImageId::none();
                let needs_batch = image == ImageId::invalid() || camera.is_none() || (image != none
                    && node.image != none && image != node.image) || *camera != Some(
                    node.camera_entity,
                );
                let gives_image = !needs_batch && image == none && node.image != none;
                if !(needs_batch || gives_image) || gpu_images.contains(node.image) {
                    if needs_batch {
                        head = i;
                        together = 0;
                        image = node.image;
                        *camera = Some(node.camera_entity);
                    } else if gives_image {
                        image = node.image;
                    }
                    shown = !quads[i].culled;
                }
            },
        }
        if shown {
            *drawn = *drawn + 1;
            together = together + 1;
        }
        assert(after.head == head && after.image == image);
        assert(after.frame.drawn.len() == *drawn);
        assert(*camera == last_camera(after.frame));
        assert(together == scene.drawn_with(frame, number, head as int, (i + 1) as nat));
        if 6 * *drawn > u32::MAX as u64 || phase.items[head].batch_range.end as u64 + together
            > u32::MAX as u64 {
            proof {
                if scene.list_fits(frame, number, count as nat) {
                    lemma_list_fits_before(
                        scene,
                        frame,
                        number,
                        (i + 1) as nat,
                        count as nat,
                    );
                    assert(phase.items@[head as int].batch_range.end + together <= u32::MAX);
                }
            }
            return false;
        }
        assert forall|j: int| 0 <= j < count implies (
        #[trigger] phase.items@[j]).batch_range.end + scene.drawn_with(
            frame,
            number,
            j,
            (i + 1) as nat,
        ) <= u32::MAX by {
            assert(phase.items@[j].batch_range.end + scene.drawn_with(
                frame,
                number,
                j,
                i as nat,
            ) <= u32::MAX);
        }
    }
    true
}

/// Whether the numbers of vertices and of items drawn together can be counted after a list, when it
/// began without bind groups.
#[verifier::opaque]
spec fn is_countable(scene: Scene, phase: int) -> bool {
    scene.list_fits(
        scene.progress(Set::empty(), phase as nat),
        phase,
        scene.phases[phase].items@.len(),
    )
}

/// All can be counted if and only if each list can.
proof fn lemma_countable(scene: Scene, bound: Set<ImageId>)
    ensures
        scene.fits(bound) <==> 6 * scene.progress(Set::empty(), scene.phases.len()).drawn.len()
            <= u32::MAX && forall|phase: int|
            0 <= phase < scene.phases.len() ==> #[trigger] is_countable(scene, phase),
{
    reveal(is_countable);
    let none = Set::<ImageId>::empty();
    if scene.fits(bound) {
        law_bind_groups_do_not_matter_to_counting(scene, bound, none);
        assert forall|phase: int| 0 <= phase < scene.phases.len() implies #[trigger] is_countable(
            scene,
            phase,
        ) by {
            lemma_list_fits(scene, none, phase);
        }
    } else if 6 * scene.progress(none, scene.phases.len()).drawn.len() <= u32::MAX && forall|
        phase: int,
    |
        0 <= phase < scene.phases.len() ==> #[trigger] is_countable(scene, phase) {
        assert forall|phase: int, i: int|
            0 <= phase < scene.phases.len() && 0 <= i < scene.phases[phase].items@.len() implies (
        #[trigger] scene.phases[phase].items@[i]).batch_range.end + scene.drawn_together(
            none,
            phase,
            i,
        ) <= u32::MAX by {
            assert(is_countable(scene, phase));
        }
        assert(scene.fits(none));
        law_bind_groups_do_not_matter_to_counting(scene, none, bound);
    }
}

/// Counts what is drawn of a list, as part of all.
fn count_next_list(
    phase: &ViewPhase,
    quads: &Vec<Quad>,
    nodes: &ExtractedUiNodes,
    gpu_images: &ImageSet,
    camera: &mut Option<Entity>,
    drawn: &mut u64,
    Ghost(scene): Ghost<Scene>,
    Ghost(number): Ghost<int>,
) -> (r: bool)
    requires
        0 <= number < scene.phases.len(),
        scene.phases[number] == *phase,
        scene.quads[number] == *quads,
        scene.nodes == nodes@,
        scene.gpu_images == gpu_images@,
        quads@.len() == phase.items@.len(),
        *old(camera) == last_camera(scene.progress(Set::empty(), number as nat)),
        *old(drawn) == scene.progress(Set::empty(), number as nat).drawn.len(),
        6 * *old(drawn) <= u32::MAX,
    ensures
        r == is_countable(scene, number),
        r ==> *final(camera) == last_camera(scene.progress(Set::empty(), (number + 1) as nat)),
        r ==> *final(drawn) == scene.progress(Set::empty(), (number + 1) as nat).drawn.len(),
        r ==> 6 * *final(drawn) <= u32::MAX,
{
    reveal(is_countable);
    count_list(
        phase,
        quads,
        nodes,
        gpu_images,
        camera,
        drawn,
        Ghost(scene),
        Ghost(scene.progress(Set::empty(), number as nat)),
        Ghost(number),
    )
}

/// Whether the vertices, and the items that are drawn together, can be counted when this is
/// grouped.
pub fn can_be_counted(
    extracted_uinodes: &ExtractedUiNodes,
    gpu_images: &ImageSet,
    phases: &Vec<ViewPhase>,
    quads: &Vec<Vec<Quad>>,
) -> (r: bool)
    requires
        (Scene {
            phases: phases@,
            nodes: extracted_uinodes@,
            gpu_images: gpu_images@,
            quads: quads@,
        }).is_complete(),
    ensures
        forall|bound: Set<ImageId>|
            r == #[trigger] (Scene {
                phases: phases@,
                nodes: extracted_uinodes@,
                gpu_images: gpu_images@,
                quads: quads@,
            }).fits(bound),
{
    let ghost scene = Scene {
        phases: phases@,
        nodes: extracted_uinodes@,
        gpu_images: gpu_images@,
        quads: quads@,
    };
    let mut camera: Option<Entity> = None;
    let mut drawn: u64 = 0;
    for p in 0..phases.len()
        invariant
            scene == (Scene {
                phases: phases@,
                nodes: extracted_uinodes@,
                gpu_images: gpu_images@,
                quads: quads@,
            }),
            scene.is_complete(),
            camera == last_camera(scene.progress(Set::empty(), p as nat)),
            drawn == scene.progress(Set::empty(), p as nat).drawn.len(),
            6 * drawn <= u32::MAX,
            forall|q: int| 0 <= q < p ==> #[trigger] is_countable(scene, q),
    {
        assert(scene.quads[p as int]@.len() == scene.phases[p as int].items@.len());
        let countable = count_next_list(
            &phases[p],
            &quads[p],
            extracted_uinodes,
            gpu_images,
            &mut camera,
            &mut drawn,
            Ghost(scene),
            Ghost(p as int),
        );
        if !countable {
            assert forall|bound: Set<ImageId>| !#[trigger] scene.fits(bound) by {
                lemma_countable(scene, bound);
            }
            return false;
        }
    }
    assert forall|bound: Set<ImageId>| #[trigger] scene.fits(bound) by {
        lemma_countable(scene, bound);
    }
    true
}

} // verus!
