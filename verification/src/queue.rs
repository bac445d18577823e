//! Putting what is to be drawn on the list of its camera.
use crate::entity::Entity;
use crate::nodes::{ExtractedUiNode, ExtractedUiNodes};
use crate::phase::{SortKey, TransparentUi, UiPipelineKey, ViewPhase};
use crate::scalar::{
    law_rounding_keeps_order, law_small_integers_are_exact, lemma_nearest_exists, rounded, Scalar,
};
use std::ops::Range;
use vstd::arithmetic::power2::pow2;
use vstd::prelude::*;

verus! {

/// What a node is sorted by.
pub open spec fn spec_sort_key(entity: Entity, stack_index: u32) -> SortKey {
    SortKey { stack: Scalar::spec_from_u32(stack_index), index: entity.spec_index() }
}

/// The item of a node on a list.
pub open spec fn spec_item(
    entity: Entity,
    node: ExtractedUiNode,
    hdr: bool,
    draw_function: u32,
) -> TransparentUi {
    TransparentUi {
        sort_key: spec_sort_key(entity, node.stack_index),
        entity,
        pipeline: UiPipelineKey { hdr },
        draw_function,
        batch_range: Range { start: 0, end: 0 },
        dynamic_offset: None,
    }
}

/// Whether a list is the one of a camera: the first that names it.
pub open spec fn is_list_of(phases: Seq<ViewPhase>, camera: Entity, phase: int) -> bool {
    &&& 0 <= phase < phases.len()
    &&& phases[phase].camera == camera
    &&& forall|other: int| 0 <= other < phase ==> (#[trigger] phases[other]).camera != camera
}

/// What comes on a list when the nodes of some entities are queued in order.
pub open spec fn queued(
    order: Seq<Entity>,
    nodes: Map<Entity, ExtractedUiNode>,
    draw_function: u32,
    phases: Seq<ViewPhase>,
    phase: int,
) -> Seq<TransparentUi>
    decreases order.len(),
{
    if order.len() == 0 {
        Seq::empty()
    } else {
        let before = queued(order.drop_last(), nodes, draw_function, phases, phase);
        let entity = order.last();
        if is_list_of(phases, nodes[entity].camera_entity, phase) {
            before.push(spec_item(entity, nodes[entity], phases[phase].hdr, draw_function))
        } else {
            before
        }
    }
}

/// Whether these are the entities of a map, each once.
pub open spec fn is_order_of(order: Seq<Entity>, nodes: Map<Entity, ExtractedUiNode>) -> bool {
    &&& order.no_duplicates()
    &&& forall|entity: Entity| #[trigger] order.contains(entity) <==> nodes.contains_key(entity)
}

/// Whether lists have grown by what was queued.
pub open spec fn grown(
    before: Seq<ViewPhase>,
    after: Seq<ViewPhase>,
    order: Seq<Entity>,
    nodes: Map<Entity, ExtractedUiNode>,
    draw_function: u32,
) -> bool {
    &&& after.len() == before.len()
    &&& forall|p: int|
        0 <= p < before.len() ==> {
            &&& (#[trigger] after[p]).camera == before[p].camera
            &&& after[p].hdr == before[p].hdr
            &&& after[p].items@ == before[p].items@ + queued(
                order,
                nodes,
                draw_function,
                before,
                p,
            )
        }
}

/// The list of a camera, if it has one.
fn find_list(phases: &Vec<ViewPhase>, camera: Entity) -> (r: Option<usize>)
    ensures
        match r {
            Some(phase) => is_list_of(phases@, camera, phase as int),
            None => forall|phase: int|
                0 <= phase < phases@.len() ==> (#[trigger] phases@[phase]).camera != camera,
        },
{
    for p in 0..phases.len()
        invariant
            forall|q: int| 0 <= q < p ==> (#[trigger] phases@[q]).camera != camera,
    {
        if phases[p].camera == camera {
            return Some(p);
        }
    }
    None
}

/// Puts the nodes of some entities on the lists of their cameras, in the given order. A node whose
/// camera has no list is left out.
pub fn queue_in_order(
    extracted_uinodes: &ExtractedUiNodes,
    order: &Vec<Entity>,
    draw_function: u32,
    phases: &mut Vec<ViewPhase>,
)
    requires
        forall|k: int|
            0 <= k < order@.len() ==> extracted_uinodes@.contains_key(#[trigger] order@[k]),
    ensures
        grown(old(phases)@, final(phases)@, order@, extracted_uinodes@, draw_function),
{
    let ghost before = phases@;
    let ghost nodes = extracted_uinodes@;
    proof {
        assert forall|p: int| 0 <= p < before.len() implies (#[trigger] phases@[p]).items@
            == before[p].items@ + queued(order@.take(0), nodes, draw_function, before, p) by {
            assert(before[p].items@ + Seq::<TransparentUi>::empty() =~= before[p].items@);
        }
    }
    for k in 0..order.len()
        invariant
            nodes == extracted_uinodes@,
            forall|j: int| 0 <= j < order@.len() ==> nodes.contains_key(#[trigger] order@[j]),
            grown(before, phases@, order@.take(k as int), nodes, draw_function),
    {
        let entity = order[k];
        let ghost earlier = phases@;
        proof {
            assert(order@[k as int] == entity);
            assert(order@.take(k + 1).drop_last() =~= order@.take(k as int));
            assert(order@.take(k + 1).last() == entity);
        }
        match extracted_uinodes.get(entity) {
            None => {
                assert(false);
            },
            Some(node) => {
                match find_list(phases, node.camera_entity) {
                    None => {
                        assert forall|p: int| 0 <= p < before.len() implies !is_list_of(
                            before,
                            node.camera_entity,
                            p,
                        ) by {
                            assert(phases@[p].camera == before[p].camera);
                        }
                    },
                    Some(p) => {
                        let item = TransparentUi {
                            sort_key: SortKey {
                                stack: Scalar::from_u32(node.stack_index),
                                index: entity.index(),
                            },
                            entity,
                            pipeline: UiPipelineKey { hdr: phases[p].hdr },
                            draw_function,
                            batch_range: Range { start: 0, end: 0 },
                            dynamic_offset: None,
                        };
                        phases[p].items.push(item);
                        proof {
                            assert(item == spec_item(
                                entity,
                                node,
                                before[p as int].hdr,
                                draw_function,
                            ));
                            assert forall|q: int| 0 <= q < before.len() implies (is_list_of(
                                before,
                                node.camera_entity,
                                q,
                            ) <==> q == p) by {
                                assert(earlier[q].camera == before[q].camera);
                                assert forall|o: int| 0 <= o < p implies (
                                #[trigger] before[o]).camera != node.camera_entity by {
                                    assert(earlier[o].camera == before[o].camera);
                                }
                                assert(earlier[p as int].camera == before[p as int].camera);
                            }
                        }
                    },
                }
            },
        }
        proof {
            assert forall|p: int| 0 <= p < before.len() implies {
                &&& (#[trigger] phases@[p]).camera == before[p].camera
                &&& phases@[p].hdr == before[p].hdr
                &&& phases@[p].items@ == before[p].items@ + queued(
                    order@.take(k + 1),
                    nodes,
                    draw_function,
                    before,
                    p,
                )
            } by {
                assert(earlier[p].camera == before[p].camera);
                assert(phases@[p].items@ =~= before[p].items@ + queued(
                    order@.take(k + 1),
                    nodes,
                    draw_function,
                    before,
                    p,
                ));
            }
        }
    }
    assert(order@.take(order@.len() as int) =~= order@);
}

/// Puts each node on the list of its camera. A node whose camera has no list is left out. Nodes
/// come on a list in no particular order; they are sorted later.
pub fn queue_uinodes(
    extracted_uinodes: &ExtractedUiNodes,
    draw_function: u32,
    phases: &mut Vec<ViewPhase>,
)
    ensures
        exists|order: Seq<Entity>|
            #[trigger] is_order_of(order, extracted_uinodes@) && grown(
                old(phases)@,
                final(phases)@,
                order,
                extracted_uinodes@,
                draw_function,
            ),
{
    let order = extracted_uinodes.entities();
    assert forall|k: int| 0 <= k < order@.len() implies extracted_uinodes@.contains_key(
        #[trigger] order@[k],
    ) by {
        assert(order@.contains(order@[k]));
    }
    assert(is_order_of(order@, extracted_uinodes@));
    queue_in_order(extracted_uinodes, &order, draw_function, phases);
}

impl SortKey {
    /// Whether an item with this key is drawn before one with the other, once they are sorted.
    pub open spec fn is_before(self, other: SortKey) -> bool {
        ||| self.stack.less(other.stack)
        ||| self.stack.same(other.stack) && self.index < other.index
    }
}

/// What was queued is what the camera of the list is to draw, each node once.
pub proof fn law_nodes_are_queued_once(
    order: Seq<Entity>,
    nodes: Map<Entity, ExtractedUiNode>,
    draw_function: u32,
    phases: Seq<ViewPhase>,
    phase: int,
)
    requires
        order.no_duplicates(),
        forall|entity: Entity| #[trigger] order.contains(entity) ==> nodes.contains_key(entity),
    ensures
        ({
            let items = queued(order, nodes, draw_function, phases, phase);
            &&& forall|i: int, j: int|
                #![trigger items[i], items[j]]
                0 <= i < j < items.len() ==> items[i].entity != items[j].entity
            &&& forall|i: int|
                #![trigger items[i]]
                0 <= i < items.len() ==> {
                    let entity = items[i].entity;
                    &&& order.contains(entity)
                    &&& is_list_of(phases, nodes[entity].camera_entity, phase)
                    &&& items[i] == spec_item(
                        entity,
                        nodes[entity],
                        phases[phase].hdr,
                        draw_function,
                    )
                }
            &&& forall|entity: Entity|
                #[trigger] order.contains(entity) && is_list_of(
                    phases,
                    nodes[entity].camera_entity,
                    phase,
                ) ==> exists|i: int| 0 <= i < items.len() && (#[trigger] items[i]).entity == entity
        }),
    decreases order.len(),
{
    if order.len() > 0 {
        let rest = order.drop_last();
        let last = order.last();
        let before = queued(rest, nodes, draw_function, phases, phase);
        let items = queued(order, nodes, draw_function, phases, phase);
        assert forall|entity: Entity| order.contains(entity) <==> (#[trigger] rest.contains(entity)
            || entity == last) by {
            if order.contains(entity) && entity != last {
                let k = choose|k: int| 0 <= k < order.len() && order[k] == entity;
                assert(rest[k] == entity);
            }
            if rest.contains(entity) {
                let k = choose|k: int| 0 <= k < rest.len() && rest[k] == entity;
                assert(order[k] == entity);
            }
            if entity == last {
                assert(order[order.len() - 1] == last);
            }
        }
        assert forall|entity: Entity| #[trigger] rest.contains(entity) implies nodes.contains_key(
            entity,
        ) by {
            assert(order.contains(entity));
        }
        assert(!rest.contains(last)) by {
            if rest.contains(last) {
                let k = choose|k: int| 0 <= k < rest.len() && rest[k] == last;
                assert(order[k] == order[order.len() - 1]);
            }
        }
        law_nodes_are_queued_once(rest, nodes, draw_function, phases, phase);
        assert forall|i: int|
            #![trigger items[i]]
            0 <= i < before.len() implies items[i] == before[i] by {
        }
        assert forall|entity: Entity|
            #[trigger] order.contains(entity) && is_list_of(
                phases,
                nodes[entity].camera_entity,
                phase,
            ) implies exists|i: int|
            0 <= i < items.len() && (#[trigger] items[i]).entity == entity by {
            if entity == last {
                assert(items[before.len() as int].entity == entity);
            } else {
                assert(rest.contains(entity));
                let i = choose|i: int| 0 <= i < before.len() && (#[trigger] before[i]).entity
                    == entity;
                assert(items[i].entity == entity);
            }
        }
        assert forall|i: int, j: int|
            #![trigger items[i], items[j]]
            0 <= i < j < items.len() implies items[i].entity != items[j].entity by {
            assert(before[i] == items[i]);
            assert(rest.contains(before[i].entity));
            if j < before.len() {
                assert(before[j] == items[j]);
            }
        }
        assert forall|i: int|
            #![trigger items[i]]
            0 <= i < items.len() implies {
            let entity = items[i].entity;
            &&& order.contains(entity)
            &&& is_list_of(phases, nodes[entity].camera_entity, phase)
            &&& items[i] == spec_item(entity, nodes[entity], phases[phase].hdr, draw_function)
        } by {
            if i < before.len() {
                assert(before[i] == items[i]);
                assert(rest.contains(before[i].entity));
            }
        }
    }
}

/// A node that is further up in the stack is not drawn before one that is further down, unless the
/// two are so far up that their places are the same number.
pub proof fn law_stack_decides_the_order(a: Entity, m: u32, b: Entity, n: u32)
    requires
        m < n,
        spec_sort_key(b, n).is_before(spec_sort_key(a, m)),
    ensures
        rounded(m as nat) == rounded(n as nat),
        n > 0x100_0000,
{
    lemma_nearest_exists(m);
    lemma_nearest_exists(n);
    law_rounding_keeps_order(m as nat, n as nat);
    let unit = pow2(149);
    vstd::arithmetic::power2::lemma_pow2_pos(149);
    let p = rounded(m as nat);
    let q = rounded(n as nat);
    if p < q {
        assert(p * unit < q * unit) by (nonlinear_arith)
            requires
                p < q,
                unit > 0,
        ;
    }
    if n <= 0x100_0000 {
        law_small_integers_are_exact(m as nat);
        law_small_integers_are_exact(n as nat);
    }
}

/// Of two nodes whose entities live at the same time, one is drawn before the other.
pub proof fn law_order_is_decided(a: Entity, m: u32, b: Entity, n: u32)
    requires
        a.spec_index() != b.spec_index(),
    ensures
        spec_sort_key(a, m).is_before(spec_sort_key(b, n)) <==> !spec_sort_key(b, n).is_before(
            spec_sort_key(a, m),
        ),
{
    lemma_nearest_exists(m);
    lemma_nearest_exists(n);
}

/// Queueing leaves all that is on a list where it is, and changes neither the camera of a list nor
/// how it is drawn.
pub proof fn law_queueing_keeps_what_is_there(
    before: Seq<ViewPhase>,
    after: Seq<ViewPhase>,
    order: Seq<Entity>,
    nodes: Map<Entity, ExtractedUiNode>,
    draw_function: u32,
    p: int,
)
    requires
        grown(before, after, order, nodes, draw_function),
        0 <= p < before.len(),
    ensures
        after.len() == before.len(),
        after[p].camera == before[p].camera,
        after[p].hdr == before[p].hdr,
        before[p].items@.is_prefix_of(after[p].items@),
{
}

/// What queueing puts on a list is a node whose camera is that of the list, and which no earlier
/// list is for. It is sorted by the number nearest to its place in the stack and then by the index
/// of its entity, is drawn as the camera is, and counts nothing yet.
pub proof fn law_queued_items_are_of_nodes(
    before: Seq<ViewPhase>,
    after: Seq<ViewPhase>,
    order: Seq<Entity>,
    nodes: Map<Entity, ExtractedUiNode>,
    draw_function: u32,
    p: int,
    i: int,
)
    requires
        grown(before, after, order, nodes, draw_function),
        is_order_of(order, nodes),
        0 <= p < before.len(),
        before[p].items@.len() <= i < after[p].items@.len(),
    ensures
        ({
            let item = after[p].items@[i];
            let node = nodes[item.entity];
            &&& nodes.contains_key(item.entity)
            &&& node.camera_entity == before[p].camera
            &&& forall|q: int| 0 <= q < p ==> (#[trigger] before[q]).camera != node.camera_entity
            &&& item.sort_key.stack.is_nearest(node.stack_index as nat)
            &&& node.stack_index <= 0x100_0000 ==> item.sort_key.stack.value()
                == node.stack_index * pow2(149)
            &&& item.sort_key.index == item.entity@ % 0x1_0000_0000
            &&& item.pipeline.hdr == before[p].hdr
            &&& item.draw_function == draw_function
            &&& item.batch_range.start == 0 && item.batch_range.end == 0
            &&& item.dynamic_offset is None
        }),
{
    let added = queued(order, nodes, draw_function, before, p);
    law_nodes_are_queued_once(order, nodes, draw_function, before, p);
    let at = i - before[p].items@.len();
    assert(after[p].items@[i] == added[at]);
    let node = nodes[added[at].entity];
    assert(order.contains(added[at].entity));
    lemma_nearest_exists(node.stack_index);
    if node.stack_index <= 0x100_0000 {
        law_small_integers_are_exact(node.stack_index as nat);
    }
}

/// A node is put on the first list that is for its camera, once.
pub proof fn law_every_node_is_queued(
    before: Seq<ViewPhase>,
    after: Seq<ViewPhase>,
    order: Seq<Entity>,
    nodes: Map<Entity, ExtractedUiNode>,
    draw_function: u32,
    p: int,
    entity: Entity,
) -> (i: int)
    requires
        grown(before, after, order, nodes, draw_function),
        is_order_of(order, nodes),
        0 <= p < before.len(),
        nodes.contains_key(entity),
        before[p].camera == nodes[entity].camera_entity,
        forall|q: int|
            0 <= q < p ==> (#[trigger] before[q]).camera != nodes[entity].camera_entity,
    ensures
        before[p].items@.len() <= i < after[p].items@.len(),
        after[p].items@[i].entity == entity,
        forall|j: int|
            before[p].items@.len() <= j < after[p].items@.len() && j != i ==> (
            #[trigger] after[p].items@[j]).entity != entity,
{
    let added = queued(order, nodes, draw_function, before, p);
    law_nodes_are_queued_once(order, nodes, draw_function, before, p);
    let start = before[p].items@.len();
    assert(order.contains(entity));
    assert(is_list_of(before, nodes[entity].camera_entity, p));
    let k = choose|k: int| 0 <= k < added.len() && (#[trigger] added[k]).entity == entity;
    assert forall|j: int| start <= j < after[p].items@.len() && j != start + k implies (
    #[trigger] after[p].items@[j]).entity != entity by {
        assert(after[p].items@[j] == added[j - start]);
        if j - start < k {
            assert(added[j - start].entity != added[k].entity);
        } else {
            assert(added[k].entity != added[j - start].entity);
        }
    }
    start + k
}

/// Of two nodes that are put on one list, the one that is further down in the stack is drawn before
/// the other, as long as the places in the stack are no more than 2^24; and of two at the same
/// place, the one whose entity has the smaller index.
pub proof fn law_queued_items_are_drawn_in_order(
    before: Seq<ViewPhase>,
    after: Seq<ViewPhase>,
    order: Seq<Entity>,
    nodes: Map<Entity, ExtractedUiNode>,
    draw_function: u32,
    p: int,
    i: int,
    j: int,
)
    requires
        grown(before, after, order, nodes, draw_function),
        is_order_of(order, nodes),
        0 <= p < before.len(),
        before[p].items@.len() <= i < after[p].items@.len(),
        before[p].items@.len() <= j < after[p].items@.len(),
    ensures
        ({
            let (a, b) = (after[p].items@[i], after[p].items@[j]);
            let (m, n) = (nodes[a.entity].stack_index, nodes[b.entity].stack_index);
            &&& m < n <= 0x100_0000 ==> a.sort_key.is_before(b.sort_key)
                && a.sort_key.stack.value() < b.sort_key.stack.value()
            &&& m <= n ==> a.sort_key.stack.value() <= b.sort_key.stack.value()
            &&& m == n && a.entity@ % 0x1_0000_0000 < b.entity@ % 0x1_0000_0000
                ==> a.sort_key.is_before(b.sort_key)
        }),
{
    law_queued_items_are_of_nodes(before, after, order, nodes, draw_function, p, i);
    law_queued_items_are_of_nodes(before, after, order, nodes, draw_function, p, j);
    let (a, b) = (after[p].items@[i], after[p].items@[j]);
    let (m, n) = (nodes[a.entity].stack_index, nodes[b.entity].stack_index);
    let unit = pow2(149);
    vstd::arithmetic::power2::lemma_pow2_pos(149);
    if m < n <= 0x100_0000 {
        assert(m * unit < n * unit) by (nonlinear_arith)
            requires
                m < n,
                unit > 0,
        ;
    }
    if m <= n {
        law_rounding_keeps_order(m as nat, n as nat);
        let (r, s) = (rounded(m as nat), rounded(n as nat));
        assert(r * unit <= s * unit) by (nonlinear_arith)
            requires
                r <= s,
        ;
    }
}

/// An item is drawn before another if its place in the stack is the smaller number, and of two at
/// the same place if its index is smaller; never both before and after it.
pub proof fn law_order_of_sort_keys(a: SortKey, b: SortKey)
    requires
        !a.stack.is_nan(),
        !b.stack.is_nan(),
    ensures
        a.stack.value() < b.stack.value() ==> a.is_before(b) && !b.is_before(a),
        a.stack.value() == b.stack.value() && a.index < b.index ==> a.is_before(b)
            && !b.is_before(a),
{
}

} // verus!
