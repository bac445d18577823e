//! What is left of the nodes of an interface when they are to be drawn.
use crate::entity::{is_entity, lemma_entity_is_its_bits, Entity};
use crate::geometry::{Color, Mat4, Rect, Vec2};
use crate::image::ImageId;
use vstd::prelude::*;

verus! {

/// A rectangle to draw.
#[derive(Clone, Copy, PartialEq, Eq, Structural, Debug)]
pub struct ExtractedUiNode {
    /// The place of the node in the order of drawing. Later nodes hide earlier ones.
    pub stack_index: u32,
    /// From the rectangle around the origin to where it is drawn.
    pub transform: Mat4,
    pub color: Color,
    /// The part of the image, or of the atlas, that is drawn.
    pub rect: Rect,
    pub image: ImageId,
    /// The size of the atlas that the image is part of.
    pub atlas_size: Option<Vec2>,
    /// What the node is cut off at.
    pub clip: Option<Rect>,
    pub flip_x: bool,
    pub flip_y: bool,
    /// The camera that the node is drawn to.
    pub camera_entity: Entity,
}

/// A hash map of `bevy_ecs` from entities to nodes.
#[verifier::external_body]
pub struct EntityNodeMap {
    inner: bevy_ecs::entity::EntityHashMap<ExtractedUiNode>,
}

/// What a hash map holds, by the bits of the entities.
pub uninterp spec fn entity_nodes(map: EntityNodeMap) -> Map<u64, ExtractedUiNode>;

impl EntityNodeMap {
    /// Calls `EntityHashMap::default` of `bevy_ecs`, which makes an empty map.
    #[verifier::external_body]
    fn new() -> (r: EntityNodeMap)
        ensures
            entity_nodes(r).dom() == Set::<u64>::empty(),
    {
        EntityNodeMap { inner: bevy_ecs::entity::EntityHashMap::default() }
    }

    /// Calls `EntityHashMap::insert` of `bevy_ecs`, which puts a node under an entity, in place of
    /// the one that was there.
    #[verifier::external_body]
    fn insert(&mut self, bits: u64, node: ExtractedUiNode)
        requires
            is_entity(bits),
        ensures
            entity_nodes(*final(self)) == entity_nodes(*old(self)).insert(bits, node),
    {
        self.inner.insert(bevy_ecs::entity::Entity::from_bits(bits), node);
    }

    /// Calls `EntityHashMap::get` of `bevy_ecs`, which finds the node of an entity, if it has one.
    #[verifier::external_body]
    fn get(&self, bits: u64) -> (r: Option<ExtractedUiNode>)
        requires
            is_entity(bits),
        ensures
            r == (if entity_nodes(*self).contains_key(bits) {
                Some(entity_nodes(*self)[bits])
            } else {
                None
            }),
    {
        self.inner.get(&bevy_ecs::entity::Entity::from_bits(bits)).copied()
    }

    /// Calls `EntityHashMap::iter` of `bevy_ecs`, which hands out each entity of the map once. In
    /// which order is left open.
    #[verifier::external_body]
    fn bits(&self) -> (r: Vec<u64>)
        ensures
            r@.no_duplicates(),
            forall|bits: u64| r@.contains(bits) <==> entity_nodes(*self).contains_key(bits),
            forall|i: int| 0 <= i < r@.len() ==> is_entity(#[trigger] r@[i]),
    {
        self.inner.iter().map(|(entity, _)| entity.to_bits()).collect()
    }

    /// Calls `EntityHashMap::clear` of `bevy_ecs`, which empties the map.
    #[verifier::external_body]
    fn clear(&mut self)
        ensures
            entity_nodes(*final(self)).dom() == Set::<u64>::empty(),
    {
        self.inner.clear();
    }
}

/// The nodes that are to be drawn, by their entities.
pub struct ExtractedUiNodes {
    uinodes: EntityNodeMap,
}

impl View for ExtractedUiNodes {
    type V = Map<Entity, ExtractedUiNode>;

    closed spec fn view(&self) -> Map<Entity, ExtractedUiNode> {
        Map::new(
            |entity: Entity| entity_nodes(self.uinodes).contains_key(entity@),
            |entity: Entity| entity_nodes(self.uinodes)[entity@],
        )
    }
}

/// What a map holds under an entity.
pub open spec fn lookup(nodes: Map<Entity, ExtractedUiNode>, entity: Entity) -> Option<
    ExtractedUiNode,
> {
    if nodes.contains_key(entity) {
        Some(nodes[entity])
    } else {
        None
    }
}

impl ExtractedUiNodes {
    /// No nodes.
    pub fn new() -> (r: ExtractedUiNodes)
        ensures
            r@ == Map::<Entity, ExtractedUiNode>::empty(),
    {
        let r = ExtractedUiNodes { uinodes: EntityNodeMap::new() };
        assert(r@ =~= Map::<Entity, ExtractedUiNode>::empty());
        r
    }

    /// Puts a node under an entity, in place of the one that was there.
    pub fn insert(&mut self, entity: Entity, node: ExtractedUiNode)
        ensures
            final(self)@ == old(self)@.insert(entity, node),
    {
        self.uinodes.insert(entity.to_bits(), node);
        proof {
            assert forall|other: Entity| other@ == entity@ implies other == entity by {
                lemma_entity_is_its_bits(other, entity);
            }
            assert(self@ =~= old(self)@.insert(entity, node));
        }
    }

    /// Puts in some nodes, in order.
    pub fn insert_all(&mut self, entries: &Vec<(Entity, ExtractedUiNode)>)
        ensures
            final(self)@ == with_all(old(self)@, entries@),
    {
        let ghost before = self@;
        for k in 0..entries.len()
            invariant
                self@ == with_all(before, entries@.take(k as int)),
        {
            let (entity, node) = entries[k];
            proof {
                assert(entries@.take(k + 1) =~= entries@.take(k as int).push((entity, node)));
                lemma_with_all_push(before, entries@.take(k as int), entity, node);
            }
            self.insert(entity, node);
        }
        assert(entries@.take(entries@.len() as int) =~= entries@);
    }

    /// The node of an entity.
    pub fn get(&self, entity: Entity) -> (r: Option<ExtractedUiNode>)
        ensures
            r == lookup(self@, entity),
    {
        self.uinodes.get(entity.to_bits())
    }

    /// Each entity that has a node, once, in no particular order.
    pub fn entities(&self) -> (r: Vec<Entity>)
        ensures
            r@.no_duplicates(),
            forall|entity: Entity| #[trigger] r@.contains(entity) <==> self@.contains_key(entity),
    {
        let bits = self.uinodes.bits();
        let mut r: Vec<Entity> = Vec::new();
        for i in 0..bits.len()
            invariant
                r@.len() == i,
                forall|j: int| 0 <= j < i ==> (#[trigger] r@[j])@ == bits@[j],
                forall|j: int| 0 <= j < bits@.len() ==> is_entity(#[trigger] bits@[j]),
        {
            match Entity::try_from_bits(bits[i]) {
                Some(entity) => r.push(entity),
                None => {
                    assert(false);
                },
            }
        }
        proof {
            assert forall|entity: Entity| #[trigger] r@.contains(entity) <==> self@.contains_key(
                entity,
            ) by {
                if r@.contains(entity) {
                    let j = choose|j: int| 0 <= j < r@.len() && r@[j] == entity;
                    assert(bits@[j] == entity@);
                    assert(bits@.contains(entity@));
                }
                if self@.contains_key(entity) {
                    assert(bits@.contains(entity@));
                    let j = choose|j: int| 0 <= j < bits@.len() && bits@[j] == entity@;
                    lemma_entity_is_its_bits(r@[j], entity);
                    assert(r@[j] == entity);
                }
            }
        }
        r
    }

    /// Removes all nodes.
    pub fn clear(&mut self)
        ensures
            final(self)@ == Map::<Entity, ExtractedUiNode>::empty(),
    {
        self.uinodes.clear();
        assert(self@ =~= Map::<Entity, ExtractedUiNode>::empty());
    }
}

impl Default for ExtractedUiNodes {
    fn default() -> (r: ExtractedUiNodes)
        ensures
            r@ == Map::<Entity, ExtractedUiNode>::empty(),
    {
        ExtractedUiNodes::new()
    }
}

/// The nodes after some others were put in, in order.
pub open spec fn with_all(
    nodes: Map<Entity, ExtractedUiNode>,
    entries: Seq<(Entity, ExtractedUiNode)>,
) -> Map<Entity, ExtractedUiNode>
    decreases entries.len(),
{
    if entries.len() == 0 {
        nodes
    } else {
        with_all(nodes, entries.drop_last()).insert(entries.last().0, entries.last().1)
    }
}

/// Putting in one node more.
pub proof fn lemma_with_all_push(
    nodes: Map<Entity, ExtractedUiNode>,
    entries: Seq<(Entity, ExtractedUiNode)>,
    entity: Entity,
    node: ExtractedUiNode,
)
    ensures
        with_all(nodes, entries.push((entity, node))) == with_all(nodes, entries).insert(
            entity,
            node,
        ),
{
    assert(entries.push((entity, node)).drop_last() =~= entries);
}

/// Putting in some nodes, and then others.
pub proof fn lemma_with_all_concat(
    nodes: Map<Entity, ExtractedUiNode>,
    first: Seq<(Entity, ExtractedUiNode)>,
    second: Seq<(Entity, ExtractedUiNode)>,
)
    ensures
        with_all(nodes, first + second) == with_all(with_all(nodes, first), second),
    decreases second.len(),
{
    if second.len() == 0 {
        assert(first + second =~= first);
    } else {
        assert((first + second).drop_last() =~= first + second.drop_last());
        assert((first + second).last() == second.last());
        lemma_with_all_concat(nodes, first, second.drop_last());
    }
}

/// A node that is put in is there, unless another is put in later under its entity.
pub proof fn law_last_node_stays(
    nodes: Map<Entity, ExtractedUiNode>,
    entries: Seq<(Entity, ExtractedUiNode)>,
    k: int,
)
    requires
        0 <= k < entries.len(),
        forall|j: int| k < j < entries.len() ==> (#[trigger] entries[j]).0 != entries[k].0,
    ensures
        lookup(with_all(nodes, entries), entries[k].0) == Some(entries[k].1),
    decreases entries.len(),
{
    if k < entries.len() - 1 {
        let rest = entries.drop_last();
        assert forall|j: int| k < j < rest.len() implies (#[trigger] rest[j]).0 != rest[k].0 by {
            assert(rest[j] == entries[j]);
        }
        law_last_node_stays(nodes, rest, k);
        assert(entries[entries.len() - 1].0 != entries[k].0);
    }
}

/// What is under an entity that a node is put in for does not depend on what was there.
proof fn lemma_put_in_regardless(
    a: Map<Entity, ExtractedUiNode>,
    b: Map<Entity, ExtractedUiNode>,
    entries: Seq<(Entity, ExtractedUiNode)>,
    j: int,
)
    requires
        0 <= j < entries.len(),
    ensures
        lookup(with_all(a, entries), entries[j].0) is Some,
        lookup(with_all(a, entries), entries[j].0) == lookup(with_all(b, entries), entries[j].0),
    decreases entries.len(),
{
    if j < entries.len() - 1 {
        lemma_put_in_regardless(a, b, entries.drop_last(), j);
    }
}

/// Putting in the same nodes twice is the same as putting them in once.
pub proof fn law_same_nodes_twice_change_nothing(
    nodes: Map<Entity, ExtractedUiNode>,
    entries: Seq<(Entity, ExtractedUiNode)>,
)
    ensures
        with_all(with_all(nodes, entries), entries) == with_all(nodes, entries),
{
    let once = with_all(nodes, entries);
    let twice = with_all(once, entries);
    assert forall|entity: Entity| #[trigger] lookup(twice, entity) == lookup(once, entity) by {
        if exists|j: int| 0 <= j < entries.len() && (#[trigger] entries[j]).0 == entity {
            let j = choose|j: int| 0 <= j < entries.len() && (#[trigger] entries[j]).0 == entity;
            lemma_put_in_regardless(once, nodes, entries, j);
        } else {
            law_other_nodes_stay(once, entries, entity);
        }
    }
    assert forall|entity: Entity| twice.contains_key(entity) == #[trigger] once.contains_key(
        entity,
    ) by {
        assert(lookup(twice, entity) == lookup(once, entity));
    }
    assert forall|entity: Entity| #[trigger] once.contains_key(entity) implies twice[entity]
        == once[entity] by {
        assert(lookup(twice, entity) == lookup(once, entity));
    }
    assert(twice =~= once);
}

/// Nothing changes under an entity that no node is put in for.
pub proof fn law_other_nodes_stay(
    nodes: Map<Entity, ExtractedUiNode>,
    entries: Seq<(Entity, ExtractedUiNode)>,
    entity: Entity,
)
    requires
        forall|j: int| 0 <= j < entries.len() ==> (#[trigger] entries[j]).0 != entity,
    ensures
        lookup(with_all(nodes, entries), entity) == lookup(nodes, entity),
    decreases entries.len(),
{
    if entries.len() > 0 {
        let rest = entries.drop_last();
        assert forall|j: int| 0 <= j < rest.len() implies (#[trigger] rest[j]).0 != entity by {
            assert(rest[j] == entries[j]);
        }
        law_other_nodes_stay(nodes, rest, entity);
        assert(entries[entries.len() - 1].0 != entity);
    }
}

} // verus!
