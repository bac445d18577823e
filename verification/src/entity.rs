//! Identifiers of the things that are drawn and of the cameras that they are drawn to.
use vstd::prelude::*;

verus! {

/// The identifier of an entity of the world, held as the bits that stand for it there.
#[derive(Clone, Copy, PartialEq, Eq, Structural, Debug)]
pub struct Entity {
    bits: u64,
}

/// Whether bits stand for an entity: the upper half is a generation, which is not zero and leaves
/// its highest bit clear.
pub open spec fn is_entity(bits: u64) -> bool {
    0x1_0000_0000 <= bits < 0x8000_0000_0000_0000
}

impl View for Entity {
    type V = u64;

    closed spec fn view(&self) -> u64 {
        self.bits
    }
}

/// Calls `Entity::try_from_bits` of `bevy_ecs` and says whether it made an entity. It does so for
/// the bits whose upper half is neither zero nor has its highest bit set.
#[verifier::external_body]
fn bits_make_an_entity(bits: u64) -> (r: bool)
    ensures
        r == is_entity(bits),
{
    bevy_ecs::entity::Entity::try_from_bits(bits).is_ok()
}

/// Calls `Entity::index` of `bevy_ecs` on the entity that the bits stand for, which is the lower
/// half of the bits.
#[verifier::external_body]
fn index_of_bits(bits: u64) -> (r: u32)
    requires
        is_entity(bits),
    ensures
        r == bits % 0x1_0000_0000,
{
    bevy_ecs::entity::Entity::from_bits(bits).index()
}

impl Entity {
    #[verifier::type_invariant]
    spec fn is_valid(self) -> bool {
        is_entity(self.bits)
    }

    /// The entity that bits stand for, if they stand for one.
    pub fn try_from_bits(bits: u64) -> (r: Option<Entity>)
        ensures
            r is Some <==> is_entity(bits),
            r matches Some(entity) ==> entity@ == bits,
    {
        if bits_make_an_entity(bits) {
            Some(Entity { bits })
        } else {
            None
        }
    }

    /// The bits that stand for the entity.
    pub fn to_bits(self) -> (r: u64)
        ensures
            r == self@,
            is_entity(r),
    {
        proof {
            use_type_invariant(&self);
        }
        self.bits
    }

    /// The index of the entity, by which no two entities that live at the same time agree.
    pub fn index(self) -> (r: u32)
        ensures
            r == self.spec_index(),
    {
        proof {
            use_type_invariant(&self);
        }
        index_of_bits(self.bits)
    }

    /// The lower half of the bits.
    pub open spec fn spec_index(self) -> u32 {
        (self@ % 0x1_0000_0000) as u32
    }
}

/// Entities with the same bits are the same.
pub proof fn lemma_entity_is_its_bits(a: Entity, b: Entity)
    ensures
        a@ == b@ <==> a == b,
{
}

} // verus!
