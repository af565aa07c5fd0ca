//! An entity handle as the world issues it: a slot and the generation that
//! slot was on when the entity was made, so a handle to a despawned entity
//! never names its slot's next occupant.

use vstd::prelude::*;

verus! {

#[derive(Clone, Copy, PartialEq, Eq, Structural, Hash, Debug)]
pub struct Entity {
    pub index: u32,
    pub generation: u32,
}

/// The order entities are compared in: by slot, then by generation.
pub open spec fn entity_le(a: Entity, b: Entity) -> bool {
    a.index < b.index || (a.index == b.index && a.generation <= b.generation)
}

} // verus!
