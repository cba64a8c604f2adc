//! Editing model for articulated structures: joints linked by connectors, with muscles
//! stretched between connectors, and the edit modes that change them.
use vstd::prelude::*;

pub mod adjust;
pub mod controls;
pub mod graph;
pub mod muscle_map;
pub mod selection;
pub mod structure;

verus! {

/// Handle of an entity of the host runtime, held as its raw bits.
#[derive(Clone, Copy, Debug, PartialEq, Eq, Hash, Structural)]
pub struct EntityId(pub u64);

} // verus!
