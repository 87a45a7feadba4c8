//! Spawning pool: entities identified by plain integers, with typed
//! components attached to them, one storage backend per component type.
use vstd::prelude::*;

pub mod laws;
pub mod pool;
pub mod storage;

verus! {

/// Identifier of an entity.
pub type EntityId = u64;

} // verus!
