//! A verified core for a data-oriented simulation substrate.
//!
//! Typed values ("components") are attached to opaque identifiers
//! ("entities"); entities are grouped by the exact set of component kinds
//! they carry ("archetypes"); and every read or write of stored data is
//! gated by a capability object ("token") plus a dynamic borrow check on
//! the storage cell that holds the value.

pub mod debug;
pub mod set;
pub mod storage;
pub mod table;
pub mod token;
pub mod token_cell;
pub mod world;

pub use debug::{
    alive_entities, alive_entity_count, heap_count, slot_count, spawned_entity_count, AsDebugLabel,
    DebugLabel,
};
pub use set::{contains_key, eq_iter, filter_out, merge_iters, SetMap, SetMapEntry};
pub use storage::{get_entity, synced, try_get_entity, AccessError, Storage, BLOCK_SLOTS};
pub use table::hash_iter;
pub use token::{MainThreadToken, Mutability, Namespace, ReadToken, Runtime, ThreadAccess, Token};
pub use token_cell::{
    grants_read, grants_write, BorrowError, BorrowMutError, BorrowState, MainThreadJail, NMainCell,
    NOptRefCell,
};
pub use world::{Entity, OwnedEntity, World};
