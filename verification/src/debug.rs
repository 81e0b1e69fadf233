//! Read-only introspection probes: counts of live entities, allocated
//! blocks and cells, and spawned identifiers, plus a small label type for
//! naming things in diagnostics. Probes read registry state and change
//! nothing.

use vstd::prelude::*;

use crate::world::{Entity, World};

verus! {

/// How many entities are alive right now.
pub fn alive_entity_count(world: &World) -> (r: usize)
    ensures
        r == world.alive_map().dom().len(),
{
    world.alive_count()
}

/// The alive entities, each exactly once, in no particular order.
pub fn alive_entities(world: &World) -> (r: Vec<Entity>)
    ensures
        forall|i: int| 0 <= i < r@.len() ==> world.spec_is_alive(#[trigger] r@[i]),
        forall|i: int, j: int| 0 <= i < j < r@.len() ==> r@[i] != r@[j],
        r@.len() == world.alive_map().dom().len(),
{
    let ids = world.alive_ids();
    let n = ids.len();
    let mut out: Vec<Entity> = Vec::new();
    let mut i: usize = 0;
    while i < n
        invariant
            n == ids@.len(),
            0 <= i <= n,
            ids@.to_set() == world.alive_map().dom(),
            ids@.no_duplicates(),
            out@.len() == i,
            forall|k: int| 0 <= k < i ==> (#[trigger] out@[k]).spec_id() == ids@[k],
        decreases n - i,
    {
        out.push(Entity::from_id(ids[i]));
        proof {
            assert(ids@.to_set().contains(ids@[i as int]));
        }
        i += 1;
    }
    proof {
        assert forall|k: int| 0 <= k < out@.len() implies world.spec_is_alive(#[trigger] out@[k]) by {
            assert(ids@.to_set().contains(ids@[k]));
        }
        assert forall|a: int, b: int| 0 <= a < b < out@.len() implies out@[a] != out@[b] by {
            assert(ids@[a] != ids@[b]);
            crate::world::lemma_entity_id_injective(out@[a], out@[b]);
        }
        ids@.unique_seq_to_set();
    }
    out
}

/// How many entity identifiers have ever been handed out.
pub fn spawned_entity_count(world: &World) -> (r: u64)
    requires
        world.spec_next_id() >= 1,
    ensures
        r == world.spec_next_id() - 1,
{
    world.next_id_probe() - 1
}

/// How many cell blocks the storages have allocated.
pub fn heap_count(world: &World) -> (r: u64)
    ensures
        r == world.spec_heap_count(),
{
    world.heap_count_probe()
}

/// How many storage cells exist across all allocated blocks.
pub fn slot_count(world: &World) -> (r: u64)
    ensures
        r == world.spec_slot_count(),
{
    world.slot_count_probe()
}

/// A human-readable label carried by diagnostics.
#[derive(Clone, Debug)]
pub struct DebugLabel(pub String);

/// Things that can be turned into a diagnostic label.
pub trait AsDebugLabel: Sized {
    fn reify(me: Self) -> String;
}

impl AsDebugLabel for String {
    fn reify(me: Self) -> String {
        me
    }
}

impl AsDebugLabel for &str {
    fn reify(me: Self) -> String {
        me.to_owned()
    }
}

impl DebugLabel {
    pub fn new<L: AsDebugLabel>(value: L) -> DebugLabel {
        DebugLabel(AsDebugLabel::reify(value))
    }

    pub fn text(&self) -> &String {
        &self.0
    }
}

} // verus!
