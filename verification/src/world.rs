//! The entity registry: the alive-set, mapping each live entity to its
//! current canonical archetype node in the directory, plus the debug
//! counters the introspection probes report.
//!
//! Entity identifiers are allocated from a counter and never reused, so a
//! destroyed entity can never be confused with a later one. Destruction
//! hands back the entity's component-kind list so each kind's storage can
//! replay its untracked removal.

use vstd::prelude::*;

use crate::set::SetMap;
use crate::table::{key_map_view, KeyMap};
use crate::token::MainThreadToken;

verus! {

/// An opaque, never-reused entity identifier. Identity only: no payload.
#[derive(Clone, Copy, Debug, PartialEq, Eq, Hash, Structural)]
pub struct Entity {
    id: u64,
}

impl Entity {
    pub closed spec fn spec_id(self) -> u64 {
        self.id
    }

    pub fn id(self) -> (r: u64)
        ensures
            r == self.spec_id(),
    {
        self.id
    }

    /// Rebuild an entity value from a raw identifier, for callers that
    /// stored the identifier alone. Whether it names a live entity is
    /// still the registry's to say.
    pub fn from_id(id: u64) -> (r: Entity)
        ensures
            r.spec_id() == id,
    {
        Entity { id }
    }
}

/// An entity is nothing but its identifier: two entities are the same
/// exactly when their identifiers are.
pub proof fn lemma_entity_id_injective(a: Entity, b: Entity)
    ensures
        (a == b) <==> (a.spec_id() == b.spec_id()),
{
}

/// The set of component kinds of an entity that carries none.
pub open spec fn empty_kind_set() -> Set<u64> {
    Set::empty()
}

/// The registry: alive entities, the archetype directory they point into,
/// and the debug counters.
pub struct World {
    alive: KeyMap,
    dir: SetMap,
    next_id: u64,
    heaps: u64,
    slots: u64,
}

impl World {
    pub closed spec fn alive_map(self) -> Map<u64, usize> {
        key_map_view(self.alive)
    }

    pub open spec fn spec_is_alive(self, e: Entity) -> bool {
        self.alive_map().contains_key(e.spec_id())
    }

    /// The archetype node an alive entity currently points at. Node
    /// handles are canonical: equal handle means equal kind set, and the
    /// other way round.
    pub closed spec fn node_of_spec(self, e: Entity) -> usize {
        self.alive_map()[e.spec_id()]
    }

    /// The canonical sorted component-kind sequence of an alive entity.
    pub closed spec fn archetype_keys(self, e: Entity) -> Seq<u64> {
        self.dir.keys_of(self.node_of_spec(e))
    }

    /// The component-kind set of an alive entity.
    pub open spec fn archetype_set(self, e: Entity) -> Set<u64> {
        self.archetype_keys(e).to_set()
    }

    pub closed spec fn spec_next_id(self) -> u64 {
        self.next_id
    }

    pub closed spec fn spec_heap_count(self) -> u64 {
        self.heaps
    }

    pub closed spec fn spec_slot_count(self) -> u64 {
        self.slots
    }

    /// How many canonical archetype nodes exist.
    pub closed spec fn spec_node_count(self) -> nat {
        self.dir.node_count()
    }

    pub closed spec fn wf(self) -> bool {
        &&& self.dir.wf()
        &&& self.dir.valid(self.dir.spec_root())
        &&& self.dir.keys_of(self.dir.spec_root()).len() == 0
        &&& self.next_id >= 1
        &&& self.alive_map().dom().finite()
        &&& forall|id: u64|
            #[trigger] self.alive_map().contains_key(id) ==> 1 <= id < self.next_id
                && self.dir.valid(self.alive_map()[id])
    }

    /// Entities other than `e` are untouched: still alive, still pointing
    /// at the same archetype node, which still spells the same kind list.
    pub open spec fn others_unchanged(pre: World, post: World, e: Entity) -> bool {
        forall|e2: Entity|
            pre.spec_is_alive(e2) && e2 != e ==> post.spec_is_alive(e2) && post.node_of_spec(e2)
                == pre.node_of_spec(e2) && post.archetype_keys(e2) == pre.archetype_keys(e2)
    }

    /// A fresh registry: no entities, a directory holding only the root
    /// (empty) archetype, all counters at zero.
    pub fn new() -> (r: World)
        ensures
            r.wf(),
            r.alive_map() == Map::<u64, usize>::empty(),
            r.spec_next_id() == 1,
            r.spec_heap_count() == 0,
            r.spec_slot_count() == 0,
            r.spec_node_count() == 1,
    {
        World { alive: KeyMap::new(), dir: SetMap::new(), next_id: 1, heaps: 0, slots: 0 }
    }

    /// Allocate a fresh entity, alive and bound to the root (empty)
    /// archetype. The identifier has never been used before and never will
    /// be again.
    pub fn create(&mut self, _token: &MainThreadToken) -> (e: Entity)
        requires
            old(self).wf(),
            old(self).spec_next_id() < u64::MAX,
        ensures
            final(self).wf(),
            e.spec_id() == old(self).spec_next_id(),
            !old(self).spec_is_alive(e),
            final(self).spec_is_alive(e),
            final(self).alive_map() == old(self).alive_map().insert(e.spec_id(), final(self).node_of_spec(e)),
            final(self).archetype_set(e) == empty_kind_set(),
            final(self).archetype_keys(e).len() == 0,
            final(self).spec_next_id() == old(self).spec_next_id() + 1,
            final(self).spec_heap_count() == old(self).spec_heap_count(),
            final(self).spec_slot_count() == old(self).spec_slot_count(),
            final(self).spec_node_count() == old(self).spec_node_count(),
            Self::others_unchanged(*old(self), *final(self), e),
    {
        let id = self.next_id;
        self.next_id = self.next_id + 1;
        let root = self.dir.root();
        self.alive.insert(id, root);
        let e = Entity { id };
        proof {
            assert(self.archetype_keys(e).to_set() =~= empty_kind_set());
        }
        e
    }

    pub fn is_alive(&self, e: Entity) -> (r: bool)
        ensures
            r == self.spec_is_alive(e),
    {
        self.alive.get(e.id()).is_some()
    }

    /// How many entities are currently alive.
    pub fn alive_count(&self) -> (r: usize)
        ensures
            r == self.alive_map().dom().len(),
    {
        self.alive.len()
    }

    /// The identifiers of the alive entities, each exactly once, in no
    /// particular order.
    pub fn alive_ids(&self) -> (r: Vec<u64>)
        ensures
            r@.to_set() == self.alive_map().dom(),
            r@.no_duplicates(),
    {
        self.alive.keys_vec()
    }

    pub fn next_id_probe(&self) -> (r: u64)
        ensures
            r == self.spec_next_id(),
    {
        self.next_id
    }

    pub fn heap_count_probe(&self) -> (r: u64)
        ensures
            r == self.spec_heap_count(),
    {
        self.heaps
    }

    pub fn slot_count_probe(&self) -> (r: u64)
        ensures
            r == self.spec_slot_count(),
    {
        self.slots
    }

    pub(crate) fn bump_block_counters(&mut self, new_slots: u64)
        requires
            old(self).spec_heap_count() < u64::MAX,
            old(self).spec_slot_count() + new_slots <= u64::MAX,
        ensures
            final(self).spec_heap_count() == old(self).spec_heap_count() + 1,
            final(self).spec_slot_count() == old(self).spec_slot_count() + new_slots,
            final(self).alive_map() == old(self).alive_map(),
            final(self).wf() == old(self).wf(),
            final(self).spec_next_id() == old(self).spec_next_id(),
            forall|e2: Entity| #[trigger] final(self).archetype_keys(e2) == old(self).archetype_keys(e2),
            forall|e2: Entity| #[trigger] final(self).node_of_spec(e2) == old(self).node_of_spec(e2),
            final(self).spec_node_count() == old(self).spec_node_count(),
    {
        self.heaps = self.heaps + 1;
        self.slots = self.slots + new_slots;
    }

    /// The canonical component-kind list of an alive entity, sorted.
    pub fn archetype(&self, e: Entity) -> (r: Vec<u64>)
        requires
            self.wf(),
            self.spec_is_alive(e),
        ensures
            r@ == self.archetype_keys(e),
    {
        let node = self.alive.get(e.id()).unwrap();
        self.dir.node_keys(node)
    }

    /// The archetype node handle of an alive entity.
    pub fn node_of(&self, e: Entity) -> (r: usize)
        requires
            self.wf(),
            self.spec_is_alive(e),
        ensures
            r == self.node_of_spec(e),
    {
        self.alive.get(e.id()).unwrap()
    }

    /// Whether two alive entities carry exactly the same component-kind
    /// set: decided by comparing their archetype node handles, which is
    /// sound because nodes are canonical.
    pub fn same_archetype(&self, a: Entity, b: Entity) -> (r: bool)
        requires
            self.wf(),
            self.spec_is_alive(a),
            self.spec_is_alive(b),
        ensures
            r == (self.archetype_set(a) == self.archetype_set(b)),
    {
        let na = self.node_of(a);
        let nb = self.node_of(b);
        proof {
            if na == nb {
                assert(self.archetype_set(a) =~= self.archetype_set(b));
            } else {
                if self.archetype_set(a) == self.archetype_set(b) {
                    self.dir.lemma_canonical(na, nb);
                }
            }
        }
        na == nb
    }

    /// Two alive entities point at the identical archetype node exactly
    /// when their component-kind sets are equal.
    pub proof fn lemma_archetype_canonical(self, a: Entity, b: Entity)
        requires
            self.wf(),
            self.spec_is_alive(a),
            self.spec_is_alive(b),
        ensures
            self.node_of_spec(a) == self.node_of_spec(b) <==> self.archetype_set(a)
                == self.archetype_set(b),
    {
        if self.node_of_spec(a) == self.node_of_spec(b) {
            assert(self.archetype_set(a) =~= self.archetype_set(b));
        }
        if self.archetype_set(a) == self.archetype_set(b) {
            self.dir.lemma_canonical(self.node_of_spec(a), self.node_of_spec(b));
        }
    }

    /// Remove an entity from the alive-set. Destroying an entity that is
    /// not alive (a double destroy included) is a programming error, so
    /// that input is excluded. Returns the entity's component-kind list;
    /// the caller replays an untracked removal on each kind's storage.
    pub fn destroy(&mut self, _token: &MainThreadToken, e: Entity) -> (r: Vec<u64>)
        requires
            old(self).wf(),
            old(self).spec_is_alive(e),
        ensures
            final(self).wf(),
            r@ == old(self).archetype_keys(e),
            final(self).alive_map() == old(self).alive_map().remove(e.spec_id()),
            !final(self).spec_is_alive(e),
            final(self).spec_next_id() == old(self).spec_next_id(),
            final(self).spec_heap_count() == old(self).spec_heap_count(),
            final(self).spec_slot_count() == old(self).spec_slot_count(),
            final(self).spec_node_count() == old(self).spec_node_count(),
            Self::others_unchanged(*old(self), *final(self), e),
    {
        let node = self.alive.get(e.id()).unwrap();
        let r = self.dir.node_keys(node);
        self.alive.remove(e.id());
        proof {
            assert forall|e2: Entity|
                old(self).spec_is_alive(e2) && e2 != e implies final(self).spec_is_alive(e2)
                && final(self).node_of_spec(e2) == old(self).node_of_spec(e2)
                && final(self).archetype_keys(e2) == old(self).archetype_keys(e2) by {
                assert(e2.spec_id() != e.spec_id());
            }
        }
        r
    }

    /// Move an alive entity to the archetype that adds `comp`: the tracked
    /// side of a component insertion. Nodes other entities point at are
    /// untouched.
    pub(crate) fn attach(&mut self, e: Entity, comp: u64) -> (r: usize)
        requires
            old(self).wf(),
            old(self).spec_is_alive(e),
            old(self).spec_node_count() + 1 <= usize::MAX,
            old(self).archetype_keys(e).len() + 1 <= usize::MAX,
        ensures
            final(self).wf(),
            final(self).spec_is_alive(e),
            r == final(self).node_of_spec(e),
            final(self).archetype_set(e) == old(self).archetype_set(e).insert(comp),
            final(self).archetype_keys(e).len() <= old(self).archetype_keys(e).len() + 1,
            final(self).alive_map().dom() == old(self).alive_map().dom(),
            final(self).spec_next_id() == old(self).spec_next_id(),
            final(self).spec_heap_count() == old(self).spec_heap_count(),
            final(self).spec_slot_count() == old(self).spec_slot_count(),
            old(self).spec_node_count() <= final(self).spec_node_count() <= old(self).spec_node_count() + 1,
            Self::others_unchanged(*old(self), *final(self), e),
    {
        let node = self.alive.get(e.id()).unwrap();
        let new_node = self.dir.lookup_extension(Some(node), comp);
        self.alive.insert(e.id(), new_node);
        proof {
            assert(final(self).alive_map().dom() =~= old(self).alive_map().dom());
            assert forall|e2: Entity|
                old(self).spec_is_alive(e2) && e2 != e implies final(self).spec_is_alive(e2)
                && final(self).node_of_spec(e2) == old(self).node_of_spec(e2)
                && final(self).archetype_keys(e2) == old(self).archetype_keys(e2) by {
                assert(e2.spec_id() != e.spec_id());
                assert(old(self).dir.valid(old(self).alive_map()[e2.spec_id()]));
            }
        }
        new_node
    }

    /// Move an alive entity to the archetype that drops `comp`: the
    /// tracked side of a component removal.
    pub(crate) fn detach(&mut self, e: Entity, comp: u64) -> (r: usize)
        requires
            old(self).wf(),
            old(self).spec_is_alive(e),
            old(self).spec_node_count() + 1 <= usize::MAX,
        ensures
            final(self).wf(),
            final(self).spec_is_alive(e),
            r == final(self).node_of_spec(e),
            final(self).archetype_set(e) == old(self).archetype_set(e).remove(comp),
            final(self).archetype_keys(e).len() <= old(self).archetype_keys(e).len(),
            final(self).alive_map().dom() == old(self).alive_map().dom(),
            final(self).spec_next_id() == old(self).spec_next_id(),
            final(self).spec_heap_count() == old(self).spec_heap_count(),
            final(self).spec_slot_count() == old(self).spec_slot_count(),
            old(self).spec_node_count() <= final(self).spec_node_count() <= old(self).spec_node_count() + 1,
            Self::others_unchanged(*old(self), *final(self), e),
    {
        let node = self.alive.get(e.id()).unwrap();
        let new_node = self.dir.lookup_de_extension(Some(node), comp);
        self.alive.insert(e.id(), new_node);
        proof {
            assert(final(self).alive_map().dom() =~= old(self).alive_map().dom());
            assert forall|e2: Entity|
                old(self).spec_is_alive(e2) && e2 != e implies final(self).spec_is_alive(e2)
                && final(self).node_of_spec(e2) == old(self).node_of_spec(e2)
                && final(self).archetype_keys(e2) == old(self).archetype_keys(e2) by {
                assert(e2.spec_id() != e.spec_id());
                assert(old(self).dir.valid(old(self).alive_map()[e2.spec_id()]));
            }
        }
        new_node
    }
}

/// A deterministic-destruction handle around an entity. There is no
/// implicit destructor here: the destruction point is written out as a
/// call to [`OwnedEntity::despawn`], and [`OwnedEntity::unmanage`]
/// converts the handle into a bare entity, giving up managed destruction.
pub struct OwnedEntity {
    entity: Entity,
}

impl OwnedEntity {
    pub closed spec fn spec_entity(self) -> Entity {
        self.entity
    }

    /// Create a fresh entity under a managed handle.
    pub fn spawn(world: &mut World, token: &MainThreadToken) -> (r: OwnedEntity)
        requires
            old(world).wf(),
            old(world).spec_next_id() < u64::MAX,
        ensures
            final(world).wf(),
            final(world).spec_is_alive(r.spec_entity()),
            !old(world).spec_is_alive(r.spec_entity()),
            final(world).archetype_set(r.spec_entity()) == empty_kind_set(),
            World::others_unchanged(*old(world), *final(world), r.spec_entity()),
    {
        let entity = world.create(token);
        OwnedEntity { entity }
    }

    pub fn entity(&self) -> (r: Entity)
        ensures
            r == self.spec_entity(),
    {
        self.entity
    }

    /// Give up managed destruction: the bare entity lives on until it is
    /// destroyed through the registry.
    pub fn unmanage(self) -> (r: Entity)
        ensures
            r == self.spec_entity(),
    {
        self.entity
    }

    /// The handle's destruction point: destroy the wrapped entity,
    /// handing back its component-kind list for storage replay.
    pub fn despawn(self, world: &mut World, token: &MainThreadToken) -> (r: Vec<u64>)
        requires
            old(world).wf(),
            old(world).spec_is_alive(self.spec_entity()),
        ensures
            final(world).wf(),
            r@ == old(world).archetype_keys(self.spec_entity()),
            !final(world).spec_is_alive(self.spec_entity()),
            final(world).alive_map() == old(world).alive_map().remove(self.spec_entity().spec_id()),
    {
        world.destroy(token, self.entity)
    }
}

} // verus!
