//! The per-kind storage allocator: maps entities to access cells holding
//! one component kind's values. Cells are pooled in fixed-size blocks;
//! freed cells return to a free list and are reused for other entities,
//! but a removed value is taken out of its cell before the cell is freed,
//! so a later occupant can never observe it.
//!
//! Tracked insertion and removal drive the entity's archetype transition
//! in the registry; the untracked removal exists for destructor replay
//! after an entity is destroyed, which must not touch the archetype that
//! is being replayed.

use vstd::prelude::*;

use crate::table::{key_map_view, KeyMap};
use crate::token::{MainThreadToken, Token};
use crate::token_cell::{grants_read, grants_write, NOptRefCell};
use crate::world::{Entity, World};

verus! {

/// How many cells a freshly allocated block holds.
pub const BLOCK_SLOTS: usize = 8;

/// One component kind's storage: the cell pool, the free list, and the
/// entity-to-cell index.
pub struct Storage<T> {
    comp: u64,
    slots: Vec<NOptRefCell<T>>,
    free: Vec<usize>,
    index: KeyMap,
}

/// The registry and a storage agree on an alive entity exactly when the
/// entity has a value stored for the storage's kind if and only if its
/// archetype carries that kind.
pub open spec fn synced<T>(w: World, s: Storage<T>) -> bool {
    forall|e: Entity|
        #[trigger] w.spec_is_alive(e) ==> (s.content().contains_key(e.spec_id())
            <==> w.archetype_set(e).contains(s.comp_id()))
}

impl<T> Storage<T> {
    /// The component kind this storage holds. One storage exists per kind;
    /// kinds of different storages used with one registry are distinct.
    pub closed spec fn comp_id(self) -> u64 {
        self.comp
    }

    spec fn index_map(self) -> Map<u64, usize> {
        key_map_view(self.index)
    }

    /// What the storage holds: a map from entity identifier to the stored
    /// value of this kind.
    pub closed spec fn content(self) -> Map<u64, T> {
        Map::new(
            |id: u64| self.index_map().contains_key(id),
            |id: u64| self.slots@[self.index_map()[id] as int].val().unwrap(),
        )
    }

    pub open spec fn spec_has(self, e: Entity) -> bool {
        self.content().contains_key(e.spec_id())
    }

    /// The cell an attached entity's value sits in.
    pub closed spec fn slot_of(self, e: Entity) -> usize {
        self.index_map()[e.spec_id()]
    }

    /// How many cells sit on the free list.
    pub closed spec fn spec_free_len(self) -> nat {
        self.free@.len()
    }

    /// How many cells have been allocated in blocks so far.
    pub closed spec fn spec_slot_cap(self) -> nat {
        self.slots@.len()
    }

    pub closed spec fn wf(self) -> bool {
        &&& self.index_map().dom().finite()
        &&& forall|id: u64|
            #[trigger] self.index_map().contains_key(id) ==> self.index_map()[id]
                < self.slots@.len() && self.slots@[self.index_map()[id] as int].val() is Some
                && self.slots@[self.index_map()[id] as int].borrow_state() is Unborrowed
                && self.slots@[self.index_map()[id] as int].spec_namespace() == 0
        &&& forall|id1: u64, id2: u64|
            #[trigger] self.index_map().contains_key(id1) && #[trigger] self.index_map().contains_key(id2)
                && id1 != id2 ==> self.index_map()[id1] != self.index_map()[id2]
        &&& forall|fi: int|
            0 <= fi < self.free@.len() ==> #[trigger] self.free@[fi] < self.slots@.len()
                && self.slots@[self.free@[fi] as int].val() is None
                && self.slots@[self.free@[fi] as int].borrow_state() is Unborrowed
                && self.slots@[self.free@[fi] as int].spec_namespace() == 0
        &&& self.free@.no_duplicates()
        &&& forall|id: u64, fi: int|
            #[trigger] self.index_map().contains_key(id) && 0 <= fi < self.free@.len()
                ==> self.index_map()[id] != #[trigger] self.free@[fi]
    }

    /// A fresh, empty storage for one component kind.
    pub fn new(comp: u64) -> (r: Storage<T>)
        ensures
            r.wf(),
            r.comp_id() == comp,
            r.content() == Map::<u64, T>::empty(),
            r.spec_free_len() == 0,
            r.spec_slot_cap() == 0,
    {
        let r = Storage { comp, slots: Vec::new(), free: Vec::new(), index: KeyMap::new() };
        proof {
            assert(r.content() =~= Map::<u64, T>::empty());
        }
        r
    }

    pub fn has(&self, e: Entity) -> (r: bool)
        requires
            self.wf(),
        ensures
            r == self.spec_has(e),
    {
        self.index.get(e.id()).is_some()
    }

    /// The cell index an attached entity occupies, for diagnostics.
    pub fn slot_index(&self, e: Entity) -> (r: Option<usize>)
        requires
            self.wf(),
        ensures
            r is Some <==> self.spec_has(e),
            r matches Some(j) ==> j == self.slot_of(e),
    {
        self.index.get(e.id())
    }

    /// Read an attached entity's value. Asking for a missing component is
    /// a programming error, so that input is excluded.
    pub fn get<Tok: Token>(&self, token: &Tok, e: Entity) -> (r: &T)
        requires
            self.wf(),
            self.spec_has(e),
            grants_read(*token, 0),
        ensures
            *r == self.content()[e.spec_id()],
    {
        let j = self.index.get(e.id()).unwrap();
        self.slots[j].get(token)
    }

    /// Read an attached entity's value, or nothing when the component is
    /// missing.
    pub fn try_get<'a, Tok: Token>(&'a self, token: &Tok, e: Entity) -> (r: Option<&'a T>)
        requires
            self.wf(),
            grants_read(*token, 0),
        ensures
            r is Some <==> self.spec_has(e),
            r matches Some(x) ==> *x == self.content()[e.spec_id()],
    {
        match self.index.get(e.id()) {
            Some(j) => Some(self.slots[j].get(token)),
            None => None,
        }
    }

    /// Mutably borrow an attached entity's value.
    pub fn get_mut<Tok: Token>(&mut self, token: &Tok, e: Entity) -> (r: &mut T)
        requires
            old(self).wf(),
            old(self).spec_has(e),
            grants_write(*token, 0),
        ensures
            *r == old(self).content()[e.spec_id()],
            final(self).wf(),
            final(self).comp_id() == old(self).comp_id(),
            final(self).spec_free_len() == old(self).spec_free_len(),
            final(self).spec_slot_cap() == old(self).spec_slot_cap(),
            forall|id2: u64| final(self).content().contains_key(id2) == old(self).content().contains_key(id2),
            forall|id2: u64|
                old(self).content().contains_key(id2) && id2 != e.spec_id() ==> final(self).content()[id2] == old(self).content()[id2],
            final(self).content()[e.spec_id()] == *final(r),
    {
        let j = self.index.get(e.id()).unwrap();
        let slot = &mut self.slots[j];
        let m = match slot.get_mut() {
            Some(m) => m,
            None => vstd::pervasive::unreached(),
        };
        m
    }

    /// Hand out an empty cell: the head of the free list, or the first
    /// cell of a freshly allocated block, the rest of which goes onto the
    /// free list. Only block allocation touches the debug counters.
    fn grab_slot(&mut self, world: &mut World) -> (j: usize)
        requires
            old(self).wf(),
            old(self).spec_slot_cap() + BLOCK_SLOTS <= usize::MAX,
            old(world).spec_heap_count() < u64::MAX,
            old(world).spec_slot_count() + BLOCK_SLOTS <= u64::MAX,
        ensures
            final(self).wf(),
            final(self).comp == old(self).comp,
            final(self).index_map() == old(self).index_map(),
            j < final(self).slots@.len(),
            final(self).slots@[j as int].val() is None,
            final(self).slots@[j as int].borrow_state() is Unborrowed,
            final(self).slots@[j as int].spec_namespace() == 0,
            forall|id: u64|
                #[trigger] old(self).index_map().contains_key(id) ==> old(self).index_map()[id] != j,
            forall|si: int|
                0 <= si < old(self).slots@.len() ==> #[trigger] final(self).slots@[si] == old(self).slots@[si],
            old(self).slots@.len() <= final(self).slots@.len(),
            forall|fi: int|
                0 <= fi < final(self).free@.len() ==> #[trigger] final(self).free@[fi] != j,
            old(self).spec_free_len() > 0 ==> final(self).spec_slot_cap() == old(self).spec_slot_cap() && *final(world) == *old(world),
            old(self).spec_free_len() == 0 ==> final(self).spec_slot_cap() == old(self).spec_slot_cap() + BLOCK_SLOTS,
            final(world).alive_map() == old(world).alive_map(),
            final(world).wf() == old(world).wf(),
            final(world).spec_next_id() == old(world).spec_next_id(),
            final(world).spec_node_count() == old(world).spec_node_count(),
            forall|e2: Entity| #[trigger] final(world).archetype_keys(e2) == old(world).archetype_keys(e2),
            forall|e2: Entity| #[trigger] final(world).node_of_spec(e2) == old(world).node_of_spec(e2),
            old(self).spec_free_len() > 0 ==> final(world).spec_heap_count() == old(world).spec_heap_count() && final(world).spec_slot_count() == old(world).spec_slot_count(),
            old(self).spec_free_len() == 0 ==> final(world).spec_heap_count() == old(world).spec_heap_count() + 1 && final(world).spec_slot_count() == old(world).spec_slot_count() + BLOCK_SLOTS,
    {
        let popped = self.free.pop();
        match popped {
            Some(j) => {
                proof {
                    assert(old(self).free@[old(self).free@.len() - 1] == j);
                    assert forall|fi: int|
                        0 <= fi < final(self).free@.len() implies #[trigger] final(self).free@[fi]
                        != j by {
                        assert(final(self).free@[fi] == old(self).free@[fi]);
                        assert(old(self).free@.no_duplicates());
                    }
                }
                j
            },
            None => {
                let start = self.slots.len();
                let ghost pre = *self;
                let mut k: usize = 0;
                while k < BLOCK_SLOTS
                    invariant
                        0 <= k <= BLOCK_SLOTS,
                        start == pre.slots@.len(),
                        start + BLOCK_SLOTS <= usize::MAX,
                        self.slots@.len() == start + k,
                        self.comp == pre.comp,
                        self.index == pre.index,
                        self.free@ == pre.free@,
                        pre.free@.len() == 0,
                        forall|si: int|
                            0 <= si < start ==> #[trigger] self.slots@[si] == pre.slots@[si],
                        forall|si: int|
                            start <= si < start + k ==> (#[trigger] self.slots@[si].val() is None)
                                && self.slots@[si].borrow_state() is Unborrowed
                                && self.slots@[si].spec_namespace() == 0,
                    decreases BLOCK_SLOTS - k,
                {
                    self.slots.push(NOptRefCell::new_empty());
                    k += 1;
                }
                let mut k2: usize = 1;
                while k2 < BLOCK_SLOTS
                    invariant
                        1 <= k2 <= BLOCK_SLOTS,
                        start == pre.slots@.len(),
                        start + BLOCK_SLOTS <= usize::MAX,
                        self.slots@.len() == start + BLOCK_SLOTS,
                        self.comp == pre.comp,
                        self.index == pre.index,
                        self.free@.len() == k2 - 1,
                        forall|fi: int|
                            0 <= fi < k2 - 1 ==> #[trigger] self.free@[fi] == start + fi + 1,
                        forall|si: int|
                            0 <= si < start ==> #[trigger] self.slots@[si] == pre.slots@[si],
                        forall|si: int|
                            start <= si < start + BLOCK_SLOTS ==> (#[trigger] self.slots@[si].val() is None)
                                && self.slots@[si].borrow_state() is Unborrowed
                                && self.slots@[si].spec_namespace() == 0,
                    decreases BLOCK_SLOTS - k2,
                {
                    self.free.push(start + k2);
                    k2 += 1;
                }
                world.bump_block_counters(BLOCK_SLOTS as u64);
                proof {
                    assert forall|fi: int, fj: int|
                        0 <= fi < self.free@.len() && 0 <= fj < self.free@.len() && fi != fj
                        implies self.free@[fi] != self.free@[fj] by {}
                    assert(self.free@.no_duplicates());
                    assert forall|id: u64|
                        #[trigger] self.index_map().contains_key(id) implies self.index_map()[id]
                        != start && self.index_map()[id] < self.slots@.len() by {
                        assert(pre.index_map().contains_key(id));
                        assert(pre.index_map()[id] < start);
                    }
                    assert(self.wf());
                }
                start
            },
        }
    }

    /// Store a value for an alive entity, allocating a cell if the entity
    /// has none yet, and returning the previous value (replace
    /// semantics). A fresh attachment moves the entity's registry record
    /// along the archetype directory's "add this kind" transition; the
    /// values and archetypes of all other entities are untouched.
    pub fn insert(&mut self, world: &mut World, token: &MainThreadToken, e: Entity, value: T) -> (r:
        Option<T>)
        requires
            old(self).wf(),
            old(world).wf(),
            old(world).spec_is_alive(e),
            synced(*old(world), *old(self)),
            old(world).spec_node_count() + 1 <= usize::MAX,
            old(world).archetype_keys(e).len() + 1 <= usize::MAX,
            old(self).spec_slot_cap() + BLOCK_SLOTS <= usize::MAX,
            old(world).spec_heap_count() < u64::MAX,
            old(world).spec_slot_count() + BLOCK_SLOTS <= u64::MAX,
        ensures
            final(self).wf(),
            final(world).wf(),
            synced(*final(world), *final(self)),
            final(self).comp_id() == old(self).comp_id(),
            final(self).content() == old(self).content().insert(e.spec_id(), value),
            old(self).spec_has(e) ==> r == Some(old(self).content()[e.spec_id()]),
            !old(self).spec_has(e) ==> r is None,
            final(world).spec_is_alive(e),
            final(world).alive_map().dom() == old(world).alive_map().dom(),
            final(world).archetype_set(e) == old(world).archetype_set(e).insert(old(self).comp_id()),
            final(world).archetype_keys(e).len() <= old(world).archetype_keys(e).len() + 1,
            World::others_unchanged(*old(world), *final(world), e),
            final(world).spec_next_id() == old(world).spec_next_id(),
            old(world).spec_node_count() <= final(world).spec_node_count() <= old(world).spec_node_count() + 1,
            old(self).spec_has(e) || old(self).spec_free_len() > 0 ==> final(world).spec_heap_count() == old(world).spec_heap_count() && final(world).spec_slot_count() == old(world).spec_slot_count(),
            !old(self).spec_has(e) && old(self).spec_free_len() == 0 ==> final(world).spec_heap_count() == old(world).spec_heap_count() + 1 && final(world).spec_slot_count() == old(world).spec_slot_count() + BLOCK_SLOTS,
    {
        let id = e.id();
        let found = self.index.get(id);
        match found {
            Some(j) => {
                let slot = &mut self.slots[j];
                let r = slot.replace(token, Some(value));
                proof {
                    let os = *old(self);
                    assert(self.content() =~= os.content().insert(e.spec_id(), value));
                    assert(old(world).archetype_set(e).contains(os.comp_id()));
                    assert(old(world).archetype_set(e).insert(os.comp_id()) =~= old(world).archetype_set(e));
                    assert(self.wf()) by {
                        assert forall|id2: u64|
                            #[trigger] self.index_map().contains_key(id2) implies self.index_map()[id2]
                            < self.slots@.len() && self.slots@[self.index_map()[id2] as int].val() is Some
                            && self.slots@[self.index_map()[id2] as int].borrow_state() is Unborrowed
                            && self.slots@[self.index_map()[id2] as int].spec_namespace() == 0 by {
                            if self.index_map()[id2] != j {
                                assert(self.slots@[self.index_map()[id2] as int] == os.slots@[self.index_map()[id2] as int]);
                            }
                        }
                    }
                    assert(synced(*world, *self)) by {
                        assert forall|e2: Entity| #[trigger] world.spec_is_alive(e2) implies (
                        self.content().contains_key(e2.spec_id()) <==> world.archetype_set(e2).contains(
                            self.comp_id(),
                        )) by {
                            assert(os.content().contains_key(e2.spec_id()) <==> self.content().contains_key(e2.spec_id()));
                        }
                    }
                }
                r
            },
            None => {
                let j = self.grab_slot(world);
                let ghost mid = *self;
                let slot = &mut self.slots[j];
                let _prior = slot.replace(token, Some(value));
                self.index.insert(id, j);
                world.attach(e, self.comp);
                proof {
                    let os = *old(self);
                    let ow = *old(world);
                    assert(self.slots@ == mid.slots@.update(j as int, self.slots@[j as int]));
                    assert(self.slots@[j as int].val() == Some(value));
                    assert(self.slots@[j as int].borrow_state() is Unborrowed);
                    assert(self.slots@[j as int].spec_namespace() == 0);
                    assert(self.index_map() == os.index_map().insert(id, j));
                    assert(self.wf()) by {
                        assert forall|id2: u64|
                            #[trigger] self.index_map().contains_key(id2) implies self.index_map()[id2]
                            < self.slots@.len() && self.slots@[self.index_map()[id2] as int].val() is Some
                            && self.slots@[self.index_map()[id2] as int].borrow_state() is Unborrowed
                            && self.slots@[self.index_map()[id2] as int].spec_namespace() == 0 by {
                            if id2 != id {
                                assert(os.index_map().contains_key(id2));
                                assert(os.index_map()[id2] != j);
                                assert(os.index_map()[id2] < os.slots@.len());
                                assert(mid.slots@[os.index_map()[id2] as int] == os.slots@[os.index_map()[id2] as int]);
                                assert(self.slots@[self.index_map()[id2] as int] == os.slots@[os.index_map()[id2] as int]);
                            }
                        }
                        assert forall|id1: u64, id2: u64|
                            #[trigger] self.index_map().contains_key(id1)
                                && #[trigger] self.index_map().contains_key(id2) && id1 != id2
                            implies self.index_map()[id1] != self.index_map()[id2] by {
                            if id1 != id && id2 != id {
                                assert(os.index_map().contains_key(id1));
                                assert(os.index_map().contains_key(id2));
                            } else if id1 == id {
                                assert(os.index_map().contains_key(id2));
                                assert(os.index_map()[id2] != j);
                            } else {
                                assert(os.index_map().contains_key(id1));
                                assert(os.index_map()[id1] != j);
                            }
                        }
                        assert forall|fi: int|
                            0 <= fi < self.free@.len() implies #[trigger] self.free@[fi]
                            < self.slots@.len() && self.slots@[self.free@[fi] as int].val() is None
                            && self.slots@[self.free@[fi] as int].borrow_state() is Unborrowed
                            && self.slots@[self.free@[fi] as int].spec_namespace() == 0 by {
                            assert(mid.free@[fi] != j);
                            assert(self.slots@[self.free@[fi] as int] == mid.slots@[self.free@[fi] as int]);
                        }
                        assert forall|id2: u64, fi: int|
                            #[trigger] self.index_map().contains_key(id2) && 0 <= fi
                                < self.free@.len() implies self.index_map()[id2]
                            != #[trigger] self.free@[fi] by {
                            if id2 == id {
                                assert(mid.free@[fi] != j);
                            } else {
                                assert(os.index_map().contains_key(id2));
                            }
                        }
                    }
                    assert(self.content() =~= os.content().insert(e.spec_id(), value)) by {
                        assert forall|id2: u64|
                            #[trigger] self.content().contains_key(id2) == os.content().insert(
                                e.spec_id(),
                                value,
                            ).contains_key(id2) by {}
                        assert forall|id2: u64|
                            self.content().contains_key(id2) implies #[trigger] self.content()[id2]
                            == os.content().insert(e.spec_id(), value)[id2] by {
                            if id2 != id {
                                assert(os.index_map()[id2] != j);
                                assert(self.slots@[self.index_map()[id2] as int] == os.slots@[os.index_map()[id2] as int]);
                            }
                        }
                    }
                    assert(synced(*world, *self)) by {
                        assert forall|e2: Entity| #[trigger] world.spec_is_alive(e2) implies (
                        self.content().contains_key(e2.spec_id()) <==> world.archetype_set(e2).contains(
                            self.comp_id(),
                        )) by {
                            assert(world.alive_map().dom() == ow.alive_map().dom());
                            assert(ow.spec_is_alive(e2));
                            if e2 == e {
                                assert(self.content().contains_key(e.spec_id()));
                                assert(world.archetype_set(e) == ow.archetype_set(e).insert(os.comp_id()));
                            } else {
                                crate::world::lemma_entity_id_injective(e2, e);
                                assert(world.archetype_keys(e2) == ow.archetype_keys(e2));
                            }
                        }
                    }
                }
                None
            },
        }
    }

    /// Detach an alive entity's value of this kind, if any: the value is
    /// taken out of its cell, the cell goes back to the free list, and the
    /// entity's registry record moves along the "remove this kind"
    /// transition. Removing a kind the entity lacks returns nothing and
    /// changes nothing.
    pub fn remove(&mut self, world: &mut World, token: &MainThreadToken, e: Entity) -> (r: Option<
        T,
    >)
        requires
            old(self).wf(),
            old(world).wf(),
            old(world).spec_is_alive(e),
            synced(*old(world), *old(self)),
            old(world).spec_node_count() + 1 <= usize::MAX,
        ensures
            final(self).wf(),
            final(world).wf(),
            synced(*final(world), *final(self)),
            final(self).comp_id() == old(self).comp_id(),
            final(self).content() == old(self).content().remove(e.spec_id()),
            old(self).spec_has(e) ==> r == Some(old(self).content()[e.spec_id()]),
            !old(self).spec_has(e) ==> r is None,
            final(world).spec_is_alive(e),
            final(world).alive_map().dom() == old(world).alive_map().dom(),
            final(world).archetype_set(e) == old(world).archetype_set(e).remove(old(self).comp_id()),
            final(world).archetype_keys(e).len() <= old(world).archetype_keys(e).len(),
            World::others_unchanged(*old(world), *final(world), e),
            final(world).spec_next_id() == old(world).spec_next_id(),
            final(world).spec_heap_count() == old(world).spec_heap_count(),
            final(world).spec_slot_count() == old(world).spec_slot_count(),
            final(self).spec_slot_cap() == old(self).spec_slot_cap(),
            old(self).spec_has(e) ==> final(self).spec_free_len() == old(self).spec_free_len() + 1,
            !old(self).spec_has(e) ==> *final(self) == *old(self) && *final(world) == *old(world),
    {
        let id = e.id();
        let found = self.index.get(id);
        match found {
            Some(j) => {
                let slot = &mut self.slots[j];
                let r = slot.take(token);
                self.index.remove(id);
                self.free.push(j);
                let ghost mid = *self;
                world.detach(e, self.comp);
                proof {
                    let os = *old(self);
                    let ow = *old(world);
                    assert(self.index_map() == os.index_map().remove(id));
                    assert(self.slots@ == os.slots@.update(j as int, self.slots@[j as int]));
                    assert(self.slots@[j as int].val() is None);
                    assert(self.slots@[j as int].borrow_state() is Unborrowed);
                    assert(self.free@ == os.free@.push(j));
                    assert(self.wf()) by {
                        assert forall|id2: u64|
                            #[trigger] self.index_map().contains_key(id2) implies self.index_map()[id2]
                            < self.slots@.len() && self.slots@[self.index_map()[id2] as int].val() is Some
                            && self.slots@[self.index_map()[id2] as int].borrow_state() is Unborrowed
                            && self.slots@[self.index_map()[id2] as int].spec_namespace() == 0 by {
                            assert(os.index_map().contains_key(id2));
                            assert(id2 != id);
                            assert(os.index_map()[id2] != j);
                            assert(self.slots@[self.index_map()[id2] as int] == os.slots@[os.index_map()[id2] as int]);
                        }
                        assert forall|fi: int|
                            0 <= fi < self.free@.len() implies #[trigger] self.free@[fi]
                            < self.slots@.len() && self.slots@[self.free@[fi] as int].val() is None
                            && self.slots@[self.free@[fi] as int].borrow_state() is Unborrowed
                            && self.slots@[self.free@[fi] as int].spec_namespace() == 0 by {
                            if fi < os.free@.len() {
                                assert(os.free@[fi] != j);
                                assert(self.slots@[self.free@[fi] as int] == os.slots@[os.free@[fi] as int]);
                            }
                        }
                        assert(self.free@.no_duplicates()) by {
                            assert forall|fi: int, fj: int|
                                0 <= fi < self.free@.len() && 0 <= fj < self.free@.len() && fi != fj
                                implies self.free@[fi] != self.free@[fj] by {
                                if fi < os.free@.len() && fj < os.free@.len() {
                                    assert(os.free@.no_duplicates());
                                } else if fi == os.free@.len() as int {
                                    assert(os.free@[fj] != j);
                                } else if fj == os.free@.len() as int {
                                    assert(os.free@[fi] != j);
                                }
                            }
                        }
                        assert forall|id2: u64, fi: int|
                            #[trigger] self.index_map().contains_key(id2) && 0 <= fi
                                < self.free@.len() implies self.index_map()[id2]
                            != #[trigger] self.free@[fi] by {
                            assert(os.index_map().contains_key(id2));
                            assert(id2 != id);
                            if fi < os.free@.len() {
                                assert(os.index_map()[id2] != os.free@[fi]);
                            } else {
                                assert(self.free@[fi] == j);
                                assert(os.index_map()[id2] != os.index_map()[id]);
                            }
                        }
                    }
                    assert(self.content() =~= os.content().remove(e.spec_id())) by {
                        assert forall|id2: u64|
                            self.content().contains_key(id2) implies #[trigger] self.content()[id2]
                            == os.content().remove(e.spec_id())[id2] by {
                            assert(id2 != id);
                            assert(os.index_map()[id2] != j);
                            assert(self.slots@[self.index_map()[id2] as int] == os.slots@[os.index_map()[id2] as int]);
                        }
                    }
                    assert(synced(*world, *self)) by {
                        assert forall|e2: Entity| #[trigger] world.spec_is_alive(e2) implies (
                        self.content().contains_key(e2.spec_id()) <==> world.archetype_set(e2).contains(
                            self.comp_id(),
                        )) by {
                            assert(world.alive_map().dom() == ow.alive_map().dom());
                            assert(ow.spec_is_alive(e2));
                            if e2 == e {
                                assert(world.archetype_set(e) == ow.archetype_set(e).remove(os.comp_id()));
                            } else {
                                crate::world::lemma_entity_id_injective(e2, e);
                                assert(world.archetype_keys(e2) == ow.archetype_keys(e2));
                            }
                        }
                    }
                }
                r
            },
            None => {
                proof {
                    assert(!old(world).archetype_set(e).contains(self.comp_id()));
                    assert(old(world).archetype_set(e).remove(self.comp_id()) =~= old(world).archetype_set(e));
                    assert(self.content() =~= old(self).content().remove(e.spec_id()));
                }
                None
            },
        }
    }

    /// The untracked removal used for destructor replay after an entity is
    /// destroyed: the value is taken out and the cell freed, but the
    /// archetype that is being replayed is left alone.
    pub fn remove_untracked(&mut self, token: &MainThreadToken, e: Entity) -> (r: Option<T>)
        requires
            old(self).wf(),
        ensures
            final(self).wf(),
            final(self).comp_id() == old(self).comp_id(),
            final(self).content() == old(self).content().remove(e.spec_id()),
            old(self).spec_has(e) ==> r == Some(old(self).content()[e.spec_id()]),
            !old(self).spec_has(e) ==> r is None && *final(self) == *old(self),
            final(self).spec_slot_cap() == old(self).spec_slot_cap(),
    {
        let id = e.id();
        let found = self.index.get(id);
        match found {
            Some(j) => {
                let slot = &mut self.slots[j];
                let r = slot.take(token);
                self.index.remove(id);
                self.free.push(j);
                proof {
                    let os = *old(self);
                    assert(self.index_map() == os.index_map().remove(id));
                    assert(self.slots@ == os.slots@.update(j as int, self.slots@[j as int]));
                    assert(self.free@ == os.free@.push(j));
                    assert(self.wf()) by {
                        assert forall|id2: u64|
                            #[trigger] self.index_map().contains_key(id2) implies self.index_map()[id2]
                            < self.slots@.len() && self.slots@[self.index_map()[id2] as int].val() is Some
                            && self.slots@[self.index_map()[id2] as int].borrow_state() is Unborrowed
                            && self.slots@[self.index_map()[id2] as int].spec_namespace() == 0 by {
                            assert(os.index_map().contains_key(id2));
                            assert(id2 != id);
                            assert(os.index_map()[id2] != j);
                            assert(self.slots@[self.index_map()[id2] as int] == os.slots@[os.index_map()[id2] as int]);
                        }
                        assert forall|fi: int|
                            0 <= fi < self.free@.len() implies #[trigger] self.free@[fi]
                            < self.slots@.len() && self.slots@[self.free@[fi] as int].val() is None
                            && self.slots@[self.free@[fi] as int].borrow_state() is Unborrowed
                            && self.slots@[self.free@[fi] as int].spec_namespace() == 0 by {
                            if fi < os.free@.len() {
                                assert(os.free@[fi] != j);
                                assert(self.slots@[self.free@[fi] as int] == os.slots@[os.free@[fi] as int]);
                            }
                        }
                        assert(self.free@.no_duplicates()) by {
                            assert forall|fi: int, fj: int|
                                0 <= fi < self.free@.len() && 0 <= fj < self.free@.len() && fi != fj
                                implies self.free@[fi] != self.free@[fj] by {
                                if fi < os.free@.len() && fj < os.free@.len() {
                                    assert(os.free@.no_duplicates());
                                } else if fi == os.free@.len() as int {
                                    assert(os.free@[fj] != j);
                                } else if fj == os.free@.len() as int {
                                    assert(os.free@[fi] != j);
                                }
                            }
                        }
                        assert forall|id2: u64, fi: int|
                            #[trigger] self.index_map().contains_key(id2) && 0 <= fi
                                < self.free@.len() implies self.index_map()[id2]
                            != #[trigger] self.free@[fi] by {
                            assert(os.index_map().contains_key(id2));
                            assert(id2 != id);
                            if fi < os.free@.len() {
                                assert(os.index_map()[id2] != os.free@[fi]);
                            } else {
                                assert(self.free@[fi] == j);
                                assert(os.index_map()[id2] != os.index_map()[id]);
                            }
                        }
                    }
                    assert(self.content() =~= os.content().remove(e.spec_id())) by {
                        assert forall|id2: u64|
                            self.content().contains_key(id2) implies #[trigger] self.content()[id2]
                            == os.content().remove(e.spec_id())[id2] by {
                            assert(id2 != id);
                            assert(os.index_map()[id2] != j);
                            assert(self.slots@[self.index_map()[id2] as int] == os.slots@[os.index_map()[id2] as int]);
                        }
                    }
                }
                r
            },
            None => {
                proof {
                    assert(self.content() =~= old(self).content().remove(e.spec_id()));
                }
                None
            },
        }
    }
}

/// Why an entity-level access failed: the entity is not alive at all, or
/// it is alive but lacks the requested component kind.
#[derive(Clone, Copy, Debug, PartialEq, Eq, Structural)]
pub enum AccessError {
    NotAlive,
    Missing,
}

/// Read an entity's value of one kind, fail-soft: a dead entity and a
/// missing component are reported as distinct errors.
pub fn try_get_entity<'a, T, Tok: Token>(
    world: &World,
    storage: &'a Storage<T>,
    token: &Tok,
    e: Entity,
) -> (r: Result<&'a T, AccessError>)
    requires
        storage.wf(),
        grants_read(*token, 0),
    ensures
        !world.spec_is_alive(e) ==> r == Err::<&'a T, AccessError>(AccessError::NotAlive),
        world.spec_is_alive(e) && !storage.spec_has(e) ==> r == Err::<&'a T, AccessError>(AccessError::Missing),
        world.spec_is_alive(e) && storage.spec_has(e) ==> (r matches Ok(v) && *v == storage.content()[e.spec_id()]),
{
    if !world.is_alive(e) {
        return Err(AccessError::NotAlive);
    }
    match storage.try_get(token, e) {
        Some(v) => Ok(v),
        None => Err(AccessError::Missing),
    }
}

/// Read an entity's value of one kind. Asking for a dead entity or a
/// missing component is a programming error, so those inputs are
/// excluded; the fail-soft form reports them instead.
pub fn get_entity<'a, T, Tok: Token>(
    world: &World,
    storage: &'a Storage<T>,
    token: &Tok,
    e: Entity,
) -> (r: &'a T)
    requires
        storage.wf(),
        grants_read(*token, 0),
        world.spec_is_alive(e),
        storage.spec_has(e),
    ensures
        *r == storage.content()[e.spec_id()],
{
    storage.get(token, e)
}

/// Freed cells never leak values: once an entity's value is removed and
/// the cell reused by an insert for another entity, a read for the new
/// entity sees exactly the inserted value, and the removed entity's entry
/// is gone.
pub proof fn lemma_slot_reuse<T>(c: Map<u64, T>, e1: u64, e2: u64, v: T)
    ensures
        c.remove(e1).insert(e2, v)[e2] == v,
        e1 != e2 ==> !c.remove(e1).insert(e2, v).contains_key(e1),
{
}

} // verus!
