//! Hash-table storage used by the directory and the registries.
//!
//! The maps themselves come from the `hashbrown` crate and the hash of a
//! key sequence from the `rustc_hash` crate; both sit behind trusted
//! wrappers here. Each wrapped map is described to the verifier by a name
//! for its contents (`key_map_view`, `bucket_table_view`), and every
//! wrapper states over that name what the call does, so all logic above
//! this module is verified against those contracts.

use vstd::prelude::*;

verus! {

/// What a [`KeyMap`] holds: a finite map from `u64` keys to indices.
pub uninterp spec fn key_map_view(m: KeyMap) -> Map<u64, usize>;

/// What a [`BucketTable`] holds: a map from a hash value to the indices
/// filed under that hash.
pub uninterp spec fn bucket_table_view(t: BucketTable) -> Map<u64, Seq<usize>>;

/// The hash of a key sequence. `rustc_hash`'s hasher is a pure function of
/// the bytes written to it, so the result depends on the sequence alone;
/// its pages-long mixing algorithm is left unstated under this name.
pub uninterp spec fn fx_hash_of(keys: Seq<u64>) -> u64;

/// The contents of a freshly made [`KeyMap`].
pub open spec fn empty_key_map() -> Map<u64, usize> {
    Map::empty()
}

/// The contents of a freshly made [`BucketTable`].
pub open spec fn empty_bucket_table() -> Map<u64, Seq<usize>> {
    Map::empty()
}

/// A map from `u64` keys to `usize` indices, backed by `hashbrown`.
#[verifier::external_body]
pub struct KeyMap {
    inner: hashbrown::HashMap<u64, usize>,
}

impl KeyMap {
    /// Relies on hashbrown's `HashMap::new`: the new map is empty.
    #[verifier::external_body]
    pub fn new() -> (r: KeyMap)
        ensures
            key_map_view(r) == empty_key_map(),
    {
        KeyMap { inner: hashbrown::HashMap::new() }
    }

    /// Relies on hashbrown's `HashMap::get`: returns the value stored under
    /// the key, or nothing if the key is absent.
    #[verifier::external_body]
    pub fn get(&self, k: u64) -> (r: Option<usize>)
        ensures
            key_map_view(*self).contains_key(k) ==> r == Some(key_map_view(*self)[k]),
            !key_map_view(*self).contains_key(k) ==> r is None,
    {
        self.inner.get(&k).copied()
    }

    /// Relies on hashbrown's `HashMap::insert`: stores the value under the
    /// key, replacing any previous value.
    #[verifier::external_body]
    pub fn insert(&mut self, k: u64, v: usize)
        ensures
            key_map_view(*final(self)) == key_map_view(*old(self)).insert(k, v),
    {
        self.inner.insert(k, v);
    }

    /// Relies on hashbrown's `HashMap::remove`: removes and returns the
    /// value stored under the key, if any.
    #[verifier::external_body]
    pub fn remove(&mut self, k: u64) -> (r: Option<usize>)
        ensures
            key_map_view(*final(self)) == key_map_view(*old(self)).remove(k),
            key_map_view(*old(self)).contains_key(k) ==> r == Some(key_map_view(*old(self))[k]),
            !key_map_view(*old(self)).contains_key(k) ==> r is None,
    {
        self.inner.remove(&k)
    }

    /// Relies on hashbrown's `HashMap::len`: the number of stored keys.
    #[verifier::external_body]
    pub fn len(&self) -> (r: usize)
        ensures
            r == key_map_view(*self).dom().len(),
    {
        self.inner.len()
    }

    /// Relies on hashbrown's `HashMap::keys`: yields each stored key exactly
    /// once, in no particular order; nothing is stated about the order.
    #[verifier::external_body]
    pub fn keys_vec(&self) -> (r: Vec<u64>)
        ensures
            r@.to_set() == key_map_view(*self).dom(),
            r@.no_duplicates(),
    {
        self.inner.keys().copied().collect()
    }
}

/// A map from a hash value to the list of indices filed under it, backed
/// by `hashbrown`. Collision handling stays in verified code: callers walk
/// the bucket and compare full key sequences themselves.
#[verifier::external_body]
pub struct BucketTable {
    inner: hashbrown::HashMap<u64, Vec<usize>>,
}

impl BucketTable {
    /// Relies on hashbrown's `HashMap::new`: the new table is empty.
    #[verifier::external_body]
    pub fn new() -> (r: BucketTable)
        ensures
            bucket_table_view(r) == empty_bucket_table(),
    {
        BucketTable { inner: hashbrown::HashMap::new() }
    }

    /// Relies on hashbrown's `HashMap::get`: returns the bucket filed under
    /// the hash, or nothing if the hash is absent.
    #[verifier::external_body]
    pub fn get(&self, h: u64) -> (r: Option<Vec<usize>>)
        ensures
            r is Some <==> bucket_table_view(*self).contains_key(h),
            r matches Some(b) ==> b@ == bucket_table_view(*self)[h],
    {
        self.inner.get(&h).cloned()
    }

    /// Relies on hashbrown's `HashMap::insert`: stores the bucket under the
    /// hash, replacing any previous bucket.
    #[verifier::external_body]
    pub fn insert(&mut self, h: u64, bucket: Vec<usize>)
        ensures
            bucket_table_view(*final(self)) == bucket_table_view(*old(self)).insert(h, bucket@),
    {
        self.inner.insert(h, bucket);
    }
}

/// Hash a key sequence.
///
/// Relies on `rustc_hash::FxHasher` (through `Hash` for `Vec<u64>`, which
/// feeds the length and each element to the hasher): an unseeded pure
/// function, so equal sequences always hash equal.
#[verifier::external_body]
pub fn hash_iter(keys: &Vec<u64>) -> (r: u64)
    ensures
        r == fx_hash_of(keys@),
{
    let mut state = rustc_hash::FxHasher::default();
    std::hash::Hash::hash(keys, &mut state);
    std::hash::Hasher::finish(&state)
}

} // verus!
