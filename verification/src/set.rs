//! The archetype directory: a hash-consed table of canonical component-kind
//! sets, each node exposing cached "add one kind" / "remove one kind"
//! transitions to its neighboring canonical nodes.
//!
//! A node is identified by its strictly sorted sequence of component-kind
//! identifiers. The directory guarantees that two nodes hold equal kind
//! sets exactly when they are the same node, so set equality can be decided
//! by comparing node handles.

use vstd::prelude::*;

use crate::table::{bucket_table_view, fx_hash_of, hash_iter, key_map_view, BucketTable, KeyMap};

verus! {

/// A strictly increasing sequence: sorted with no duplicates, so it is the
/// canonical spelling of its set of elements.
pub open spec fn sorted_strict(s: Seq<u64>) -> bool {
    forall|i: int, j: int| 0 <= i < j < s.len() ==> s[i] < s[j]
}

/// Strictly sorted sequences with equal element sets are equal: the sorted
/// spelling of a set is canonical.
pub proof fn lemma_sorted_strict_unique(a: Seq<u64>, b: Seq<u64>)
    requires
        sorted_strict(a),
        sorted_strict(b),
        a.to_set() == b.to_set(),
    ensures
        a == b,
{
    broadcast use vstd::seq_lib::group_to_multiset_ensures;

    let leq = |x: u64, y: u64| x <= y;
    assert(a.no_duplicates());
    assert(b.no_duplicates());
    a.lemma_multiset_has_no_duplicates();
    b.lemma_multiset_has_no_duplicates();
    assert forall|x: u64| true implies a.to_multiset().count(x) == b.to_multiset().count(x) by {
        if a.to_set().contains(x) {
            assert(a.contains(x));
            assert(b.contains(x));
            assert(a.to_multiset().count(x) == 1 && b.to_multiset().count(x) == 1);
        } else {
            assert(!a.contains(x));
            assert(!b.contains(x));
            assert(a.to_multiset().count(x) == 0 && b.to_multiset().count(x) == 0);
        }
    }
    assert(a.to_multiset() =~= b.to_multiset());
    assert(vstd::relations::sorted_by(a, leq));
    assert(vstd::relations::sorted_by(b, leq));
    assert(vstd::relations::total_ordering(leq)) by {
        assert(forall|x: u64, y: u64| #[trigger] leq(x, y) || #[trigger] leq(y, x));
    }
    vstd::seq_lib::lemma_sorted_unique(a, b, leq);
    assert(a =~= b);
}

/// Compare two key vectors element by element.
pub fn eq_iter(a: &Vec<u64>, b: &Vec<u64>) -> (r: bool)
    ensures
        r == (a@ == b@),
{
    if a.len() != b.len() {
        return false;
    }
    let n = a.len();
    let mut i: usize = 0;
    while i < n
        invariant
            n == a@.len() == b@.len(),
            0 <= i <= n,
            forall|k: int| 0 <= k < i ==> a@[k] == b@[k],
        decreases n - i,
    {
        if a[i] != b[i] {
            return false;
        }
        i += 1;
    }
    proof {
        assert(a@ =~= b@);
    }
    true
}

/// Whether a sorted key vector contains a key.
pub fn contains_key(v: &Vec<u64>, k: u64) -> (r: bool)
    ensures
        r == v@.contains(k),
{
    let n = v.len();
    let mut i: usize = 0;
    while i < n
        invariant
            n == v@.len(),
            0 <= i <= n,
            forall|j: int| 0 <= j < i ==> v@[j] != k,
        decreases n - i,
    {
        if v[i] == k {
            return true;
        }
        i += 1;
    }
    false
}

/// Merge two strictly sorted key vectors with disjoint element sets into
/// the strictly sorted spelling of their union, by a two-pointer walk.
pub fn merge_iters(a: &Vec<u64>, b: &Vec<u64>) -> (r: Vec<u64>)
    requires
        sorted_strict(a@),
        sorted_strict(b@),
        a@.to_set().disjoint(b@.to_set()),
        a@.len() + b@.len() <= usize::MAX,
    ensures
        sorted_strict(r@),
        r@.to_set() == a@.to_set().union(b@.to_set()),
        r@.len() == a@.len() + b@.len(),
{
    let mut out: Vec<u64> = Vec::new();
    let mut i: usize = 0;
    let mut j: usize = 0;
    let na = a.len();
    let nb = b.len();
    while i < na || j < nb
        invariant
            na == a@.len(),
            nb == b@.len(),
            0 <= i <= na,
            0 <= j <= nb,
            sorted_strict(a@),
            sorted_strict(b@),
            a@.to_set().disjoint(b@.to_set()),
            sorted_strict(out@),
            out@.len() == i + j,
            out@.to_set() == a@.take(i as int).to_set().union(b@.take(j as int).to_set()),
            out@.len() > 0 && i < na ==> out@.last() < a@[i as int],
            out@.len() > 0 && j < nb ==> out@.last() < b@[j as int],
        decreases na - i + nb - j,
    {
        let take_a = if j >= nb {
            true
        } else if i >= na {
            false
        } else {
            a[i] < b[j]
        };
        if take_a {
            let ghost old_out = out@;
            out.push(a[i]);
            proof {
                lemma_push_take_set(a@, i as int, old_out);
                if a@.to_set().contains(a@[i as int]) && b@.to_set().contains(a@[i as int]) {
                    assert(false);
                }
                if i < na - 1 {
                    assert(a@[i as int] < a@[i as int + 1]);
                }
                if j < nb {
                    // a[i] <= any remaining b element: either a[i] < b[j] or j was
                    // exhausted; b is sorted past j.
                    assert(a@[i as int] < b@[j as int]);
                }
            }
            i += 1;
        } else {
            let ghost old_out = out@;
            out.push(b[j]);
            proof {
                lemma_push_take_set(b@, j as int, old_out);
                if i < na {
                    if a@[i as int] == b@[j as int] {
                        assert(a@.to_set().contains(a@[i as int]));
                        assert(b@.to_set().contains(b@[j as int]));
                        assert(false);
                    }
                    assert(b@[j as int] < a@[i as int]);
                }
                if j < nb - 1 {
                    assert(b@[j as int] < b@[j as int + 1]);
                }
            }
            j += 1;
        }
    }
    proof {
        assert(a@.take(na as int) =~= a@);
        assert(b@.take(nb as int) =~= b@);
    }
    out
}

/// After pushing `s[i]` onto `out`, the element set of the result is the
/// element set of `out` joined with `s[i]`, and the prefix sets line up.
proof fn lemma_push_take_set(s: Seq<u64>, i: int, out: Seq<u64>)
    requires
        0 <= i < s.len(),
    ensures
        s.take(i + 1).to_set() == s.take(i).to_set().insert(s[i]),
        out.push(s[i]).to_set() == out.to_set().insert(s[i]),
{
    Seq::<u64>::lemma_take_succ(s, i);
    vstd::seq_lib::seq_to_set_distributes_over_add(s.take(i), seq![s[i]]);
    assert(seq![s[i]].to_set() =~= Set::empty().insert(s[i])) by {
        assert(seq![s[i]][0] == s[i]);
        assert(seq![s[i]].contains(s[i]));
        assert forall|x: u64| seq![s[i]].to_set().contains(x) implies x == s[i] by {
            let idx = choose|idx: int| 0 <= idx < 1 && seq![s[i]][idx] == x;
        }
    }
    assert(s.take(i + 1).to_set() =~= s.take(i).to_set().insert(s[i]));
    vstd::seq_lib::seq_to_set_distributes_over_add(out, seq![s[i]]);
    assert(out.push(s[i]) =~= out + seq![s[i]]);
    assert(out.push(s[i]).to_set() =~= out.to_set().insert(s[i]));
}

/// Copy a strictly sorted key vector, leaving out one key: the strictly
/// sorted spelling of the set difference.
pub fn filter_out(v: &Vec<u64>, k: u64) -> (r: Vec<u64>)
    requires
        sorted_strict(v@),
    ensures
        sorted_strict(r@),
        r@.to_set() == v@.to_set().remove(k),
        v@.contains(k) ==> r@.len() == v@.len() - 1,
        !v@.contains(k) ==> r@ == v@,
{
    let n = v.len();
    let mut out: Vec<u64> = Vec::new();
    let mut i: usize = 0;
    while i < n
        invariant
            n == v@.len(),
            0 <= i <= n,
            sorted_strict(v@),
            sorted_strict(out@),
            out@.to_set() == v@.take(i as int).to_set().remove(k),
            v@.take(i as int).contains(k) ==> out@.len() == i - 1,
            !v@.take(i as int).contains(k) ==> out@ == v@.take(i as int),
            forall|x: u64| out@.to_set().contains(x) ==> exists|j: int|
                0 <= j < i && v@[j] == x,
        decreases n - i,
    {
        let ghost old_out = out@;
        let ghost pre = v@.take(i as int);
        if v[i] != k {
            out.push(v[i]);
        }
        proof {
            lemma_push_take_set(v@, i as int, old_out);
            if v@[i as int] != k {
                // The pushed element exceeds everything already kept.
                assert forall|x: u64| old_out.to_set().contains(x) implies x < v@[i as int] by {
                    let j = choose|j: int| 0 <= j < i && v@[j] == x;
                }
                if old_out.len() > 0 {
                    assert(old_out.to_set().contains(old_out.last()));
                }
                assert(out@.to_set() =~= pre.to_set().remove(k).insert(v@[i as int]));
                assert(out@.to_set() =~= v@.take(i as int + 1).to_set().remove(k));
                if !v@.take(i as int + 1).contains(k) {
                    assert(!pre.contains(k));
                    assert(out@ =~= v@.take(i as int + 1));
                }
            } else {
                assert(pre.to_set().remove(k) =~= v@.take(i as int + 1).to_set().remove(k));
                assert(v@.take(i as int + 1).contains(k)) by {
                    assert(v@.take(i as int + 1)[i as int] == k);
                }
                if pre.contains(k) {
                    let j = choose|j: int| 0 <= j < pre.len() && pre[j] == k;
                    assert(v@[j] == v@[i as int]);
                    assert(false);
                }
            }
        }
        i += 1;
    }
    proof {
        assert(v@.take(n as int) =~= v@);
    }
    out
}

/// The element set of a one-key vector.
proof fn lemma_singleton_set(k: u64)
    ensures
        seq![k].to_set() == Set::empty().insert(k),
{
    assert(seq![k][0] == k);
    assert(seq![k].contains(k));
    assert forall|x: u64| seq![k].to_set().contains(x) implies x == k by {
        let idx = choose|idx: int| 0 <= idx < 1 && seq![k][idx] == x;
    }
    assert(seq![k].to_set() =~= Set::empty().insert(k));
}

/// Copy a key vector element by element.
fn copy_keys(v: &Vec<u64>) -> (r: Vec<u64>)
    ensures
        r@ == v@,
{
    let n = v.len();
    let mut out: Vec<u64> = Vec::new();
    let mut i: usize = 0;
    while i < n
        invariant
            n == v@.len(),
            0 <= i <= n,
            out@ == v@.take(i as int),
        decreases n - i,
    {
        out.push(v[i]);
        proof {
            assert(out@ =~= v@.take(i as int + 1));
        }
        i += 1;
    }
    proof {
        assert(v@.take(n as int) =~= v@);
    }
    out
}

/// One canonical node: its sorted key sequence and its cached transitions.
/// `extensions[k]` leads to the node whose set adds `k`; `de_extensions[k]`
/// leads to the node whose set drops `k`.
pub struct SetMapEntry {
    keys: Vec<u64>,
    extensions: KeyMap,
    de_extensions: KeyMap,
}

/// The directory of canonical key-set nodes: an arena of nodes addressed by
/// index, plus a content-addressed table from the hash of a node's key
/// sequence to the nodes filed under that hash. The table is consulted
/// before any node is allocated, with a full sequence comparison on every
/// candidate, so hash collisions never produce a duplicate node.
pub struct SetMap {
    root: usize,
    map: BucketTable,
    arena: Vec<SetMapEntry>,
}

impl SetMap {
    /// How many canonical nodes exist. Nodes are never freed: a node,
    /// once created, stays canonical for the life of the directory.
    pub closed spec fn node_count(self) -> nat {
        self.arena@.len()
    }

    pub open spec fn valid(self, i: usize) -> bool {
        i < self.node_count()
    }

    /// The canonical sorted key sequence of a node.
    pub closed spec fn keys_of(self, i: usize) -> Seq<u64> {
        self.arena@[i as int].keys@
    }

    /// The key set of a node.
    pub open spec fn key_set_of(self, i: usize) -> Set<u64> {
        self.keys_of(i).to_set()
    }

    pub closed spec fn spec_root(self) -> usize {
        self.root
    }

    /// The node a lookup starts from: the given one, or the root when none
    /// is given.
    pub open spec fn base_index(self, base: Option<usize>) -> usize {
        match base {
            Some(b) => b,
            None => self.spec_root(),
        }
    }

    spec fn exts(self, i: int) -> Map<u64, usize> {
        key_map_view(self.arena@[i].extensions)
    }

    spec fn dexts(self, i: int) -> Map<u64, usize> {
        key_map_view(self.arena@[i].de_extensions)
    }

    spec fn bucket(self, h: u64) -> Seq<usize> {
        bucket_table_view(self.map)[h]
    }

    spec fn wf_keys(self) -> bool {
        forall|i: int| 0 <= i < self.arena@.len() ==> sorted_strict(#[trigger] self.arena@[i].keys@)
    }

    /// No two nodes spell the same key sequence.
    spec fn wf_canonical(self) -> bool {
        forall|i: int, j: int|
            0 <= i < self.arena@.len() && 0 <= j < self.arena@.len() && self.arena@[i].keys@
                =~= self.arena@[j].keys@ ==> i == j
    }

    /// Every node is filed in the table under the hash of its keys.
    spec fn wf_table_complete(self) -> bool {
        forall|i: int|
            0 <= i < self.arena@.len() ==> {
                let h = fx_hash_of(#[trigger] self.arena@[i].keys@);
                bucket_table_view(self.map).contains_key(h) && self.bucket(h).contains(i as usize)
            }
    }

    /// Everything filed in the table is a node whose keys hash to its slot.
    spec fn wf_table_sound(self) -> bool {
        forall|h: u64, bi: int|
            bucket_table_view(self.map).contains_key(h) && 0 <= bi < self.bucket(h).len() ==> {
                let i = #[trigger] self.bucket(h)[bi];
                i < self.arena@.len() && fx_hash_of(self.arena@[i as int].keys@) == h
            }
    }

    /// A cached extension edge really leads to the node for "this set plus
    /// that key".
    spec fn wf_edges(self) -> bool {
        forall|i: int, k: u64|
            0 <= i < self.arena@.len() && #[trigger] self.exts(i).contains_key(k) ==> {
                let j = self.exts(i)[k];
                &&& j < self.arena@.len()
                &&& !self.arena@[i].keys@.to_set().contains(k)
                &&& self.arena@[j as int].keys@.to_set() == self.arena@[i].keys@.to_set().insert(k)
            }
    }

    /// A cached de-extension edge really leads to the node for "this set
    /// minus that key".
    spec fn wf_dedges(self) -> bool {
        forall|i: int, k: u64|
            0 <= i < self.arena@.len() && #[trigger] self.dexts(i).contains_key(k) ==> {
                let j = self.dexts(i)[k];
                &&& j < self.arena@.len()
                &&& self.arena@[i].keys@.to_set().contains(k)
                &&& self.arena@[j as int].keys@.to_set() == self.arena@[i].keys@.to_set().remove(k)
            }
    }

    pub closed spec fn wf(self) -> bool {
        &&& self.root == 0
        &&& self.arena@.len() >= 1
        &&& self.arena@[0].keys@.len() == 0
        &&& self.wf_keys()
        &&& self.wf_canonical()
        &&& self.wf_table_complete()
        &&& self.wf_table_sound()
        &&& self.wf_edges()
        &&& self.wf_dedges()
    }

    /// Growth never disturbs existing nodes: every node stays valid and
    /// keeps its key sequence, so handles held across lookups stay good.
    pub open spec fn nodes_preserved(pre: SetMap, post: SetMap) -> bool {
        forall|i: usize|
            pre.valid(i) ==> post.valid(i) && post.keys_of(i) == pre.keys_of(i)
    }

    spec fn edges_preserved(pre: SetMap, post: SetMap) -> bool {
        forall|i: int|
            0 <= i < pre.arena@.len() ==> #[trigger] post.exts(i) == pre.exts(i) && post.dexts(i)
                == pre.dexts(i)
    }

    /// A node's sorted key sequence has exactly one entry per element of
    /// its key set.
    pub proof fn lemma_node_len(self, i: usize)
        requires
            self.wf(),
            self.valid(i),
        ensures
            self.keys_of(i).len() == self.key_set_of(i).len(),
            self.key_set_of(i).finite(),
    {
        broadcast use vstd::seq_lib::seq_to_set_is_finite;

        assert(sorted_strict(self.keys_of(i)));
        assert(self.keys_of(i).no_duplicates());
        self.keys_of(i).unique_seq_to_set();
    }

    /// Two well-formed nodes with equal key sets are the same node: handle
    /// equality decides set equality.
    pub proof fn lemma_canonical(self, i: usize, j: usize)
        requires
            self.wf(),
            self.valid(i),
            self.valid(j),
            self.key_set_of(i) == self.key_set_of(j),
        ensures
            i == j,
    {
        lemma_sorted_strict_unique(self.keys_of(i), self.keys_of(j));
        assert(self.arena@[i as int].keys@ =~= self.arena@[j as int].keys@);
    }

    /// The directory with a single node: the root, spelling the empty set.
    pub fn new() -> (r: SetMap)
        ensures
            r.wf(),
            r.node_count() == 1,
            r.spec_root() == 0,
            r.keys_of(0).len() == 0,
    {
        let root_keys: Vec<u64> = Vec::new();
        let h = hash_iter(&root_keys);
        let entry = SetMapEntry {
            keys: root_keys,
            extensions: KeyMap::new(),
            de_extensions: KeyMap::new(),
        };
        let mut arena: Vec<SetMapEntry> = Vec::new();
        arena.push(entry);
        let mut map = BucketTable::new();
        let mut bucket: Vec<usize> = Vec::new();
        bucket.push(0);
        map.insert(h, bucket);
        let r = SetMap { root: 0, map, arena };
        proof {
            assert(r.bucket(h) =~= seq![0usize]);
            assert(r.bucket(h).contains(0usize)) by {
                assert(r.bucket(h)[0] == 0usize);
            }
        }
        r
    }

    pub fn root(&self) -> (r: usize)
        ensures
            r == self.spec_root(),
    {
        self.root
    }

    pub fn node_total(&self) -> (r: usize)
        ensures
            r == self.node_count(),
    {
        self.arena.len()
    }

    /// The canonical key sequence of a node, for introspection and for
    /// destructor dispatch.
    pub fn node_keys(&self, i: usize) -> (r: Vec<u64>)
        requires
            self.valid(i),
        ensures
            r@ == self.keys_of(i),
    {
        copy_keys(&self.arena[i].keys)
    }

    /// Find or allocate the canonical node spelling `target_keys`: probe the
    /// content-addressed table under the sequence's hash, compare every
    /// candidate's full sequence, and only allocate when none matches.
    fn intern(&mut self, target_keys: Vec<u64>) -> (r: usize)
        requires
            old(self).wf(),
            sorted_strict(target_keys@),
            old(self).node_count() + 1 <= usize::MAX,
        ensures
            final(self).wf(),
            final(self).valid(r),
            final(self).keys_of(r) == target_keys@,
            final(self).spec_root() == old(self).spec_root(),
            old(self).node_count() <= final(self).node_count() <= old(self).node_count() + 1,
            Self::nodes_preserved(*old(self), *final(self)),
            Self::edges_preserved(*old(self), *final(self)),
    {
        let h = hash_iter(&target_keys);
        let bucket_opt = self.map.get(h);
        let ghost old_self = *self;
        match bucket_opt {
            Some(bvec) => {
                let blen = bvec.len();
                let mut x: usize = 0;
                let mut found: Option<usize> = None;
                while x < blen && found.is_none()
                    invariant
                        *self == old_self,
                        self.wf(),
                        bucket_table_view(self.map).contains_key(h),
                        bvec@ == self.bucket(h),
                        blen == bvec@.len(),
                        0 <= x <= blen,
                        found is None ==> forall|bi: int|
                            0 <= bi < x ==> self.arena@[bvec@[bi] as int].keys@ != target_keys@,
                        found matches Some(c) ==> self.valid(c) && self.keys_of(c) == target_keys@,
                    decreases blen - x + (if found is None { 1int } else { 0int }),
                {
                    let cand = bvec[x];
                    proof {
                        assert(self.bucket(h)[x as int] == cand);
                    }
                    if eq_iter(&self.arena[cand].keys, &target_keys) {
                        found = Some(cand);
                    } else {
                        x += 1;
                    }
                }
                match found {
                    Some(c) => c,
                    None => {
                        proof {
                            assert forall|i: int|
                                0 <= i < self.arena@.len() implies self.arena@[i].keys@
                                != target_keys@ by {
                                if self.arena@[i].keys@ == target_keys@ {
                                    let bh = fx_hash_of(self.arena@[i].keys@);
                                    assert(bh == h);
                                    assert(self.bucket(h).contains(i as usize));
                                    let bi = choose|bi: int|
                                        0 <= bi < self.bucket(h).len() && self.bucket(h)[bi] == i as usize;
                                    assert(self.arena@[bvec@[bi] as int].keys@ != target_keys@);
                                }
                            }
                        }
                        let mut bvec2 = bvec;
                        self.alloc_node(target_keys, h, &mut bvec2)
                    },
                }
            },
            None => {
                proof {
                    assert forall|i: int|
                        0 <= i < self.arena@.len() implies self.arena@[i].keys@ != target_keys@ by {
                        if self.arena@[i].keys@ == target_keys@ {
                            assert(bucket_table_view(self.map).contains_key(
                                fx_hash_of(self.arena@[i].keys@),
                            ));
                        }
                    }
                }
                let mut bvec2: Vec<usize> = Vec::new();
                self.alloc_node(target_keys, h, &mut bvec2)
            },
        }
    }

    /// Allocate a fresh canonical node and file it in the table. `bvec` is
    /// the bucket currently filed under `h` (empty if none).
    fn alloc_node(&mut self, target_keys: Vec<u64>, h: u64, bvec: &mut Vec<usize>) -> (r: usize)
        requires
            old(self).wf(),
            sorted_strict(target_keys@),
            old(self).node_count() + 1 <= usize::MAX,
            h == fx_hash_of(target_keys@),
            bucket_table_view(old(self).map).contains_key(h) ==> old(bvec)@ == old(self).bucket(h),
            !bucket_table_view(old(self).map).contains_key(h) ==> old(bvec)@.len() == 0,
            forall|i: int|
                0 <= i < old(self).arena@.len() ==> (#[trigger] old(self).arena@[i].keys@)
                    != target_keys@,
        ensures
            final(self).wf(),
            final(self).valid(r),
            final(self).keys_of(r) == target_keys@,
            final(self).spec_root() == old(self).spec_root(),
            final(self).node_count() == old(self).node_count() + 1,
            Self::nodes_preserved(*old(self), *final(self)),
            Self::edges_preserved(*old(self), *final(self)),
    {
        let j = self.arena.len();
        let entry = SetMapEntry {
            keys: target_keys,
            extensions: KeyMap::new(),
            de_extensions: KeyMap::new(),
        };
        self.arena.push(entry);
        bvec.push(j);
        let mut new_bucket: Vec<usize> = Vec::new();
        std::mem::swap(&mut new_bucket, bvec);
        self.map.insert(h, new_bucket);
        proof {
            let fs = *self;
            let os = *old(self);
            let ob = if bucket_table_view(os.map).contains_key(h) {
                os.bucket(h)
            } else {
                Seq::<usize>::empty()
            };
            assert(fs.arena@ == os.arena@.push(fs.arena@[j as int]));
            assert(fs.bucket(h) == ob.push(j));
            // Sorted and canonical.
            assert(fs.wf_keys());
            assert forall|a: int, b: int|
                0 <= a < fs.arena@.len() && 0 <= b < fs.arena@.len() && fs.arena@[a].keys@
                    =~= fs.arena@[b].keys@ implies a == b by {
                if a != b {
                    if a < os.arena@.len() && b < os.arena@.len() {
                        assert(os.wf_canonical());
                    } else if a == j as int {
                        assert(os.arena@[b].keys@ != target_keys@);
                    } else {
                        assert(b == j as int);
                        assert(os.arena@[a].keys@ != target_keys@);
                    }
                }
            }
            // Table completeness.
            assert forall|i: int| 0 <= i < fs.arena@.len() implies {
                let hh = fx_hash_of(#[trigger] fs.arena@[i].keys@);
                bucket_table_view(fs.map).contains_key(hh) && fs.bucket(hh).contains(i as usize)
            } by {
                if i == j as int {
                    assert(fs.bucket(h)[ob.len() as int] == j);
                    assert(fs.bucket(h).contains(j));
                } else {
                    let hh = fx_hash_of(fs.arena@[i].keys@);
                    assert(os.arena@[i].keys@ == fs.arena@[i].keys@);
                    assert(bucket_table_view(os.map).contains_key(hh));
                    assert(os.bucket(hh).contains(i as usize));
                    if hh == h {
                        let bi = choose|bi: int|
                            0 <= bi < os.bucket(hh).len() && os.bucket(hh)[bi] == i as usize;
                        assert(fs.bucket(h)[bi] == i as usize);
                        assert(fs.bucket(hh).contains(i as usize));
                    } else {
                        assert(fs.bucket(hh) == os.bucket(hh));
                    }
                }
            }
            // Table soundness.
            assert forall|hh: u64, bi: int|
                bucket_table_view(fs.map).contains_key(hh) && 0 <= bi < fs.bucket(hh).len() implies {
                let i = #[trigger] fs.bucket(hh)[bi];
                i < fs.arena@.len() && fx_hash_of(fs.arena@[i as int].keys@) == hh
            } by {
                if hh == h {
                    if bi < ob.len() {
                        assert(bucket_table_view(os.map).contains_key(h));
                        assert(os.bucket(h)[bi] == fs.bucket(h)[bi]);
                    } else {
                        assert(fs.bucket(h)[bi] == j);
                    }
                } else {
                    assert(fs.bucket(hh) == os.bucket(hh));
                }
            }
            // Edges: the new node has none; old nodes' edges are unchanged
            // and their targets' keys are unchanged.
            assert(key_map_view(fs.arena@[j as int].extensions) == crate::table::empty_key_map());
            assert(key_map_view(fs.arena@[j as int].de_extensions)
                == crate::table::empty_key_map());
            assert(fs.wf_edges()) by {
                assert forall|i: int, k: u64|
                    0 <= i < fs.arena@.len() && #[trigger] fs.exts(i).contains_key(k) implies {
                    let jj = fs.exts(i)[k];
                    &&& jj < fs.arena@.len()
                    &&& !fs.arena@[i].keys@.to_set().contains(k)
                    &&& fs.arena@[jj as int].keys@.to_set() == fs.arena@[i].keys@.to_set().insert(k)
                } by {
                    if i == j as int {
                        assert(!fs.exts(i).contains_key(k));
                    } else {
                        assert(os.exts(i).contains_key(k));
                    }
                }
            }
            assert(fs.wf_dedges()) by {
                assert forall|i: int, k: u64|
                    0 <= i < fs.arena@.len() && #[trigger] fs.dexts(i).contains_key(k) implies {
                    let jj = fs.dexts(i)[k];
                    &&& jj < fs.arena@.len()
                    &&& fs.arena@[i].keys@.to_set().contains(k)
                    &&& fs.arena@[jj as int].keys@.to_set() == fs.arena@[i].keys@.to_set().remove(k)
                } by {
                    if i == j as int {
                        assert(!fs.dexts(i).contains_key(k));
                    } else {
                        assert(os.dexts(i).contains_key(k));
                    }
                }
            }
        }
        j
    }
    /// The canonical node for "this node's set plus `key`".
    ///
    /// Extending by a key the node already carries returns the node itself,
    /// untouched. Otherwise the node's cached extension edges are consulted;
    /// on a miss the merged sequence is interned through the
    /// content-addressed table and the edge is cached both ways.
    pub fn lookup_extension(&mut self, base: Option<usize>, key: u64) -> (r: usize)
        requires
            old(self).wf(),
            base matches Some(b) ==> old(self).valid(b),
            old(self).node_count() + 1 <= usize::MAX,
            old(self).keys_of(old(self).base_index(base)).len() + 1 <= usize::MAX,
        ensures
            final(self).wf(),
            final(self).valid(r),
            final(self).key_set_of(r) == old(self).key_set_of(old(self).base_index(base)).insert(key),
            old(self).key_set_of(old(self).base_index(base)).contains(key) ==> r == old(self).base_index(base) && *final(self) == *old(self),
            final(self).keys_of(r).len() <= old(self).keys_of(old(self).base_index(base)).len() + 1,
            Self::nodes_preserved(*old(self), *final(self)),
            final(self).spec_root() == old(self).spec_root(),
            old(self).node_count() <= final(self).node_count() <= old(self).node_count() + 1,
    {
        let b = match base {
            Some(bb) => bb,
            None => self.root,
        };
        if contains_key(&self.arena[b].keys, key) {
            proof {
                assert(self.key_set_of(b).contains(key));
                assert(self.key_set_of(b).insert(key) =~= self.key_set_of(b));
            }
            return b;
        }
        proof {
            if self.key_set_of(b).contains(key) {
                assert(self.keys_of(b).contains(key));
            }
        }
        let cached = self.arena[b].extensions.get(key);
        match cached {
            Some(j) => {
                proof {
                    assert(self.exts(b as int).contains_key(key));
                    self.lemma_node_len(b);
                    self.lemma_node_len(j);
                }
                return j;
            },
            None => {},
        }
        let mut single: Vec<u64> = Vec::new();
        single.push(key);
        proof {
            lemma_singleton_set(key);
            assert(single@ =~= seq![key]);
            assert(self.keys_of(b).to_set().disjoint(single@.to_set())) by {
                assert forall|x: u64|
                    self.keys_of(b).to_set().contains(x) && single@.to_set().contains(x)
                    implies false by {
                    assert(x == key);
                    assert(self.keys_of(b).contains(key));
                }
            }
        }
        let target = merge_iters(&self.arena[b].keys, &single);
        let ghost target_set = target@.to_set();
        proof {
            assert(target_set =~= self.key_set_of(b).insert(key));
        }
        let j = self.intern(target);
        let ghost mid = *self;
        proof {
            assert(mid.keys_of(b) == old(self).keys_of(b));
            if b == j {
                assert(mid.key_set_of(j).contains(key));
                assert(old(self).keys_of(b).contains(key));
                assert(false);
            }
        }
        let e = &mut self.arena[b];
        e.extensions.insert(key, j);
        let e2 = &mut self.arena[j];
        e2.de_extensions.insert(key, b);
        proof {
            self.lemma_wf_after_edge_cache(mid, b, j, key);
        }
        j
    }

    /// The canonical node for "this node's set minus `key`".
    ///
    /// De-extending by a key the node lacks returns the node itself,
    /// untouched; otherwise the cached removal edges are consulted and the
    /// filtered sequence interned on a miss, caching the edge both ways.
    pub fn lookup_de_extension(&mut self, base: Option<usize>, key: u64) -> (r: usize)
        requires
            old(self).wf(),
            base matches Some(b) ==> old(self).valid(b),
            old(self).node_count() + 1 <= usize::MAX,
        ensures
            final(self).wf(),
            final(self).valid(r),
            final(self).key_set_of(r) == old(self).key_set_of(old(self).base_index(base)).remove(key),
            !old(self).key_set_of(old(self).base_index(base)).contains(key) ==> r == old(self).base_index(base) && *final(self) == *old(self),
            final(self).keys_of(r).len() <= old(self).keys_of(old(self).base_index(base)).len(),
            Self::nodes_preserved(*old(self), *final(self)),
            final(self).spec_root() == old(self).spec_root(),
            old(self).node_count() <= final(self).node_count() <= old(self).node_count() + 1,
    {
        let b = match base {
            Some(bb) => bb,
            None => self.root,
        };
        if !contains_key(&self.arena[b].keys, key) {
            proof {
                if self.key_set_of(b).contains(key) {
                    assert(self.keys_of(b).contains(key));
                }
                assert(self.key_set_of(b).remove(key) =~= self.key_set_of(b));
            }
            return b;
        }
        let cached = self.arena[b].de_extensions.get(key);
        match cached {
            Some(j) => {
                proof {
                    assert(self.dexts(b as int).contains_key(key));
                    self.lemma_node_len(b);
                    self.lemma_node_len(j);
                }
                return j;
            },
            None => {},
        }
        let target = filter_out(&self.arena[b].keys, key);
        let j = self.intern(target);
        let ghost mid = *self;
        proof {
            assert(mid.keys_of(b) == old(self).keys_of(b));
            if b == j {
                assert(!mid.key_set_of(j).contains(key));
                assert(old(self).key_set_of(b).contains(key));
                assert(false);
            }
        }
        let e = &mut self.arena[b];
        e.de_extensions.insert(key, j);
        let e2 = &mut self.arena[j];
        e2.extensions.insert(key, b);
        proof {
            mid.lemma_wf_after_edge_cache_rev(*self, b, j, key);
        }
        j
    }

    /// After interning the extension target `j` of `b` by `key`, caching
    /// the two edges keeps the directory well formed.
    proof fn lemma_wf_after_edge_cache(self, mid: SetMap, b: usize, j: usize, key: u64)
        requires
            mid.wf(),
            b < mid.arena@.len(),
            j < mid.arena@.len(),
            b != j,
            !mid.arena@[b as int].keys@.to_set().contains(key),
            mid.arena@[j as int].keys@.to_set() == mid.arena@[b as int].keys@.to_set().insert(key),
            self.root == mid.root,
            self.map == mid.map,
            self.arena@.len() == mid.arena@.len(),
            forall|i: int|
                0 <= i < mid.arena@.len() ==> #[trigger] self.arena@[i].keys@
                    == mid.arena@[i].keys@,
            self.exts(b as int) == mid.exts(b as int).insert(key, j),
            self.dexts(b as int) == mid.dexts(b as int),
            self.exts(j as int) == mid.exts(j as int),
            self.dexts(j as int) == mid.dexts(j as int).insert(key, b),
            forall|i: int|
                #![trigger self.exts(i)]
                #![trigger self.dexts(i)]
                0 <= i < mid.arena@.len() && i != b && i != j ==> self.exts(i) == mid.exts(i)
                    && self.dexts(i) == mid.dexts(i),
        ensures
            self.wf(),
            SetMap::nodes_preserved(mid, self),
    {
        assert(self.wf_keys());
        assert(self.wf_canonical());
        assert forall|i: int| 0 <= i < self.arena@.len() implies {
            let h = fx_hash_of(#[trigger] self.arena@[i].keys@);
            bucket_table_view(self.map).contains_key(h) && self.bucket(h).contains(i as usize)
        } by {
            assert(self.arena@[i].keys@ == mid.arena@[i].keys@);
            assert(bucket_table_view(self.map) == bucket_table_view(mid.map));
        }
        assert forall|h: u64, bi: int|
            bucket_table_view(self.map).contains_key(h) && 0 <= bi < self.bucket(h).len() implies {
            let i = #[trigger] self.bucket(h)[bi];
            i < self.arena@.len() && fx_hash_of(self.arena@[i as int].keys@) == h
        } by {
            assert(bucket_table_view(self.map) == bucket_table_view(mid.map));
            let i = mid.bucket(h)[bi];
            assert(i < mid.arena@.len() && fx_hash_of(mid.arena@[i as int].keys@) == h);
            assert(self.arena@[i as int].keys@ == mid.arena@[i as int].keys@);
        }
        assert forall|i: int, k: u64|
            0 <= i < self.arena@.len() && #[trigger] self.exts(i).contains_key(k) implies {
            let jj = self.exts(i)[k];
            &&& jj < self.arena@.len()
            &&& !self.arena@[i].keys@.to_set().contains(k)
            &&& self.arena@[jj as int].keys@.to_set() == self.arena@[i].keys@.to_set().insert(k)
        } by {
            if i == b && k == key {
            } else if i == b {
                assert(mid.exts(i).contains_key(k));
            } else {
                assert(mid.exts(i).contains_key(k));
            }
        }
        assert forall|i: int, k: u64|
            0 <= i < self.arena@.len() && #[trigger] self.dexts(i).contains_key(k) implies {
            let jj = self.dexts(i)[k];
            &&& jj < self.arena@.len()
            &&& self.arena@[i].keys@.to_set().contains(k)
            &&& self.arena@[jj as int].keys@.to_set() == self.arena@[i].keys@.to_set().remove(k)
        } by {
            if i == j && k == key {
                assert(self.arena@[j as int].keys@.to_set().contains(key));
                assert(self.arena@[b as int].keys@.to_set() == self.arena@[
                    j as int
                ].keys@.to_set().remove(key)) by {
                    assert(self.arena@[j as int].keys@.to_set().remove(key) =~= self.arena@[
                        b as int
                    ].keys@.to_set());
                }
            } else if i == j {
                assert(mid.dexts(i).contains_key(k));
            } else {
                assert(mid.dexts(i).contains_key(k));
            }
        }
    }

    /// After interning the de-extension target `j` of `b` by `key`, caching
    /// the two edges keeps the directory well formed.
    proof fn lemma_wf_after_edge_cache_rev(self, post: SetMap, b: usize, j: usize, key: u64)
        requires
            self.wf(),
            b < self.arena@.len(),
            j < self.arena@.len(),
            b != j,
            self.arena@[b as int].keys@.to_set().contains(key),
            self.arena@[j as int].keys@.to_set() == self.arena@[b as int].keys@.to_set().remove(key),
            post.root == self.root,
            post.map == self.map,
            post.arena@.len() == self.arena@.len(),
            forall|i: int|
                0 <= i < self.arena@.len() ==> #[trigger] post.arena@[i].keys@
                    == self.arena@[i].keys@,
            post.dexts(b as int) == self.dexts(b as int).insert(key, j),
            post.exts(b as int) == self.exts(b as int),
            post.dexts(j as int) == self.dexts(j as int),
            post.exts(j as int) == self.exts(j as int).insert(key, b),
            forall|i: int|
                #![trigger post.exts(i)]
                #![trigger post.dexts(i)]
                0 <= i < self.arena@.len() && i != b && i != j ==> post.exts(i) == self.exts(i)
                    && post.dexts(i) == self.dexts(i),
        ensures
            post.wf(),
            SetMap::nodes_preserved(self, post),
    {
        assert(post.wf_keys());
        assert(post.wf_canonical());
        assert forall|i: int| 0 <= i < post.arena@.len() implies {
            let h = fx_hash_of(#[trigger] post.arena@[i].keys@);
            bucket_table_view(post.map).contains_key(h) && post.bucket(h).contains(i as usize)
        } by {
            assert(post.arena@[i].keys@ == self.arena@[i].keys@);
            assert(bucket_table_view(post.map) == bucket_table_view(self.map));
        }
        assert forall|h: u64, bi: int|
            bucket_table_view(post.map).contains_key(h) && 0 <= bi < post.bucket(h).len() implies {
            let i = #[trigger] post.bucket(h)[bi];
            i < post.arena@.len() && fx_hash_of(post.arena@[i as int].keys@) == h
        } by {
            assert(bucket_table_view(post.map) == bucket_table_view(self.map));
            let i = self.bucket(h)[bi];
            assert(i < self.arena@.len() && fx_hash_of(self.arena@[i as int].keys@) == h);
            assert(post.arena@[i as int].keys@ == self.arena@[i as int].keys@);
        }
        assert forall|i: int, k: u64|
            0 <= i < post.arena@.len() && #[trigger] post.exts(i).contains_key(k) implies {
            let jj = post.exts(i)[k];
            &&& jj < post.arena@.len()
            &&& !post.arena@[i].keys@.to_set().contains(k)
            &&& post.arena@[jj as int].keys@.to_set() == post.arena@[i].keys@.to_set().insert(k)
        } by {
            if i == j && k == key {
                assert(!post.arena@[j as int].keys@.to_set().contains(key));
                assert(post.arena@[b as int].keys@.to_set() == post.arena@[
                    j as int
                ].keys@.to_set().insert(key)) by {
                    assert(post.arena@[j as int].keys@.to_set().insert(key) =~= post.arena@[
                        b as int
                    ].keys@.to_set());
                }
            } else if i == j {
                assert(self.exts(i).contains_key(k));
            } else {
                assert(self.exts(i).contains_key(k));
            }
        }
        assert forall|i: int, k: u64|
            0 <= i < post.arena@.len() && #[trigger] post.dexts(i).contains_key(k) implies {
            let jj = post.dexts(i)[k];
            &&& jj < post.arena@.len()
            &&& post.arena@[i].keys@.to_set().contains(k)
            &&& post.arena@[jj as int].keys@.to_set() == post.arena@[i].keys@.to_set().remove(k)
        } by {
            if i == b && k == key {
            } else if i == b {
                assert(self.dexts(i).contains_key(k));
            } else {
                assert(self.dexts(i).contains_key(k));
            }
        }
    }
}

} // verus!
