//! The archetype directory: canonicalization, idempotent transitions, and
//! the sorted-sequence helpers it is built from.

use bort::{contains_key, eq_iter, filter_out, hash_iter, merge_iters, SetMap};

#[test]
fn extend_is_idempotent_on_contained_key() {
    let mut m = SetMap::new();
    let a = m.lookup_extension(None, 10);
    let again = m.lookup_extension(Some(a), 10);
    assert_eq!(a, again);
}

#[test]
fn de_extend_is_idempotent_on_missing_key() {
    let mut m = SetMap::new();
    let a = m.lookup_extension(None, 10);
    let same = m.lookup_de_extension(Some(a), 99);
    assert_eq!(a, same);
    let root_same = m.lookup_de_extension(None, 10);
    assert_eq!(root_same, m.root());
}

#[test]
fn two_insertion_orders_share_one_node() {
    let mut m = SetMap::new();
    let a1 = m.lookup_extension(None, 1);
    let a12 = m.lookup_extension(Some(a1), 2);
    let b2 = m.lookup_extension(None, 2);
    let b21 = m.lookup_extension(Some(b2), 1);
    assert_eq!(a12, b21);
    assert_ne!(a1, b2);
    assert_eq!(m.node_keys(a12), vec![1, 2]);
}

#[test]
fn de_extend_returns_to_the_prior_node() {
    let mut m = SetMap::new();
    let a = m.lookup_extension(None, 5);
    let ab = m.lookup_extension(Some(a), 9);
    let back = m.lookup_de_extension(Some(ab), 9);
    assert_eq!(back, a);
    let gone = m.lookup_de_extension(Some(a), 5);
    assert_eq!(gone, m.root());
}

#[test]
fn cached_transition_resolves_to_the_same_node() {
    let mut m = SetMap::new();
    let a = m.lookup_extension(None, 3);
    let ab_first = m.lookup_extension(Some(a), 7);
    let ab_second = m.lookup_extension(Some(a), 7);
    assert_eq!(ab_first, ab_second);
    let count_before = m.node_total();
    let ab_third = m.lookup_extension(Some(a), 7);
    assert_eq!(ab_first, ab_third);
    assert_eq!(m.node_total(), count_before);
}

#[test]
fn node_keys_stay_sorted_and_deduplicated() {
    let mut m = SetMap::new();
    let mut node = None;
    for k in [40u64, 10, 30, 10, 20, 40] {
        let next = m.lookup_extension(node, k);
        node = Some(next);
    }
    assert_eq!(m.node_keys(node.unwrap()), vec![10, 20, 30, 40]);
}

#[test]
fn root_spells_the_empty_set() {
    let m = SetMap::new();
    assert_eq!(m.node_keys(m.root()), Vec::<u64>::new());
    assert_eq!(m.node_total(), 1);
}

#[test]
fn merge_iters_merges_sorted_disjoint_vectors() {
    let merged = merge_iters(&vec![1, 4, 9], &vec![2, 3, 10]);
    assert_eq!(merged, vec![1, 2, 3, 4, 9, 10]);
    let single = merge_iters(&vec![5, 7], &vec![6]);
    assert_eq!(single, vec![5, 6, 7]);
    let empty = merge_iters(&Vec::new(), &vec![8]);
    assert_eq!(empty, vec![8]);
}

#[test]
fn filter_out_drops_exactly_one_key() {
    assert_eq!(filter_out(&vec![1, 2, 3], 2), vec![1, 3]);
    assert_eq!(filter_out(&vec![1, 2, 3], 7), vec![1, 2, 3]);
    assert_eq!(filter_out(&vec![4], 4), Vec::<u64>::new());
}

#[test]
fn eq_iter_compares_whole_vectors() {
    assert!(eq_iter(&vec![1, 2], &vec![1, 2]));
    assert!(!eq_iter(&vec![1, 2], &vec![1, 3]));
    assert!(!eq_iter(&vec![1, 2], &vec![1, 2, 3]));
    assert!(eq_iter(&Vec::new(), &Vec::new()));
}

#[test]
fn contains_key_probes_membership() {
    assert!(contains_key(&vec![2, 4, 6], 4));
    assert!(!contains_key(&vec![2, 4, 6], 5));
    assert!(!contains_key(&Vec::new(), 1));
}

#[test]
fn hash_iter_is_deterministic() {
    let keys = vec![3u64, 1, 4, 1, 5];
    assert_eq!(hash_iter(&keys), hash_iter(&keys.clone()));
    assert_eq!(hash_iter(&Vec::new()), hash_iter(&Vec::new()));
}
