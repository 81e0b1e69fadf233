//! The access cells and the token layer: borrow discipline, namespace
//! checks, and the plain token-gated cells.

use bort::{
    BorrowState, MainThreadJail, Mutability, NMainCell, NOptRefCell, Namespace, Runtime,
    ThreadAccess, Token,
};

const MAIN: u64 = 1;
const OTHER: u64 = 2;

#[test]
fn shared_borrows_coexist_and_block_exclusive() {
    let rt = Runtime::new(MAIN);
    let token = rt.acquire(MAIN);
    let mut cell = NOptRefCell::new_full(41u32);

    cell.borrow(&token);
    cell.borrow(&token);
    assert!(cell.try_borrow(&token).is_ok());

    assert!(cell.try_borrow_mut(&token).is_err());
    cell.release_borrow();
    assert!(cell.try_borrow_mut(&token).is_err());
    cell.release_borrow();
    cell.release_borrow();

    assert_eq!(cell.try_borrow_mut(&token), Ok(true));
    cell.release_borrow_mut();
    cell.borrow_mut(&token);
    cell.release_borrow_mut();
}

#[test]
fn exclusive_borrow_blocks_shared_reads() {
    let rt = Runtime::new(MAIN);
    let token = rt.acquire(MAIN);
    let read = token.to_shared();
    let mut cell = NOptRefCell::new_full(5u8);

    cell.borrow_mut(&token);
    assert!(cell.try_borrow(&token).is_err());
    assert!(cell.try_get(&read).is_err());
    cell.release_borrow_mut();

    assert_eq!(cell.try_get(&read).unwrap(), Some(&5));
    assert_eq!(cell.get_or_none(&read), Some(&5));
    assert_eq!(cell.get(&read), &5);
}

#[test]
fn empty_cell_takes_no_borrow() {
    let rt = Runtime::new(MAIN);
    let token = rt.acquire(MAIN);
    let mut cell: NOptRefCell<u8> = NOptRefCell::new_empty();

    assert_eq!(cell.try_borrow(&token), Ok(false));
    assert_eq!(cell.try_borrow_mut(&token), Ok(false));
    assert!(!cell.borrow_or_none(&token));
    assert!(!cell.borrow_mut_or_none(&token));
    assert!(cell.is_empty(&token));
}

#[test]
fn replace_take_and_swap_move_values() {
    let rt = Runtime::new(MAIN);
    let token = rt.acquire(MAIN);
    let mut a = NOptRefCell::new(Some(1i32));
    let mut b = NOptRefCell::new(None);

    assert_eq!(a.replace(&token, Some(2)), Some(1));
    assert_eq!(a.take(&token), Some(2));
    assert_eq!(a.take(&token), None);

    a.set(Some(10));
    a.swap(&token, &mut b);
    assert!(a.is_empty(&token));
    assert_eq!(b.take(&token), Some(10));

    a.set(Some(7));
    b.set(Some(8));
    a.swap_multi_token(&token, &token, &mut b);
    assert_eq!(a.take(&token), Some(8));
    assert_eq!(b.take(&token), Some(7));
}

#[test]
fn try_replace_respects_outstanding_borrows() {
    let rt = Runtime::new(MAIN);
    let token = rt.acquire(MAIN);
    let mut cell = NOptRefCell::new_full(3u64);

    cell.borrow(&token);
    assert!(cell.try_replace(&token, Some(4)).is_err());
    cell.release_borrow();
    assert_eq!(cell.try_replace(&token, Some(4)), Ok(Some(3)));
    assert_eq!(cell.take(&token), Some(4));
}

#[test]
fn replace_with_computes_from_the_old_value() {
    let rt = Runtime::new(MAIN);
    let token = rt.acquire(MAIN);
    let mut cell = NOptRefCell::new_full(10u32);

    cell.replace_with(&token, |v: Option<u32>| v.map(|x| x + 1));
    assert_eq!(cell.get_or_none(&token.to_shared()), Some(&11));

    cell.borrow(&token);
    assert!(cell.try_replace_with(&token, |v: Option<u32>| v).is_err());
    assert_eq!(cell.get(&token.to_shared()), &11);
    cell.release_borrow();

    assert!(cell.try_replace_with(&token, |_v: Option<u32>| None).is_ok());
    assert!(cell.is_empty(&token));
}

#[test]
fn undo_leak_resets_the_borrow_state() {
    let rt = Runtime::new(MAIN);
    let token = rt.acquire(MAIN);
    let mut cell = NOptRefCell::new_full(1u8);
    cell.borrow(&token);
    cell.undo_leak();
    assert_eq!(cell.try_borrow_mut(&token), Ok(true));
    cell.release_borrow_mut();
}

#[test]
fn namespace_gates_access() {
    let rt = Runtime::new(MAIN);
    let token = rt.acquire(MAIN);
    let ns = Namespace::new(9);
    let scoped = token.namespaced(ns);
    let cell = NOptRefCell::new_namespaced_full(5u8, Some(ns));

    assert_eq!(token.check_access(9), None);
    assert_eq!(scoped.check_access(9), Some(ThreadAccess::Exclusive));
    assert_eq!(scoped.check_access(0), Some(ThreadAccess::Exclusive));
    assert_eq!(cell.namespace().unwrap().id(), 9);
    assert!(!cell.is_empty(&scoped));
}

#[test]
fn namespace_reassignment_moves_the_cell() {
    let rt = Runtime::new(MAIN);
    let token = rt.acquire(MAIN);
    let ns = Namespace::new(4);
    let scoped = token.namespaced(ns);
    let mut cell = NOptRefCell::new_namespaced_full(1u8, Some(ns));

    cell.set_namespace_ref(&scoped, None);
    assert!(cell.namespace().is_none());
    assert!(!cell.is_empty(&token));

    cell.set_namespace(Some(ns));
    assert_eq!(cell.namespace().unwrap().id(), 4);
}

#[test]
fn cell_accessors_without_tokens() {
    let mut cell = NOptRefCell::new_full(6u8);
    assert!(!cell.is_empty_mut());
    if let Some(v) = cell.get_mut() {
        *v = 7;
    }
    assert_eq!(cell.set(None), Some(7));
    assert!(cell.is_empty_mut());
    assert_eq!(cell.into_inner(), None);
    let full = NOptRefCell::new_full(1i16);
    assert_eq!(full.into_inner(), Some(1));
}

#[test]
fn read_tokens_come_from_legal_contexts_only() {
    let rt = Runtime::new(MAIN);
    assert!(rt.try_acquire(OTHER).is_none());
    let token = rt.try_acquire(MAIN).unwrap();
    assert_eq!(token.check_access(0), Some(ThreadAccess::Exclusive));

    let shared_from_other = rt.acquire_shared(OTHER, true);
    assert_eq!(shared_from_other.check_access(0), Some(ThreadAccess::Shared));
    let shared_from_main = rt.acquire_shared(MAIN, false);
    assert_eq!(shared_from_main.check_access(0), Some(ThreadAccess::Shared));
    assert_eq!(rt.main_thread(), MAIN);
}

#[test]
fn nmaincell_operations() {
    let rt = Runtime::new(MAIN);
    let token = rt.acquire(MAIN);
    let mut cell = NMainCell::new(1u32);

    assert_eq!(cell.get(&token), 1);
    cell.set(&token, 2);
    assert_eq!(cell.replace(&token, 3), 2);
    cell.set_mut(4);
    *cell.get_mut() += 1;
    let mut other = NMainCell::new(10);
    cell.swap(&token, &mut other);
    assert_eq!(cell.get(&token), 10);
    assert_eq!(other.into_inner(), 5);
}

#[test]
fn jail_releases_only_against_a_token() {
    let rt = Runtime::new(MAIN);
    let token = rt.acquire(MAIN);
    let jail = MainThreadJail::new_sync(5u8);
    assert_eq!(*jail.get(&token), 5);
    let jail = MainThreadJail::new_send(6u8);
    assert_eq!(*jail.get(&token), 6);
    let mut jail = MainThreadJail::new_unjail(&token, 7u8);
    *jail.get_mut() += 1;
    assert_eq!(jail.into_inner(), 8);
}

#[test]
fn mutability_lattice() {
    assert!(Mutability::Immutable.is_compatible_with(Mutability::Immutable));
    assert!(!Mutability::Immutable.is_compatible_with(Mutability::Mutable));
    assert!(!Mutability::Mutable.is_compatible_with(Mutability::Immutable));
    assert!(!Mutability::Mutable.is_compatible_with(Mutability::Mutable));

    assert!(matches!(
        Mutability::Immutable.strictest(Mutability::Immutable),
        Mutability::Immutable
    ));
    assert!(matches!(Mutability::Immutable.strictest(Mutability::Mutable), Mutability::Mutable));
    assert!(matches!(Mutability::Mutable.strictest(Mutability::Immutable), Mutability::Mutable));

    assert_eq!(Mutability::Mutable.adjective(), "mutably");
    assert_eq!(Mutability::Immutable.adjective(), "immutably");
}

#[test]
fn borrow_state_reports() {
    let rt = Runtime::new(MAIN);
    let token = rt.acquire(MAIN);
    let mut cell = NOptRefCell::new_full(1u8);
    cell.borrow(&token);
    cell.borrow(&token);
    cell.release_borrow();
    cell.release_borrow();
    assert_eq!(cell.try_borrow_mut(&token), Ok(true));
    let _ = BorrowState::Unborrowed;
}
