//! Token-gated storage cells.
//!
//! [`NOptRefCell`] is the unit of dynamic borrow checking: an optional
//! value plus a borrow state, bound to an owner namespace, honoring an
//! operation only when the presented token grants the needed access level
//! on that namespace. Guarded access appears here as explicit transitions:
//! a borrow operation records the borrow in the cell's state, and the
//! matching release operation ends it, so the discipline that guard scopes
//! enforce at run time is stated and checked on the state machine itself.
//!
//! [`NMainCell`] is a plain token-gated cell without borrow states, and
//! [`MainThreadJail`] pins a value so it can only be read with a token.

use vstd::prelude::*;

use crate::token::{MainThreadToken, Namespace, ThreadAccess, Token};

verus! {

/// A token grants reading on a cell owned by `owner` if it grants any
/// access level at all: exclusive access subsumes shared reading.
pub open spec fn grants_read<Tok: Token>(token: Tok, owner: u64) -> bool {
    token.grants(owner) is Some
}

/// A token grants writing and dynamic borrowing only at the exclusive
/// level.
pub open spec fn grants_write<Tok: Token>(token: Tok, owner: u64) -> bool {
    token.grants(owner) == Some(ThreadAccess::Exclusive)
}

/// A value jailed to token holders: it can be put in from anywhere, but
/// only read against a proof of access.
pub struct MainThreadJail<T> {
    value: T,
}

impl<T> MainThreadJail<T> {
    pub closed spec fn spec_value(self) -> T {
        self.value
    }

    /// Jail a value that is itself safe to share; the jail adds nothing
    /// but the token gate.
    pub fn new_sync(value: T) -> (r: MainThreadJail<T>) where T: Sync
        ensures
            r.spec_value() == value,
    {
        MainThreadJail { value }
    }

    /// Jail a value that may move between threads; reads then all happen
    /// where the token proves they are allowed.
    pub fn new_send(value: T) -> (r: MainThreadJail<T>) where T: Send
        ensures
            r.spec_value() == value,
    {
        MainThreadJail { value }
    }

    /// Jail a value from a context that already holds the exclusive proof.
    pub fn new_unjail(_token: &MainThreadToken, value: T) -> (r: MainThreadJail<T>)
        ensures
            r.spec_value() == value,
    {
        MainThreadJail { value }
    }

    pub fn into_inner(self) -> (r: T)
        ensures
            r == self.spec_value(),
    {
        self.value
    }

    /// Read the jailed value; any token is proof of a legal context.
    pub fn get<Tok: Token>(&self, token: &Tok) -> (r: &T)
        requires
            grants_read(*token, 0),
        ensures
            *r == self.spec_value(),
    {
        &self.value
    }

    pub fn get_mut(&mut self) -> (r: &mut T)
        ensures
            *r == old(self).spec_value(),
            final(self).spec_value() == *final(r),
    {
        &mut self.value
    }
}

/// A token-gated cell of a plain value: no borrow states, reads hand out
/// copies, writes demand the exclusive token.
pub struct NMainCell<T> {
    value: T,
}

impl<T> NMainCell<T> {
    pub closed spec fn spec_value(self) -> T {
        self.value
    }

    pub fn new(value: T) -> (r: NMainCell<T>)
        ensures
            r.spec_value() == value,
    {
        NMainCell { value }
    }

    pub fn get_mut(&mut self) -> (r: &mut T)
        ensures
            *r == old(self).spec_value(),
            final(self).spec_value() == *final(r),
    {
        &mut self.value
    }

    pub fn set_mut(&mut self, value: T)
        ensures
            final(self).spec_value() == value,
    {
        self.value = value;
    }

    pub fn into_inner(self) -> (r: T)
        ensures
            r == self.spec_value(),
    {
        self.value
    }

    pub fn set(&mut self, _token: &MainThreadToken, value: T)
        ensures
            final(self).spec_value() == value,
    {
        self.value = value;
    }

    pub fn replace(&mut self, _token: &MainThreadToken, value: T) -> (r: T)
        ensures
            final(self).spec_value() == value,
            r == old(self).spec_value(),
    {
        let mut v = value;
        core::mem::swap(&mut v, &mut self.value);
        v
    }

    pub fn swap(&mut self, _token: &MainThreadToken, other: &mut NMainCell<T>)
        ensures
            final(self).spec_value() == old(other).spec_value(),
            final(other).spec_value() == old(self).spec_value(),
    {
        core::mem::swap(&mut self.value, &mut other.value);
    }

    /// Read a copy of the value; any token is proof of a legal context.
    pub fn get<Tok: Token>(&self, token: &Tok) -> (r: T) where T: Copy
        requires
            grants_read(*token, 0),
        ensures
            r == self.spec_value(),
    {
        self.value
    }
}

/// The dynamic borrow state of a cell: unborrowed, shared by some number
/// of readers, or exclusively borrowed by one writer.
#[derive(Clone, Copy, Debug, PartialEq, Eq, Structural)]
pub enum BorrowState {
    Unborrowed,
    Shared { count: u64 },
    Exclusive,
}

/// A shared read was refused because the cell is exclusively borrowed.
#[derive(Clone, Copy, Debug, PartialEq, Eq, Structural)]
pub struct BorrowError;

/// An exclusive operation was refused because a borrow is outstanding.
#[derive(Clone, Copy, Debug, PartialEq, Eq, Structural)]
pub struct BorrowMutError;

/// The access cell: an optional value and a dynamic borrow state, bound
/// to an owner namespace (`0` meaning unbound). Every operation first
/// passes the token's namespace check, then the borrow-state check.
pub struct NOptRefCell<T> {
    namespace: u64,
    value: Option<T>,
    borrow: BorrowState,
}

impl<T> NOptRefCell<T> {
    /// The owner namespace; `0` when the cell is unbound.
    pub closed spec fn spec_namespace(self) -> u64 {
        self.namespace
    }

    pub closed spec fn val(self) -> Option<T> {
        self.value
    }

    pub closed spec fn borrow_state(self) -> BorrowState {
        self.borrow
    }

    pub open spec fn is_occupied(self) -> bool {
        self.val() is Some
    }

    /// How many shared borrows are outstanding.
    pub open spec fn shared_count(self) -> nat {
        match self.borrow_state() {
            BorrowState::Shared { count } => count as nat,
            _ => 0,
        }
    }

    /// A shared borrow state always records at least one borrower.
    pub open spec fn wf(self) -> bool {
        self.borrow_state() matches BorrowState::Shared { count } ==> count >= 1
    }

    pub open spec fn spec_ns_of(ns: Option<Namespace>) -> u64 {
        match ns {
            Some(n) => n.spec_id(),
            None => 0,
        }
    }

    fn ns_of(ns: Option<Namespace>) -> (r: u64)
        ensures
            r == Self::spec_ns_of(ns),
    {
        match ns {
            Some(n) => n.id(),
            None => 0,
        }
    }

    // === Constructors ===

    pub fn new(value: Option<T>) -> (r: NOptRefCell<T>)
        ensures
            r.wf(),
            r.spec_namespace() == 0,
            r.val() == value,
            r.borrow_state() is Unborrowed,
    {
        NOptRefCell { namespace: 0, value, borrow: BorrowState::Unborrowed }
    }

    pub fn new_namespaced(value: Option<T>, namespace: Option<Namespace>) -> (r: NOptRefCell<T>)
        ensures
            r.wf(),
            r.spec_namespace() == Self::spec_ns_of(namespace),
            r.val() == value,
            r.borrow_state() is Unborrowed,
    {
        NOptRefCell { namespace: Self::ns_of(namespace), value, borrow: BorrowState::Unborrowed }
    }

    pub fn new_full(value: T) -> (r: NOptRefCell<T>)
        ensures
            r.wf(),
            r.spec_namespace() == 0,
            r.val() == Some(value),
            r.borrow_state() is Unborrowed,
    {
        NOptRefCell { namespace: 0, value: Some(value), borrow: BorrowState::Unborrowed }
    }

    pub fn new_empty() -> (r: NOptRefCell<T>)
        ensures
            r.wf(),
            r.spec_namespace() == 0,
            r.val() is None,
            r.borrow_state() is Unborrowed,
    {
        NOptRefCell { namespace: 0, value: None, borrow: BorrowState::Unborrowed }
    }

    pub fn new_namespaced_full(value: T, namespace: Option<Namespace>) -> (r: NOptRefCell<T>)
        ensures
            r.wf(),
            r.spec_namespace() == Self::spec_ns_of(namespace),
            r.val() == Some(value),
            r.borrow_state() is Unborrowed,
    {
        NOptRefCell {
            namespace: Self::ns_of(namespace),
            value: Some(value),
            borrow: BorrowState::Unborrowed,
        }
    }

    pub fn new_namespaced_empty(namespace: Option<Namespace>) -> (r: NOptRefCell<T>)
        ensures
            r.wf(),
            r.spec_namespace() == Self::spec_ns_of(namespace),
            r.val() is None,
            r.borrow_state() is Unborrowed,
    {
        NOptRefCell {
            namespace: Self::ns_of(namespace),
            value: None,
            borrow: BorrowState::Unborrowed,
        }
    }

    // === Owned access, no token needed ===

    pub fn into_inner(self) -> (r: Option<T>)
        ensures
            r == self.val(),
    {
        self.value
    }

    pub fn get_mut(&mut self) -> (r: Option<&mut T>)
        ensures
            final(self).spec_namespace() == old(self).spec_namespace(),
            final(self).borrow_state() == old(self).borrow_state(),
            r is Some <==> old(self).val() is Some,
            r matches Some(m) ==> *m == old(self).val().unwrap() && final(self).val() == Some(*final(m)),
            r is None ==> final(self).val() == old(self).val(),
    {
        self.value.as_mut()
    }

    pub fn is_empty_mut(&mut self) -> (r: bool)
        ensures
            *final(self) == *old(self),
            r == !old(self).is_occupied(),
    {
        self.value.is_none()
    }

    /// Replace the stored value outright, returning the previous one.
    /// Exclusive ownership stands in for the token here, but the dynamic
    /// borrow state must be fully released.
    pub fn set(&mut self, value: Option<T>) -> (r: Option<T>)
        requires
            old(self).borrow_state() is Unborrowed,
        ensures
            final(self).spec_namespace() == old(self).spec_namespace(),
            final(self).borrow_state() == old(self).borrow_state(),
            final(self).val() == value,
            r == old(self).val(),
    {
        let mut v = value;
        core::mem::swap(&mut v, &mut self.value);
        v
    }

    /// Reset the borrow state after a borrow was leaked without release.
    pub fn undo_leak(&mut self)
        ensures
            final(self).spec_namespace() == old(self).spec_namespace(),
            final(self).val() == old(self).val(),
            final(self).borrow_state() is Unborrowed,
            final(self).wf(),
    {
        self.borrow = BorrowState::Unborrowed;
    }

    // === Namespace management ===

    pub fn namespace(&self) -> (r: Option<Namespace>)
        ensures
            r is Some <==> self.spec_namespace() != 0,
            r matches Some(n) ==> n.spec_id() == self.spec_namespace(),
    {
        if self.namespace != 0 {
            Some(Namespace::new(self.namespace))
        } else {
            None
        }
    }

    pub fn set_namespace(&mut self, namespace: Option<Namespace>)
        requires
            old(self).borrow_state() is Unborrowed,
        ensures
            final(self).spec_namespace() == Self::spec_ns_of(namespace),
            final(self).val() == old(self).val(),
            final(self).borrow_state() == old(self).borrow_state(),
    {
        self.namespace = Self::ns_of(namespace);
    }

    /// Reassign the owner namespace through a token. Reassigning while any
    /// borrow is outstanding would let two ownership domains alias the
    /// same cell, so that state is excluded.
    pub fn set_namespace_ref<Tok: Token>(&mut self, token: &Tok, namespace: Option<Namespace>)
        requires
            grants_write(*token, old(self).spec_namespace()),
            old(self).borrow_state() is Unborrowed,
        ensures
            final(self).spec_namespace() == Self::spec_ns_of(namespace),
            final(self).val() == old(self).val(),
            final(self).borrow_state() == old(self).borrow_state(),
    {
        self.namespace = Self::ns_of(namespace);
    }

    // === Fail-soft probing reads ===

    /// Whether the cell is empty; any granted token may ask.
    pub fn is_empty<Tok: Token>(&self, token: &Tok) -> (r: bool)
        requires
            grants_read(*token, self.spec_namespace()),
        ensures
            r == !self.is_occupied(),
    {
        self.value.is_none()
    }

    /// Read without touching the borrow state; refused only while the cell
    /// is exclusively borrowed.
    pub fn try_get<Tok: Token>(&self, token: &Tok) -> (r: Result<Option<&T>, BorrowError>)
        requires
            grants_read(*token, self.spec_namespace()),
        ensures
            r is Err <==> self.borrow_state() is Exclusive,
            r matches Ok(v) ==> (v is Some <==> self.is_occupied()),
            r matches Ok(Some(x)) ==> *x == self.val().unwrap(),
    {
        match self.borrow {
            BorrowState::Exclusive => Err(BorrowError),
            _ => Ok(self.value.as_ref()),
        }
    }

    /// Read without touching the borrow state. Reading while exclusively
    /// borrowed is a programming error, so that state is excluded.
    pub fn get_or_none<Tok: Token>(&self, token: &Tok) -> (r: Option<&T>)
        requires
            grants_read(*token, self.spec_namespace()),
            !(self.borrow_state() is Exclusive),
        ensures
            r is Some <==> self.is_occupied(),
            r matches Some(x) ==> *x == self.val().unwrap(),
    {
        self.value.as_ref()
    }

    /// Read the stored value. The cell must be occupied and not
    /// exclusively borrowed; both violations are programming errors.
    pub fn get<Tok: Token>(&self, token: &Tok) -> (r: &T)
        requires
            grants_read(*token, self.spec_namespace()),
            !(self.borrow_state() is Exclusive),
            self.is_occupied(),
        ensures
            *r == self.val().unwrap(),
    {
        match self.value.as_ref() {
            Some(v) => v,
            None => vstd::pervasive::unreached(),
        }
    }

    // === Dynamic borrows ===

    /// Begin a shared borrow. Fails on an outstanding exclusive borrow;
    /// an empty cell takes no borrow. Shared borrows coexist: beginning
    /// one never blocks others, it only counts up.
    pub fn try_borrow<Tok: Token>(&mut self, token: &Tok) -> (r: Result<bool, BorrowError>)
        requires
            old(self).wf(),
            grants_write(*token, old(self).spec_namespace()),
            old(self).shared_count() < u64::MAX,
        ensures
            final(self).wf(),
            final(self).spec_namespace() == old(self).spec_namespace(),
            final(self).val() == old(self).val(),
            r is Err <==> old(self).borrow_state() is Exclusive,
            old(self).borrow_state() is Exclusive ==> final(self).borrow_state() == old(self).borrow_state(),
            !(old(self).borrow_state() is Exclusive) && !old(self).is_occupied() ==> (r matches Ok(b) && b == false) && final(self).borrow_state() == old(self).borrow_state(),
            !(old(self).borrow_state() is Exclusive) && old(self).is_occupied() ==> (r matches Ok(b) && b == true) && final(self).shared_count() == old(self).shared_count() + 1 && final(self).borrow_state() matches BorrowState::Shared { .. },
    {
        match self.borrow {
            BorrowState::Exclusive => Err(BorrowError),
            BorrowState::Unborrowed => {
                if self.value.is_some() {
                    self.borrow = BorrowState::Shared { count: 1 };
                    Ok(true)
                } else {
                    Ok(false)
                }
            },
            BorrowState::Shared { count } => {
                if self.value.is_some() {
                    self.borrow = BorrowState::Shared { count: count + 1 };
                    Ok(true)
                } else {
                    Ok(false)
                }
            },
        }
    }

    /// Begin a shared borrow, or report an empty cell. Beginning one while
    /// exclusively borrowed is a programming error, so that state is
    /// excluded.
    pub fn borrow_or_none<Tok: Token>(&mut self, token: &Tok) -> (r: bool)
        requires
            old(self).wf(),
            grants_write(*token, old(self).spec_namespace()),
            old(self).shared_count() < u64::MAX,
            !(old(self).borrow_state() is Exclusive),
        ensures
            final(self).wf(),
            final(self).spec_namespace() == old(self).spec_namespace(),
            final(self).val() == old(self).val(),
            r == old(self).is_occupied(),
            !old(self).is_occupied() ==> final(self).borrow_state() == old(self).borrow_state(),
            old(self).is_occupied() ==> final(self).shared_count() == old(self).shared_count() + 1 && final(self).borrow_state() matches BorrowState::Shared { .. },
    {
        match self.try_borrow(token) {
            Ok(b) => b,
            Err(_) => vstd::pervasive::unreached(),
        }
    }

    /// Begin a shared borrow of an occupied cell.
    pub fn borrow<Tok: Token>(&mut self, token: &Tok)
        requires
            old(self).wf(),
            grants_write(*token, old(self).spec_namespace()),
            old(self).shared_count() < u64::MAX,
            !(old(self).borrow_state() is Exclusive),
            old(self).is_occupied(),
        ensures
            final(self).wf(),
            final(self).spec_namespace() == old(self).spec_namespace(),
            final(self).val() == old(self).val(),
            final(self).shared_count() == old(self).shared_count() + 1,
            final(self).borrow_state() matches BorrowState::Shared { .. },
    {
        let _present = self.borrow_or_none(token);
    }

    /// End one shared borrow.
    pub fn release_borrow(&mut self)
        requires
            old(self).wf(),
            old(self).borrow_state() matches BorrowState::Shared { .. },
        ensures
            final(self).wf(),
            final(self).spec_namespace() == old(self).spec_namespace(),
            final(self).val() == old(self).val(),
            final(self).shared_count() == old(self).shared_count() - 1,
            old(self).shared_count() == 1 ==> final(self).borrow_state() is Unborrowed,
            old(self).shared_count() > 1 ==> final(self).borrow_state() matches BorrowState::Shared { .. },
    {
        match self.borrow {
            BorrowState::Shared { count } => {
                if count == 1 {
                    self.borrow = BorrowState::Unborrowed;
                } else {
                    self.borrow = BorrowState::Shared { count: count - 1 };
                }
            },
            _ => vstd::pervasive::unreached(),
        }
    }

    /// Begin an exclusive borrow. Fails while any borrow of any kind is
    /// outstanding; an empty cell takes no borrow.
    pub fn try_borrow_mut<Tok: Token>(&mut self, token: &Tok) -> (r: Result<bool, BorrowMutError>)
        requires
            old(self).wf(),
            grants_write(*token, old(self).spec_namespace()),
        ensures
            final(self).wf(),
            final(self).spec_namespace() == old(self).spec_namespace(),
            final(self).val() == old(self).val(),
            r is Err <==> !(old(self).borrow_state() is Unborrowed),
            r is Err ==> final(self).borrow_state() == old(self).borrow_state(),
            old(self).borrow_state() is Unborrowed && !old(self).is_occupied() ==> (r matches Ok(b) && b == false) && final(self).borrow_state() == old(self).borrow_state(),
            old(self).borrow_state() is Unborrowed && old(self).is_occupied() ==> (r matches Ok(b) && b == true) && final(self).borrow_state() is Exclusive,
    {
        match self.borrow {
            BorrowState::Unborrowed => {
                if self.value.is_some() {
                    self.borrow = BorrowState::Exclusive;
                    Ok(true)
                } else {
                    Ok(false)
                }
            },
            _ => Err(BorrowMutError),
        }
    }

    /// Begin an exclusive borrow, or report an empty cell. Conflicting
    /// with an outstanding borrow is a programming error, so that state is
    /// excluded.
    pub fn borrow_mut_or_none<Tok: Token>(&mut self, token: &Tok) -> (r: bool)
        requires
            old(self).wf(),
            grants_write(*token, old(self).spec_namespace()),
            old(self).borrow_state() is Unborrowed,
        ensures
            final(self).wf(),
            final(self).spec_namespace() == old(self).spec_namespace(),
            final(self).val() == old(self).val(),
            r == old(self).is_occupied(),
            !old(self).is_occupied() ==> final(self).borrow_state() == old(self).borrow_state(),
            old(self).is_occupied() ==> final(self).borrow_state() is Exclusive,
    {
        match self.try_borrow_mut(token) {
            Ok(b) => b,
            Err(_) => vstd::pervasive::unreached(),
        }
    }

    /// Begin an exclusive borrow of an occupied, unborrowed cell.
    pub fn borrow_mut<Tok: Token>(&mut self, token: &Tok)
        requires
            old(self).wf(),
            grants_write(*token, old(self).spec_namespace()),
            old(self).borrow_state() is Unborrowed,
            old(self).is_occupied(),
        ensures
            final(self).wf(),
            final(self).spec_namespace() == old(self).spec_namespace(),
            final(self).val() == old(self).val(),
            final(self).borrow_state() is Exclusive,
    {
        let _present = self.borrow_mut_or_none(token);
    }

    /// End the exclusive borrow.
    pub fn release_borrow_mut(&mut self)
        requires
            old(self).borrow_state() is Exclusive,
        ensures
            final(self).wf(),
            final(self).spec_namespace() == old(self).spec_namespace(),
            final(self).val() == old(self).val(),
            final(self).borrow_state() is Unborrowed,
    {
        self.borrow = BorrowState::Unborrowed;
    }

    // === Owning mutation through tokens ===

    /// Replace the stored value, or fail while any borrow is outstanding.
    pub fn try_replace<Tok: Token>(&mut self, token: &Tok, t: Option<T>) -> (r: Result<
        Option<T>,
        BorrowMutError,
    >)
        requires
            old(self).wf(),
            grants_write(*token, old(self).spec_namespace()),
        ensures
            final(self).wf(),
            final(self).spec_namespace() == old(self).spec_namespace(),
            final(self).borrow_state() == old(self).borrow_state(),
            r is Err <==> !(old(self).borrow_state() is Unborrowed),
            r is Err ==> final(self).val() == old(self).val(),
            r matches Ok(v) ==> v == old(self).val() && final(self).val() == t,
    {
        match self.borrow {
            BorrowState::Unborrowed => {
                let mut v = t;
                core::mem::swap(&mut v, &mut self.value);
                Ok(v)
            },
            _ => Err(BorrowMutError),
        }
    }

    /// Replace the stored value. Replacing while a borrow is outstanding
    /// is a programming error, so that state is excluded.
    pub fn replace<Tok: Token>(&mut self, token: &Tok, t: Option<T>) -> (r: Option<T>)
        requires
            old(self).wf(),
            grants_write(*token, old(self).spec_namespace()),
            old(self).borrow_state() is Unborrowed,
        ensures
            final(self).wf(),
            final(self).spec_namespace() == old(self).spec_namespace(),
            final(self).borrow_state() == old(self).borrow_state(),
            r == old(self).val(),
            final(self).val() == t,
    {
        match self.try_replace(token, t) {
            Ok(v) => v,
            Err(_) => vstd::pervasive::unreached(),
        }
    }

    /// Compute a replacement from the stored value, or fail while any
    /// borrow is outstanding. The function is applied to the taken-out
    /// value and its result is stored.
    pub fn try_replace_with<Tok: Token, F: FnOnce(Option<T>) -> Option<T>>(
        &mut self,
        token: &Tok,
        f: F,
    ) -> (r: Result<(), BorrowMutError>)
        requires
            old(self).wf(),
            grants_write(*token, old(self).spec_namespace()),
            old(self).borrow_state() is Unborrowed ==> f.requires((old(self).val(),)),
        ensures
            final(self).wf(),
            final(self).spec_namespace() == old(self).spec_namespace(),
            final(self).borrow_state() == old(self).borrow_state(),
            r is Err <==> !(old(self).borrow_state() is Unborrowed),
            r is Err ==> final(self).val() == old(self).val(),
            r is Ok ==> f.ensures((old(self).val(),), final(self).val()),
    {
        match self.borrow {
            BorrowState::Unborrowed => {
                let mut v: Option<T> = None;
                core::mem::swap(&mut v, &mut self.value);
                self.value = f(v);
                Ok(())
            },
            _ => Err(BorrowMutError),
        }
    }

    /// Compute a replacement from the stored value. Replacing while a
    /// borrow is outstanding is a programming error, so that state is
    /// excluded.
    pub fn replace_with<Tok: Token, F: FnOnce(Option<T>) -> Option<T>>(
        &mut self,
        token: &Tok,
        f: F,
    )
        requires
            old(self).wf(),
            grants_write(*token, old(self).spec_namespace()),
            old(self).borrow_state() is Unborrowed,
            f.requires((old(self).val(),)),
        ensures
            final(self).wf(),
            final(self).spec_namespace() == old(self).spec_namespace(),
            final(self).borrow_state() == old(self).borrow_state(),
            f.ensures((old(self).val(),), final(self).val()),
    {
        let _ = self.try_replace_with(token, f);
    }

    /// Take the stored value out, leaving the cell empty.
    pub fn take<Tok: Token>(&mut self, token: &Tok) -> (r: Option<T>)
        requires
            old(self).wf(),
            grants_write(*token, old(self).spec_namespace()),
            old(self).borrow_state() is Unborrowed,
        ensures
            final(self).wf(),
            final(self).spec_namespace() == old(self).spec_namespace(),
            final(self).borrow_state() == old(self).borrow_state(),
            r == old(self).val(),
            final(self).val() is None,
    {
        self.replace(token, None)
    }

    /// Swap the values of two cells, each under its own token.
    pub fn swap_multi_token<Tok1: Token, Tok2: Token>(
        &mut self,
        my_token: &Tok1,
        other_token: &Tok2,
        other: &mut NOptRefCell<T>,
    )
        requires
            old(self).wf(),
            old(other).wf(),
            grants_write(*my_token, old(self).spec_namespace()),
            grants_write(*other_token, old(other).spec_namespace()),
            old(self).borrow_state() is Unborrowed,
            old(other).borrow_state() is Unborrowed,
        ensures
            final(self).wf(),
            final(other).wf(),
            final(self).spec_namespace() == old(self).spec_namespace(),
            final(other).spec_namespace() == old(other).spec_namespace(),
            final(self).borrow_state() == old(self).borrow_state(),
            final(other).borrow_state() == old(other).borrow_state(),
            final(self).val() == old(other).val(),
            final(other).val() == old(self).val(),
    {
        core::mem::swap(&mut self.value, &mut other.value);
    }

    /// Swap the values of two cells under one token that grants exclusive
    /// access to both namespaces.
    pub fn swap<Tok: Token>(&mut self, token: &Tok, other: &mut NOptRefCell<T>)
        requires
            old(self).wf(),
            old(other).wf(),
            grants_write(*token, old(self).spec_namespace()),
            grants_write(*token, old(other).spec_namespace()),
            old(self).borrow_state() is Unborrowed,
            old(other).borrow_state() is Unborrowed,
        ensures
            final(self).wf(),
            final(other).wf(),
            final(self).spec_namespace() == old(self).spec_namespace(),
            final(other).spec_namespace() == old(other).spec_namespace(),
            final(self).borrow_state() == old(self).borrow_state(),
            final(other).borrow_state() == old(other).borrow_state(),
            final(self).val() == old(other).val(),
            final(other).val() == old(self).val(),
    {
        self.swap_multi_token(token, token, other)
    }
}

impl<T> Default for NOptRefCell<T> {
    /// The default cell: empty, unbound, unborrowed.
    fn default() -> (r: NOptRefCell<T>)
        ensures
            r.wf(),
            r.spec_namespace() == 0,
            r.val() is None,
            r.borrow_state() is Unborrowed,
    {
        NOptRefCell::new(None)
    }
}

} // verus!
