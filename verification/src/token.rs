//! The token layer: capability objects that prove an operation on shared
//! storage is safe given the calling thread and the access level it needs.
//!
//! Exactly one thread in a process is the designated exclusive-access
//! thread, fixed when the [`Runtime`] is created. Only that thread can
//! obtain a [`MainThreadToken`]; [`ReadToken`]s may be handed to any thread,
//! but only for values that are safe to read concurrently. A token also
//! carries a namespace: a cell bound to an owner namespace honors a token
//! only if the token's namespace matches, while an unbound cell honors any
//! token. Thread identities appear here as plain integers supplied by the
//! caller, so the rules are stated and checked over those values.

use vstd::prelude::*;

verus! {

/// The level of access a token grants on a cell: either the exclusive
/// right to mutate and to take dynamic borrows, or the shared right to
/// read without touching borrow state.
#[derive(Clone, Copy, Debug, PartialEq, Eq, Structural)]
pub enum ThreadAccess {
    Exclusive,
    Shared,
}

/// A logical ownership domain. Cells may be bound to a namespace, and a
/// token acts on such a cell only when its own namespace matches.
/// Namespace ids are nonzero; zero is reserved to mean "unbound".
#[derive(Clone, Copy, Debug, PartialEq, Eq, Hash, Structural)]
pub struct Namespace {
    id: u64,
}

impl Namespace {
    pub closed spec fn spec_id(self) -> u64 {
        self.id
    }

    /// Zero is not a namespace: it stands for the absence of one.
    pub fn new(id: u64) -> (r: Namespace)
        requires
            id != 0,
        ensures
            r.spec_id() == id,
    {
        Namespace { id }
    }

    pub fn id(self) -> (r: u64)
        ensures
            r == self.spec_id(),
    {
        self.id
    }
}

/// A capability object. `grants` says which access level the token holds
/// over a cell owned by `owner` (`0` meaning the cell is unbound).
pub trait Token: Sized {
    spec fn grants(&self, owner: u64) -> Option<ThreadAccess>;

    /// The namespace check every cell performs before honoring a call.
    fn check_access(&self, owner: u64) -> (r: Option<ThreadAccess>)
        ensures
            r == self.grants(owner),
    ;
}

/// The singleton proof of being on the designated exclusive-access thread,
/// optionally scoped to a namespace. It cannot be constructed outside this
/// crate except through [`Runtime::acquire`], so holding one is proof that
/// the acquisition rule was met.
#[derive(Clone, Copy, Debug)]
pub struct MainThreadToken {
    namespace: u64,
}

impl MainThreadToken {
    /// The namespace this token is scoped to; `0` if it has none.
    pub closed spec fn spec_namespace(self) -> u64 {
        self.namespace
    }

    pub fn namespace(&self) -> (r: u64)
        ensures
            r == self.spec_namespace(),
    {
        self.namespace
    }

    /// Derive a token scoped to a namespace: only the exclusive context may
    /// mint per-namespace proofs.
    pub fn namespaced(&self, ns: Namespace) -> (r: MainThreadToken)
        ensures
            r.spec_namespace() == ns.spec_id(),
    {
        MainThreadToken { namespace: ns.id() }
    }

    /// A shared token is trivially derivable from the exclusive proof.
    pub fn to_shared(&self) -> (r: ReadToken)
        ensures
            r.spec_namespace() == self.spec_namespace(),
    {
        ReadToken { namespace: self.namespace }
    }
}

impl Token for MainThreadToken {
    open spec fn grants(&self, owner: u64) -> Option<ThreadAccess> {
        if owner == 0 || owner == self.spec_namespace() {
            Some(ThreadAccess::Exclusive)
        } else {
            None
        }
    }

    fn check_access(&self, owner: u64) -> (r: Option<ThreadAccess>) {
        if owner == 0 || owner == self.namespace {
            Some(ThreadAccess::Exclusive)
        } else {
            None
        }
    }
}

/// A proof of the right to read a value concurrently. May live on any
/// thread, but acquisition demands that the value's type is safe to share,
/// unless the caller is the exclusive-access thread itself.
#[derive(Clone, Copy, Debug)]
pub struct ReadToken {
    namespace: u64,
}

impl ReadToken {
    pub closed spec fn spec_namespace(self) -> u64 {
        self.namespace
    }

    pub fn namespace(&self) -> (r: u64)
        ensures
            r == self.spec_namespace(),
    {
        self.namespace
    }
}

impl Token for ReadToken {
    open spec fn grants(&self, owner: u64) -> Option<ThreadAccess> {
        if owner == 0 || owner == self.spec_namespace() {
            Some(ThreadAccess::Shared)
        } else {
            None
        }
    }

    fn check_access(&self, owner: u64) -> (r: Option<ThreadAccess>) {
        if owner == 0 || owner == self.namespace {
            Some(ThreadAccess::Shared)
        } else {
            None
        }
    }
}

/// The process-wide token source. It records which thread was designated
/// the exclusive-access thread at start; that choice is never reassigned.
pub struct Runtime {
    main_thread: u64,
}

impl Runtime {
    pub closed spec fn spec_main_thread(self) -> u64 {
        self.main_thread
    }

    /// Fix the designated exclusive-access thread for the process.
    pub fn new(main_thread: u64) -> (r: Runtime)
        ensures
            r.spec_main_thread() == main_thread,
    {
        Runtime { main_thread }
    }

    pub fn main_thread(&self) -> (r: u64)
        ensures
            r == self.spec_main_thread(),
    {
        self.main_thread
    }

    /// Acquire the exclusive token. Calling from any thread other than the
    /// designated one is a programming error, so that input is excluded.
    pub fn acquire(&self, current_thread: u64) -> (r: MainThreadToken)
        requires
            current_thread == self.spec_main_thread(),
        ensures
            r.spec_namespace() == 0,
    {
        MainThreadToken { namespace: 0 }
    }

    /// The fail-soft form of [`Runtime::acquire`].
    pub fn try_acquire(&self, current_thread: u64) -> (r: Option<MainThreadToken>)
        ensures
            r is Some <==> current_thread == self.spec_main_thread(),
            r matches Some(t) ==> t.spec_namespace() == 0,
    {
        if current_thread == self.main_thread {
            Some(MainThreadToken { namespace: 0 })
        } else {
            None
        }
    }

    /// Acquire a shared token. Legal from any thread when the value's type
    /// supports concurrent shared reads (`type_shareable`), and always legal
    /// from the designated exclusive-access thread.
    pub fn acquire_shared(&self, current_thread: u64, type_shareable: bool) -> (r: ReadToken)
        requires
            type_shareable || current_thread == self.spec_main_thread(),
        ensures
            r.spec_namespace() == 0,
    {
        ReadToken { namespace: 0 }
    }
}

/// How a dynamic borrow uses a cell; two uses are compatible exactly when
/// both are read-only.
#[derive(Clone, Copy, Debug, PartialEq, Eq, Structural)]
pub enum Mutability {
    Mutable,
    Immutable,
}

impl Mutability {
    pub fn adjective(self) -> (r: &'static str)
        ensures
            self is Mutable ==> r@ == "mutably"@,
            self is Immutable ==> r@ == "immutably"@,
    {
        match self {
            Mutability::Mutable => "mutably",
            Mutability::Immutable => "immutably",
        }
    }

    pub fn is_compatible_with(self, other: Mutability) -> (r: bool)
        ensures
            r == (self is Immutable && other is Immutable),
    {
        match (self, other) {
            (Mutability::Immutable, Mutability::Immutable) => true,
            _ => false,
        }
    }

    pub fn strictest(self, other: Mutability) -> (r: Mutability)
        ensures
            r is Immutable <==> (self is Immutable && other is Immutable),
    {
        match (self, other) {
            (Mutability::Immutable, Mutability::Immutable) => Mutability::Immutable,
            _ => Mutability::Mutable,
        }
    }
}

} // verus!
