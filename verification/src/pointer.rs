//! Descriptions of pointer types: what a pointer can do, and through which functions.
use vstd::prelude::*;

use crate::memory::{FnRef, Host, MemOp, PtrConst, PtrMut};
use crate::shape::ShapeRef;

verus! {

/// Describes a pointer: the functions that work on it, and the shape it points to.
#[derive(Clone, Copy, Debug)]
pub struct PointerDef {
    /// Functions for interacting with the pointer.
    pub vtable: PointerVTable,
    /// Shape of the inner type of the pointer, if not opaque.
    pub pointee: Option<ShapeRef>,
    /// Shape of the corresponding strong pointer, if this pointer is weak.
    pub weak: Option<ShapeRef>,
    /// Shape of the corresponding weak pointer, if this pointer is strong.
    pub strong: Option<ShapeRef>,
    /// Various characteristics of the pointer.
    pub flags: PointerFlags,
    /// The kind of pointer, where it is a common one.
    pub known: Option<KnownPointer>,
}

impl PointerDef {
    /// A new pointer can be built as an independent owner of its pointee: by moving the pointee
    /// in, by borrowing it and then taking ownership, or because the pointer is a `Box`, an `Rc`
    /// or an `Arc`.
    pub open spec fn is_constructible(self) -> bool {
        ||| self.vtable.new_into_fn is Some
        ||| self.vtable.borrow_from_pointee_fn is Some && self.vtable.promote_to_owned_fn is Some
        ||| self.known == Some(KnownPointer::Box)
        ||| self.known == Some(KnownPointer::Rc)
        ||| self.known == Some(KnownPointer::Arc)
    }

    /// Returns the shape of the inner type of the pointer, if not opaque.
    pub fn pointee(&self) -> (r: Option<ShapeRef>)
        ensures
            r == self.pointee,
    {
        self.pointee
    }

    /// Returns the shape of the corresponding strong pointer, if this pointer is weak.
    pub fn weak(&self) -> (r: Option<ShapeRef>)
        ensures
            r == self.weak,
    {
        self.weak
    }

    /// Returns the shape of the corresponding weak pointer, if this pointer is strong.
    pub fn strong(&self) -> (r: Option<ShapeRef>)
        ensures
            r == self.strong,
    {
        self.strong
    }

    /// Whether a new pointer can be constructed as an independent owner of its pointee.
    ///
    /// Most pointer types take the pointee over. Others can borrow the pointee and at once
    /// materialize an owned representation through the paired borrow and promote functions.
    pub fn constructible_from_pointee(&self) -> (r: bool)
        ensures
            r == self.is_constructible(),
    {
        self.vtable.new_into_fn.is_some() || (self.vtable.borrow_from_pointee_fn.is_some()
            && self.vtable.promote_to_owned_fn.is_some()) || match self.known {
            Some(KnownPointer::Box) | Some(KnownPointer::Rc) | Some(KnownPointer::Arc) => true,
            _ => false,
        }
    }
}

/// The pointer is weak (like `std::sync::Weak`).
pub const POINTER_WEAK: u8 = 1;

/// The pointer is atomic (like `std::sync::Arc`).
pub const POINTER_ATOMIC: u8 = 2;

/// The pointer is a lock (like `std::sync::Mutex`).
pub const POINTER_LOCK: u8 = 4;

/// A set of the characteristics above, one bit each.
#[derive(Clone, Copy, PartialEq, Eq, Structural, Debug)]
pub struct PointerFlags {
    pub bits: u8,
}

/// Type-erased result of locking a mutex-like or reader-writer lock pointer.
///
/// The type parameter `P` is the capability of the returned pointer: [`PtrConst`] for shared
/// access, [`PtrMut`] for exclusive access.
pub struct LockResult<P> {
    /// The data that was locked.
    pub data: P,
    /// The guard that protects the data.
    pub guard: PtrConst,
    /// The functions for the guard.
    pub guard_vtable: LockGuardVTable,
}

/// Result of acquiring a read lock: the data is immutable.
pub type ReadLockResult = LockResult<PtrConst>;

/// Result of acquiring a write or mutex lock: the data is mutable.
pub type WriteLockResult = LockResult<PtrMut>;

impl<P> LockResult<P> {
    /// Puts together a lock result from its components.
    pub fn new(data: P, guard: PtrConst, guard_vtable: LockGuardVTable) -> (r: LockResult<P>)
        ensures
            r == (LockResult { data, guard, guard_vtable }),
    {
        LockResult { data, guard, guard_vtable }
    }

    /// Returns a reference to the locked data.
    pub fn data(&self) -> (r: &P)
        ensures
            *r == self.data,
    {
        &self.data
    }

    /// Releases the lock: the guard is dropped, once, and the result is gone.
    pub fn release<H: Host>(self, host: &mut H)
        ensures
            final(host).view() == old(host).view().after(
                MemOp::DropGuard { f: self.guard_vtable.drop_in_place, guard: self.guard.addr },
            ),
    {
        host.act(MemOp::DropGuard { f: self.guard_vtable.drop_in_place, guard: self.guard.addr });
    }
}

impl LockResult<PtrMut> {
    /// Returns a const pointer to the locked data (convenience for write locks).
    pub fn data_const(&self) -> (r: PtrConst)
        ensures
            r.addr == self.data.addr,
    {
        self.data.as_const()
    }
}

/// Functions for manipulating a guard.
#[derive(Clone, Copy, PartialEq, Eq, Structural, Debug)]
pub struct LockGuardVTable {
    /// Drops the guard in place.
    pub drop_in_place: FnRef,
}

/// Functions for creating and manipulating slice builders.
#[derive(Clone, Copy, PartialEq, Eq, Structural, Debug)]
pub struct SliceBuilderVTable {
    /// Creates a slice builder.
    pub new_fn: FnRef,
    /// Moves an item into a slice builder.
    pub push_fn: FnRef,
    /// Turns a slice builder into a pointer.
    pub convert_fn: FnRef,
    /// Discards a slice builder.
    pub free_fn: FnRef,
}

impl SliceBuilderVTable {
    /// A slice builder table; all functions are required.
    pub fn new(new_fn: FnRef, push_fn: FnRef, convert_fn: FnRef, free_fn: FnRef) -> (r:
        SliceBuilderVTable)
        ensures
            r == (SliceBuilderVTable { new_fn, push_fn, convert_fn, free_fn }),
    {
        SliceBuilderVTable { new_fn, push_fn, convert_fn, free_fn }
    }
}

/// Functions for interacting with a pointer.
#[derive(Clone, Copy, Debug)]
pub struct PointerVTable {
    /// Tries to upgrade a weak pointer to a strong one.
    pub upgrade_into_fn: Option<FnRef>,
    /// Downgrades a strong pointer to a weak one.
    pub downgrade_into_fn: Option<FnRef>,
    /// Borrows the inner value of the pointer.
    pub borrow_fn: Option<FnRef>,
    /// Moves a value into a new pointer.
    pub new_into_fn: Option<FnRef>,
    /// Constructs a borrowed pointer from a stable initialized pointee.
    pub borrow_from_pointee_fn: Option<FnRef>,
    /// Promotes a borrowed pointer to its owned representation in place.
    pub promote_to_owned_fn: Option<FnRef>,
    /// Acquires a lock on a mutex-like pointer.
    pub lock_fn: Option<FnRef>,
    /// Acquires a read lock on a reader-writer lock.
    pub read_fn: Option<FnRef>,
    /// Acquires a write lock on a reader-writer lock.
    pub write_fn: Option<FnRef>,
    /// Builds slices behind the pointer.
    pub slice_builder_vtable: Option<SliceBuilderVTable>,
}

impl PointerVTable {
    /// The table with all entries absent.
    pub open spec fn spec_new() -> PointerVTable {
        PointerVTable {
            upgrade_into_fn: None,
            downgrade_into_fn: None,
            borrow_fn: None,
            new_into_fn: None,
            borrow_from_pointee_fn: None,
            promote_to_owned_fn: None,
            lock_fn: None,
            read_fn: None,
            write_fn: None,
            slice_builder_vtable: None,
        }
    }

    /// A table with all entries set to `None`.
    pub fn new() -> (r: PointerVTable)
        ensures
            r == PointerVTable::spec_new(),
    {
        PointerVTable {
            upgrade_into_fn: None,
            downgrade_into_fn: None,
            borrow_fn: None,
            new_into_fn: None,
            borrow_from_pointee_fn: None,
            promote_to_owned_fn: None,
            lock_fn: None,
            read_fn: None,
            write_fn: None,
            slice_builder_vtable: None,
        }
    }
}

impl Default for PointerVTable {
    fn default() -> (r: PointerVTable)
        ensures
            r == PointerVTable::spec_new(),
    {
        PointerVTable::new()
    }
}

/// Common standard library pointer kinds.
#[derive(Clone, Copy, PartialEq, Eq, Structural, Debug, Hash)]
#[non_exhaustive]
pub enum KnownPointer {
    /// `Box<T>`, heap-allocated values with single ownership.
    Box,
    /// `Rc<T>`, reference-counted values with multiple ownership.
    Rc,
    /// A weak reference to an `Rc`-managed value.
    RcWeak,
    /// `Arc<T>`, thread-safe reference-counted values with multiple ownership.
    Arc,
    /// A weak reference to an `Arc`-managed value.
    ArcWeak,
    /// `Cow<'a, T>`, a clone-on-write smart pointer.
    Cow,
    /// `Pin<P>`, a type that pins values behind a pointer.
    Pin,
    /// `Cell<T>`, a mutable memory location with interior mutability.
    Cell,
    /// `RefCell<T>`, a mutable memory location with dynamic borrowing rules.
    RefCell,
    /// `OnceCell<T>`, a cell that can be written to only once.
    OnceCell,
    /// `Mutex<T>`, a mutual exclusion primitive.
    Mutex,
    /// `RwLock<T>`, a reader-writer lock.
    RwLock,
    /// `OnceLock<T>`, a cell that can be written to only once.
    OnceLock,
    /// `LazyLock<T, F>`, a lazily initialized value.
    LazyLock,
    /// `NonNull<T>`, a wrapper around a raw pointer that is not null.
    NonNull,
    /// `&T`.
    SharedReference,
    /// `&mut T`.
    ExclusiveReference,
}

} // verus!
