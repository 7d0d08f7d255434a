//! Addresses, the operations performed on memory, and the host that performs them.
//!
//! Building a value never touches memory directly. Every allocation, release, destructor
//! call and hook call is handed, in order, to a [`Host`]. The host keeps the value bytes; the
//! builder keeps the bookkeeping that decides which operation comes next.
use vstd::prelude::*;

use crate::pointer::KnownPointer;
use crate::shape::{Layout, ShapeRef};

verus! {

/// A place in memory: a numbered buffer and a byte offset into it.
#[derive(Clone, Copy, PartialEq, Eq, Structural, Debug)]
pub struct Addr {
    pub buf: u64,
    pub offset: usize,
}

impl Addr {
    /// The address `offset` bytes further on in the same buffer; the offset wraps.
    pub open spec fn spec_field(self, offset: usize) -> Addr {
        Addr { buf: self.buf, offset: self.offset.wrapping_add(offset) }
    }

    /// The address of a field or element that lies `offset` bytes into the value at `self`.
    #[verifier::when_used_as_spec(spec_field)]
    pub fn field(self, offset: usize) -> (a: Addr)
        ensures
            a == self.spec_field(offset),
    {
        Addr { buf: self.buf, offset: self.offset.wrapping_add(offset) }
    }

    /// The start of a numbered buffer.
    pub open spec fn spec_start(buf: u64) -> Addr {
        Addr { buf, offset: 0 }
    }

    /// The start of a numbered buffer.
    #[verifier::when_used_as_spec(spec_start)]
    pub fn start(buf: u64) -> (a: Addr)
        ensures
            a == Addr::spec_start(buf),
    {
        Addr { buf, offset: 0 }
    }
}

/// A pointer to memory that may not hold a value yet.
#[derive(Clone, Copy, PartialEq, Eq, Structural, Debug)]
pub struct PtrUninit {
    pub addr: Addr,
}

/// A pointer to an initialized value that may be written.
#[derive(Clone, Copy, PartialEq, Eq, Structural, Debug)]
pub struct PtrMut {
    pub addr: Addr,
}

/// A pointer to an initialized value that may only be read.
#[derive(Clone, Copy, PartialEq, Eq, Structural, Debug)]
pub struct PtrConst {
    pub addr: Addr,
}

impl PtrUninit {
    /// The same place, now taken to hold a value.
    pub fn assume_init(self) -> (p: PtrMut)
        ensures
            p.addr == self.addr,
    {
        PtrMut { addr: self.addr }
    }

    /// The place of a field that is not initialized yet.
    pub fn field_uninit(self, offset: usize) -> (p: PtrUninit)
        ensures
            p.addr == self.addr.field(offset),
    {
        PtrUninit { addr: self.addr.field(offset) }
    }
}

impl PtrMut {
    /// Read-only view of the same place.
    pub fn as_const(self) -> (p: PtrConst)
        ensures
            p.addr == self.addr,
    {
        PtrConst { addr: self.addr }
    }
}

/// A function that the host can call, known to the builder only by its number.
#[derive(Clone, Copy, PartialEq, Eq, Structural, Debug)]
pub struct FnRef {
    pub id: usize,
}

/// A discriminant, in the width in which an enum stores it.
#[derive(Clone, Copy, PartialEq, Eq, Structural, Debug)]
pub enum Tag {
    U8(u8),
    U16(u16),
    U32(u32),
    U64(u64),
    I8(i8),
    I16(i16),
    I32(i32),
    I64(i64),
    USize(usize),
    ISize(isize),
}

/// Request to convert the value at `src` into a value at `dst`.
#[derive(Clone, Copy, PartialEq, Eq, Structural, Debug)]
pub struct TryFromCall {
    pub f: FnRef,
    pub dst: Addr,
    pub src_shape: ShapeRef,
    pub src: Addr,
}

/// What became of a conversion, and of its source.
#[derive(Debug)]
pub enum TryFromOutcome {
    /// The source was consumed and the destination is initialized.
    Converted,
    /// The source type is not accepted; the source was not consumed.
    Unsupported,
    /// The source was consumed, and the conversion failed with this message.
    Failed(String),
    /// The hook answered with something this library does not know.
    Unknown,
}

/// Request to turn the proxy value at `src` into the target value at `dst`.
#[derive(Clone, Copy, PartialEq, Eq, Structural, Debug)]
pub struct ConvertCall {
    pub f: FnRef,
    pub src: Addr,
    pub dst: Addr,
}

/// Request to validate the initialized field at `at`.
#[derive(Clone, Copy, PartialEq, Eq, Structural, Debug)]
pub struct ValidateCall {
    pub f: FnRef,
    pub at: Addr,
    pub shape: ShapeRef,
}

/// One operation on memory.
///
/// Values named `buf` are the numbers under which new buffers become known.
#[derive(Debug, PartialEq)]
#[allow(inconsistent_fields)]
pub enum MemOp {
    /// Allocate a buffer.
    Alloc { buf: u64, layout: Layout },
    /// Release a buffer.
    Dealloc { at: Addr, layout: Layout },
    /// Run the destructor of the value at `at`.
    DropInPlace { shape: ShapeRef, at: Addr },
    /// Write the type's default value.
    DefaultInPlace { shape: ShapeRef, at: Addr },
    /// Write a default value by calling a function.
    CallDefault { f: FnRef, at: Addr },
    /// Clone the value at `src` into uninitialized memory.
    CloneInto { shape: ShapeRef, dst: Addr, src: Addr },
    /// Move the value at `src` into a new pointer at `dst`.
    NewInto { f: FnRef, dst: Addr, src: Addr },
    /// Write a pointer at `dst` that borrows the value at `pointee`.
    BorrowFromPointee { f: FnRef, dst: Addr, pointee: Addr },
    /// Make the pointer at `at` own its value.
    PromoteToOwned { f: FnRef, at: Addr },
    /// Move the value of shape `owned` at `src` into a `Cow` at `dst`, which owns it.
    OwnedInto { owned: ShapeRef, dst: Addr, src: Addr },
    /// Move the string at `src` into a pointer to `str` at `dst`.
    StringInto { kind: KnownPointer, dst: Addr, src: Addr },
    /// Create a slice builder.
    SliceNew { f: FnRef, buf: u64 },
    /// Move an item into a slice builder.
    SlicePush { f: FnRef, builder: Addr, item: Addr },
    /// Turn a slice builder into a pointer; the builder is gone afterwards.
    SliceConvert { f: FnRef, builder: Addr, buf: u64 },
    /// Discard a slice builder.
    SliceFree { f: FnRef, builder: Addr },
    /// Copy bytes.
    Copy { src: Addr, dst: Addr, size: usize },
    /// Make room in a list.
    ListReserve { f: FnRef, list: Addr, additional: usize },
    /// Move an item to the end of a list.
    ListPush { f: FnRef, list: Addr, item: Addr },
    /// Release the chunks of a list rope.
    FreeRope { rope: u64 },
    /// Move a key and a value into a map.
    MapInsert { f: FnRef, map: Addr, key: Addr, value: Addr },
    /// Move an item into a set.
    SetInsert { f: FnRef, set: Addr, item: Addr },
    /// Write `Some` of the value at `src`.
    InitSome { f: FnRef, dst: Addr, src: Addr },
    /// Write `Ok` of the value at `src`.
    InitOk { f: FnRef, dst: Addr, src: Addr },
    /// Write `Err` of the value at `src`.
    InitErr { f: FnRef, dst: Addr, src: Addr },
    /// Write the null value of a dynamic type.
    SetNull { f: FnRef, at: Addr },
    /// Move an element to the end of a dynamic array.
    PushElement { f: FnRef, array: Addr, item: Addr },
    /// Move a value under a key of a dynamic object.
    InsertEntry { f: FnRef, object: Addr, key: String, value: Addr },
    /// Write an enum discriminant.
    WriteTag { at: Addr, tag: Tag },
    /// Call a conversion hook.
    TryFrom { call: TryFromCall },
    /// Call a proxy conversion hook.
    ConvertIn { call: ConvertCall },
    /// Call a validator.
    Validate { call: ValidateCall },
    /// Release a lock by dropping its guard.
    DropGuard { f: FnRef, guard: Addr },
}

/// How the hooks answer: each answer may depend on everything that was done before the call.
pub struct Oracle {
    pub try_from: spec_fn(Seq<MemOp>, TryFromCall) -> TryFromOutcome,
    pub convert_in: spec_fn(Seq<MemOp>, ConvertCall) -> Result<Addr, String>,
    pub validate: spec_fn(Seq<MemOp>, ValidateCall) -> Result<(), String>,
}

/// A host as the contracts see it: what it has done so far, and how its hooks answer.
#[verifier::ext_equal]
pub struct HostView {
    pub trace: Seq<MemOp>,
    pub oracle: Oracle,
}

impl HostView {
    /// The host after one more operation.
    pub open spec fn after(self, op: MemOp) -> HostView {
        HostView { trace: self.trace.push(op), oracle: self.oracle }
    }

    /// The host after a sequence of operations.
    pub open spec fn plus(self, ops: Seq<MemOp>) -> HostView {
        HostView { trace: self.trace + ops, oracle: self.oracle }
    }

    /// What the conversion hook answers now.
    pub open spec fn try_from(self, call: TryFromCall) -> TryFromOutcome {
        (self.oracle.try_from)(self.trace, call)
    }

    /// What the proxy conversion hook answers now.
    pub open spec fn convert_in(self, call: ConvertCall) -> Result<Addr, String> {
        (self.oracle.convert_in)(self.trace, call)
    }

    /// What the validator answers now.
    pub open spec fn validate(self, call: ValidateCall) -> Result<(), String> {
        (self.oracle.validate)(self.trace, call)
    }
}

/// Performs operations on memory and calls the hooks of the reflected types.
///
/// The hooks belong to the types whose values are built, and so to the users of this library:
/// nothing is known of their answers but that each comes from the call and from what happened
/// before it.
pub trait Host {
    /// What was done so far, and how the hooks answer.
    spec fn view(&self) -> HostView;

    /// Performs one operation.
    fn act(&mut self, op: MemOp)
        ensures
            final(self).view() == old(self).view().after(op),
    ;

    /// Calls a conversion hook.
    fn try_from(&mut self, call: TryFromCall) -> (outcome: TryFromOutcome)
        ensures
            outcome == old(self).view().try_from(call),
            final(self).view() == old(self).view().after(MemOp::TryFrom { call }),
    ;

    /// Calls a proxy conversion hook; the answer is where the target was written.
    fn convert_in(&mut self, call: ConvertCall) -> (outcome: Result<Addr, String>)
        ensures
            outcome == old(self).view().convert_in(call),
            final(self).view() == old(self).view().after(MemOp::ConvertIn { call }),
    ;

    /// Calls a validator; the answer is the message of a refusal.
    fn validate(&mut self, call: ValidateCall) -> (outcome: Result<(), String>)
        ensures
            outcome == old(self).view().validate(call),
            final(self).view() == old(self).view().after(MemOp::Validate { call }),
    ;
}

/// A host that only writes down what it is asked to do.
///
/// Its conversion hooks either all convert or all refuse, its proxy conversions write where
/// they are told to, and its validators accept.
pub struct Recorder {
    pub ops: Vec<MemOp>,
    pub converts: bool,
}

impl Recorder {
    /// A recorder that has done nothing yet.
    pub fn new(converts: bool) -> (r: Recorder)
        ensures
            r.view().trace == Seq::<MemOp>::empty(),
            r.converts == converts,
    {
        Recorder { ops: Vec::new(), converts }
    }
}

impl Host for Recorder {
    open spec fn view(&self) -> HostView {
        let converts = self.converts;
        HostView {
            trace: self.ops@,
            oracle: Oracle {
                try_from: |past: Seq<MemOp>, call: TryFromCall|
                    if converts {
                        TryFromOutcome::Converted
                    } else {
                        TryFromOutcome::Unsupported
                    },
                convert_in: |past: Seq<MemOp>, call: ConvertCall| Ok(call.dst),
                validate: |past: Seq<MemOp>, call: ValidateCall| Ok(()),
            },
        }
    }

    fn act(&mut self, op: MemOp) {
        self.ops.push(op);
    }

    fn try_from(&mut self, call: TryFromCall) -> (outcome: TryFromOutcome) {
        self.ops.push(MemOp::TryFrom { call });
        if self.converts {
            TryFromOutcome::Converted
        } else {
            TryFromOutcome::Unsupported
        }
    }

    fn convert_in(&mut self, call: ConvertCall) -> (outcome: Result<Addr, String>) {
        self.ops.push(MemOp::ConvertIn { call });
        Ok(call.dst)
    }

    fn validate(&mut self, call: ValidateCall) -> (outcome: Result<(), String>) {
        self.ops.push(MemOp::Validate { call });
        Ok(())
    }
}

} // verus!
