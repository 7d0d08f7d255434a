//! `Cow<T>`: a pointer that borrows its value until it is made to own a clone of it.
use vstd::prelude::*;
use vstd::string::StringExecFns;

use crate::memory::{Addr, FnRef, Host, MemOp, PtrConst, PtrUninit};
use crate::partial::{alloc_for_layout, alloc_ops};
use crate::pointer::{KnownPointer, PointerDef, PointerFlags, PointerVTable};
use crate::shape::{
    Def, Layout, Shape, ShapeLayout, ShapeRef, ShapeTable, Type, TypeOps, TypeParam, UserType,
    VTableErased, ValueVTable, Variance, VarianceDep, VarianceDesc,
};

verus! {

/// A `Cow`: it borrows a value that lives elsewhere, or owns one.
#[derive(Clone, Copy, PartialEq, Eq, Structural, Debug)]
pub enum CowValue {
    /// The value lives elsewhere.
    Borrowed(PtrConst),
    /// The value is its own.
    Owned(PtrConst),
}

/// A call of a function of the inner type on one inner value.
#[derive(Clone, Copy, PartialEq, Eq, Structural, Debug)]
pub struct InnerCall {
    pub f: FnRef,
    pub value: PtrConst,
}

/// A call of a function of the inner type on two inner values.
#[derive(Clone, Copy, PartialEq, Eq, Structural, Debug)]
pub struct InnerPairCall {
    pub f: FnRef,
    pub a: PtrConst,
    pub b: PtrConst,
}

impl CowValue {
    /// The value, wherever it lives.
    pub open spec fn value(self) -> PtrConst {
        match self {
            CowValue::Borrowed(p) => p,
            CowValue::Owned(p) => p,
        }
    }

    /// The value is the pointer's own.
    pub open spec fn is_owned(self) -> bool {
        self is Owned
    }
}

impl ValueVTable {
    /// A table without functions.
    pub open spec fn spec_empty() -> ValueVTable {
        ValueVTable {
            debug: None,
            display: None,
            equal: None,
            partial_order: None,
            order: None,
            try_from: None,
        }
    }

    /// A table without functions.
    pub fn empty() -> (r: ValueVTable)
        ensures
            r == ValueVTable::spec_empty(),
    {
        ValueVTable {
            debug: None,
            display: None,
            equal: None,
            partial_order: None,
            order: None,
            try_from: None,
        }
    }
}

impl VTableErased {
    /// The functions, whichever way they are handed out.
    pub open spec fn spec_functions(self) -> ValueVTable {
        match self {
            VTableErased::Direct(vt) => vt,
            VTableErased::Indirect(vt) => vt,
            VTableErased::Unknown => ValueVTable::spec_empty(),
        }
    }

    /// The functions, whichever way they are handed out.
    pub fn functions(&self) -> (r: ValueVTable)
        ensures
            r == self.spec_functions(),
    {
        match self {
            VTableErased::Direct(vt) => *vt,
            VTableErased::Indirect(vt) => *vt,
            VTableErased::Unknown => ValueVTable::empty(),
        }
    }
}

/// The functions of the inner type, if the inner type is known.
pub open spec fn inner_functions(t: ShapeTable, cow: Shape) -> Option<ValueVTable> {
    match cow.inner {
        Some(inner) => Some(t.at(inner).vtable.spec_functions()),
        None => None,
    }
}

fn functions_of_inner(t: &ShapeTable, cow: &Shape) -> (r: Option<ValueVTable>)
    requires
        cow.inner matches Some(inner) ==> t.has(inner),
    ensures
        r == inner_functions(*t, *cow),
{
    match cow.inner {
        Some(inner) => Some(t.get(inner).vtable.functions()),
        None => None,
    }
}

/// The call to make of an optional function on one inner value.
pub open spec fn call_on(f: Option<FnRef>, value: PtrConst) -> Option<InnerCall> {
    match f {
        Some(f) => Some(InnerCall { f, value }),
        None => None,
    }
}

/// The call to make of an optional function on two inner values.
pub open spec fn call_on_pair(f: Option<FnRef>, a: PtrConst, b: PtrConst) -> Option<InnerPairCall> {
    match f {
        Some(f) => Some(InnerPairCall { f, a, b }),
        None => None,
    }
}

/// Debug output of a `Cow` is that of the inner value, where the inner type has it.
pub fn cow_debug(t: &ShapeTable, cow_shape: &Shape, cow: &CowValue) -> (r: Option<InnerCall>)
    requires
        cow_shape.inner matches Some(inner) ==> t.has(inner),
    ensures
        r == match inner_functions(*t, *cow_shape) {
            Some(vt) => call_on(vt.debug, cow.value()),
            None => None,
        },
{
    match functions_of_inner(t, cow_shape) {
        Some(vt) => match vt.debug {
            Some(f) => Some(InnerCall { f, value: cow_borrow(cow) }),
            None => None,
        },
        None => None,
    }
}

/// Display output of a `Cow` is that of the inner value, where the inner type has it.
pub fn cow_display(t: &ShapeTable, cow_shape: &Shape, cow: &CowValue) -> (r: Option<InnerCall>)
    requires
        cow_shape.inner matches Some(inner) ==> t.has(inner),
    ensures
        r == match inner_functions(*t, *cow_shape) {
            Some(vt) => call_on(vt.display, cow.value()),
            None => None,
        },
{
    match functions_of_inner(t, cow_shape) {
        Some(vt) => match vt.display {
            Some(f) => Some(InnerCall { f, value: cow_borrow(cow) }),
            None => None,
        },
        None => None,
    }
}

/// Two `Cow`s are equal if their inner values are, by the inner type's own equality.
pub fn cow_partial_eq(t: &ShapeTable, cow_shape: &Shape, a: &CowValue, b: &CowValue) -> (r: Option<
    InnerPairCall,
>)
    requires
        cow_shape.inner matches Some(inner) ==> t.has(inner),
    ensures
        r == match inner_functions(*t, *cow_shape) {
            Some(vt) => call_on_pair(vt.equal, a.value(), b.value()),
            None => None,
        },
{
    match functions_of_inner(t, cow_shape) {
        Some(vt) => match vt.equal {
            Some(f) => Some(InnerPairCall { f, a: cow_borrow(a), b: cow_borrow(b) }),
            None => None,
        },
        None => None,
    }
}

/// Two `Cow`s are in the partial order of their inner values.
pub fn cow_partial_cmp(t: &ShapeTable, cow_shape: &Shape, a: &CowValue, b: &CowValue) -> (r: Option<
    InnerPairCall,
>)
    requires
        cow_shape.inner matches Some(inner) ==> t.has(inner),
    ensures
        r == match inner_functions(*t, *cow_shape) {
            Some(vt) => call_on_pair(vt.partial_order, a.value(), b.value()),
            None => None,
        },
{
    match functions_of_inner(t, cow_shape) {
        Some(vt) => match vt.partial_order {
            Some(f) => Some(InnerPairCall { f, a: cow_borrow(a), b: cow_borrow(b) }),
            None => None,
        },
        None => None,
    }
}

/// Two `Cow`s are in the order of their inner values.
pub fn cow_cmp(t: &ShapeTable, cow_shape: &Shape, a: &CowValue, b: &CowValue) -> (r: Option<
    InnerPairCall,
>)
    requires
        cow_shape.inner matches Some(inner) ==> t.has(inner),
    ensures
        r == match inner_functions(*t, *cow_shape) {
            Some(vt) => call_on_pair(vt.order, a.value(), b.value()),
            None => None,
        },
{
    match functions_of_inner(t, cow_shape) {
        Some(vt) => match vt.order {
            Some(f) => Some(InnerPairCall { f, a: cow_borrow(a), b: cow_borrow(b) }),
            None => None,
        },
        None => None,
    }
}

/// Borrows the inner value.
pub fn cow_borrow(cow: &CowValue) -> (r: PtrConst)
    ensures
        r == cow.value(),
{
    match *cow {
        CowValue::Borrowed(p) => p,
        CowValue::Owned(p) => p,
    }
}

/// A `Cow` that borrows a value which stays where it is.
///
/// The value must outlive the `Cow` and all that is derived from it, until it is promoted.
pub fn cow_borrow_from_pointee(pointee: PtrConst) -> (r: CowValue)
    ensures
        r == CowValue::Borrowed(pointee),
{
    CowValue::Borrowed(pointee)
}

/// A `Cow` after it was made to own its value.
pub open spec fn promoted(cow: CowValue, buf: u64) -> CowValue {
    match cow {
        CowValue::Borrowed(_) => CowValue::Owned(PtrConst { addr: Addr::start(buf) }),
        CowValue::Owned(_) => cow,
    }
}

/// Operations that make a `Cow` own its value: a borrowed one is cloned.
pub open spec fn promote_ops(shape: ShapeRef, cow: CowValue, buf: u64) -> Seq<MemOp> {
    match cow {
        CowValue::Borrowed(p) => seq![
            MemOp::CloneInto { shape, dst: Addr::start(buf), src: p.addr },
        ],
        CowValue::Owned(_) => Seq::empty(),
    }
}

/// Makes a `Cow` own its value. A clone goes into buffer `buf`; an owned value stays.
pub fn cow_promote_to_owned<H: Host>(cow: &mut CowValue, inner: ShapeRef, buf: u64, host: &mut H)
    ensures
        *final(cow) == promoted(*old(cow), buf),
        final(host).view() == old(host).view().plus(promote_ops(inner, *old(cow), buf)),
{
    if let CowValue::Borrowed(p) = *cow {
        host.act(MemOp::CloneInto { shape: inner, dst: Addr::start(buf), src: p.addr });
        *cow = CowValue::Owned(PtrConst { addr: Addr::start(buf) });
    }
}

/// A clone of a `Cow`: a borrow is copied, an owned value is cloned.
pub open spec fn cloned(cow: CowValue, buf: u64) -> CowValue {
    match cow {
        CowValue::Borrowed(_) => cow,
        CowValue::Owned(_) => CowValue::Owned(PtrConst { addr: Addr::start(buf) }),
    }
}

/// Operations that clone a `Cow`.
pub open spec fn clone_ops(owned: ShapeRef, cow: CowValue, buf: u64) -> Seq<MemOp> {
    match cow {
        CowValue::Borrowed(_) => Seq::empty(),
        CowValue::Owned(p) => seq![
            MemOp::CloneInto { shape: owned, dst: Addr::start(buf), src: p.addr },
        ],
    }
}

/// Clones a `Cow`. A clone of an owned value goes into buffer `buf`.
pub fn cow_clone_into<H: Host>(cow: &CowValue, owned: ShapeRef, buf: u64, host: &mut H) -> (r:
    CowValue)
    ensures
        r == cloned(*cow, buf),
        final(host).view() == old(host).view().plus(clone_ops(owned, *cow, buf)),
{
    match *cow {
        CowValue::Borrowed(p) => CowValue::Borrowed(p),
        CowValue::Owned(p) => {
            host.act(MemOp::CloneInto { shape: owned, dst: Addr::start(buf), src: p.addr });
            CowValue::Owned(PtrConst { addr: Addr::start(buf) })
        },
    }
}

/// Operations that drop a `Cow`: only an owned value is dropped.
pub open spec fn cow_drop_ops(t: ShapeTable, owned: ShapeRef, cow: CowValue) -> Seq<MemOp> {
    match cow {
        CowValue::Borrowed(_) => Seq::empty(),
        CowValue::Owned(p) => t.drop_ops(owned, p.addr),
    }
}

/// Drops a `Cow`. A borrowed value is left alone.
pub fn cow_drop_in_place<H: Host>(t: &ShapeTable, owned: ShapeRef, cow: CowValue, host: &mut H)
    requires
        t.has(owned),
    ensures
        final(host).view() == old(host).view().plus(cow_drop_ops(*t, owned, cow)),
{
    if let CowValue::Owned(p) = cow {
        t.call_drop_in_place(owned, p.addr, host);
    }
}

/// The owned type, which is the second type parameter.
pub open spec fn owned_param(cow: Shape) -> Option<ShapeRef> {
    if cow.type_params@.len() < 2 {
        None
    } else {
        Some(cow.type_params@[1].shape)
    }
}

/// A `Cow` has a default if its owned type is sized and has one.
pub open spec fn cow_can_default(t: ShapeTable, cow: Shape) -> bool {
    owned_param(cow) matches Some(owned) && t.sized(owned) is Some && t.can_default(owned)
}

/// Operations by which a `Cow` at `dst` takes its default: the owned default is made in buffer
/// `buf` and moved into a `Cow` that owns it. Where the owned type has no default, only the buffer
/// comes and goes.
pub open spec fn cow_default_ops(t: ShapeTable, cow: Shape, dst: Addr, buf: u64) -> Seq<MemOp> {
    match owned_param(cow) {
        Some(owned) => match t.sized(owned) {
            Some(layout) => {
                let tmp = Addr::start(buf);
                alloc_ops(layout, buf) + t.default_ops(owned, tmp) + (if t.can_default(owned) {
                    seq![MemOp::OwnedInto { owned, dst, src: tmp }]
                } else {
                    Seq::empty()
                }) + t.dealloc_ops(owned, tmp)
            },
            None => Seq::empty(),
        },
        None => Seq::empty(),
    }
}

/// Writes the default `Cow`, which owns the default of the owned type. Tells whether there is
/// one.
pub fn cow_default_in_place<H: Host>(
    t: &ShapeTable,
    cow_shape: &Shape,
    dst: PtrUninit,
    buf: u64,
    host: &mut H,
) -> (r: Option<CowValue>)
    requires
        owned_param(*cow_shape) matches Some(owned) ==> t.has(owned),
    ensures
        r == (if cow_can_default(*t, *cow_shape) {
            Some(CowValue::Owned(PtrConst { addr: dst.addr }))
        } else {
            None
        }),
        final(host).view() == old(host).view().plus(
            cow_default_ops(*t, *cow_shape, dst.addr, buf),
        ),
{
    if cow_shape.type_params.len() < 2 {
        return None;
    }
    let owned = cow_shape.type_params[1].shape;
    let layout = match t.sized_layout(owned) {
        Some(l) => l,
        None => {
            return None;
        },
    };
    let tmp = alloc_for_layout(layout, buf, host);
    if !t.call_default_in_place(owned, tmp.addr, host) {
        t.dealloc_shape(owned, tmp.addr, host);
        return None;
    }
    host.act(MemOp::OwnedInto { owned, dst: dst.addr, src: tmp.addr });
    t.dealloc_shape(owned, tmp.addr, host);
    Some(CowValue::Owned(PtrConst { addr: dst.addr }))
}

/// A `Cow` is as true as its inner value; where the inner type does not say, it is not. The call
/// to make is handed back.
pub fn cow_truthy(t: &ShapeTable, inner: ShapeRef, cow: &CowValue) -> (r: Option<InnerCall>)
    requires
        t.has(inner),
    ensures
        r == call_on(t.at(inner).type_ops.is_truthy, cow.value()),
{
    match t.get(inner).type_ops.is_truthy {
        Some(f) => Some(InnerCall { f, value: cow_borrow(cow) }),
        None => None,
    }
}

/// The name of a `Cow` type, with the name of the inner type where names go that deep.
pub fn cow_type_name(inner_name: Option<&str>) -> (r: String)
    ensures
        r@ == match inner_name {
            Some(name) => "Cow"@ + "<"@ + name@ + ">"@,
            None => "Cow"@ + "<…>"@,
        },
{
    let mut s = String::from_str("Cow");
    match inner_name {
        Some(name) => {
            s.append("<");
            s.append(name);
            s.append(">");
        },
        None => {
            s.append("<…>");
        },
    }
    s
}

/// The functions through which the `Cow` of a type is used.
#[derive(Clone, Copy, PartialEq, Eq, Structural, Debug)]
pub struct CowFunctions {
    pub debug: FnRef,
    pub display: FnRef,
    pub equal: FnRef,
    pub partial_order: FnRef,
    pub order: FnRef,
    pub borrow: FnRef,
    pub borrow_from_pointee: FnRef,
    pub promote_to_owned: FnRef,
    pub truthy: FnRef,
}

/// The pointer definition of a `Cow`: it can be borrowed from a pointee and then promoted, but a
/// value cannot be moved in.
pub open spec fn cow_pointer(inner: ShapeRef, fns: CowFunctions) -> PointerDef {
    PointerDef {
        vtable: PointerVTable {
            borrow_fn: Some(fns.borrow),
            borrow_from_pointee_fn: Some(fns.borrow_from_pointee),
            promote_to_owned_fn: Some(fns.promote_to_owned),
            ..PointerVTable::spec_new()
        },
        pointee: Some(inner),
        weak: None,
        strong: None,
        flags: PointerFlags { bits: 0 },
        known: Some(KnownPointer::Cow),
    }
}

/// The shape of `Cow<T>`, where `inner` is `T` and `owned` is what `T` is cloned into.
///
/// It carries a lifetime of its own, because of what it borrows, and stands in invariant
/// position to both types.
pub fn cow_shape(
    t: &ShapeTable,
    inner: ShapeRef,
    owned: ShapeRef,
    layout: Layout,
    fns: CowFunctions,
) -> (r: Shape)
    requires
        t.has(owned),
    ensures
        r.ty == Type::User(UserType::Opaque),
        r.def == Def::Pointer(cow_pointer(inner, fns)),
        r.layout == ShapeLayout::Sized(layout),
        r.inner == Some(inner),
        r.builder_shape is None,
        r.type_params@ == seq![
            TypeParam { name: "T", shape: inner },
            TypeParam { name: "Owned", shape: owned },
        ],
        r.variance.base == Variance::Covariant,
        r.variance.deps@ == seq![
            VarianceDep { shape: inner, position: Variance::Invariant },
            VarianceDep { shape: owned, position: Variance::Invariant },
        ],
        r.vtable == VTableErased::Indirect(
            ValueVTable {
                debug: Some(fns.debug),
                display: Some(fns.display),
                equal: Some(fns.equal),
                partial_order: Some(fns.partial_order),
                order: Some(fns.order),
                try_from: None,
            },
        ),
        r.type_ops == (TypeOps {
            drop_in_place: true,
            default_in_place: t.sized(owned) is Some && t.can_default(owned),
            is_truthy: Some(fns.truthy),
        }),
        !r.default_attr,
{
    let mut type_params: Vec<TypeParam> = Vec::new();
    type_params.push(TypeParam { name: "T", shape: inner });
    type_params.push(TypeParam { name: "Owned", shape: owned });
    let mut deps: Vec<VarianceDep> = Vec::new();
    deps.push(VarianceDep { shape: inner, position: Variance::Invariant });
    deps.push(VarianceDep { shape: owned, position: Variance::Invariant });
    let mut vtable = PointerVTable::new();
    vtable.borrow_fn = Some(fns.borrow);
    vtable.borrow_from_pointee_fn = Some(fns.borrow_from_pointee);
    vtable.promote_to_owned_fn = Some(fns.promote_to_owned);
    let default_in_place = t.sized_layout(owned).is_some() && t.get(
        owned,
    ).type_ops.default_in_place;
    Shape {
        ty: Type::User(UserType::Opaque),
        def: Def::Pointer(
            PointerDef {
                vtable,
                pointee: Some(inner),
                weak: None,
                strong: None,
                flags: PointerFlags { bits: 0 },
                known: Some(KnownPointer::Cow),
            },
        ),
        layout: ShapeLayout::Sized(layout),
        inner: Some(inner),
        builder_shape: None,
        type_params,
        variance: VarianceDesc { base: Variance::Covariant, deps },
        vtable: VTableErased::Indirect(
            ValueVTable {
                debug: Some(fns.debug),
                display: Some(fns.display),
                equal: Some(fns.equal),
                partial_order: Some(fns.partial_order),
                order: Some(fns.order),
                try_from: None,
            },
        ),
        type_ops: TypeOps { drop_in_place: true, default_in_place, is_truthy: Some(fns.truthy) },
        default_attr: false,
    }
}

} // verus!
