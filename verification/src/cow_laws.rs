//! What holds of `Cow<T>`, and of pointers.
use vstd::prelude::*;

use crate::cow::{
    call_on, call_on_pair, clone_ops, cloned, cow_can_default, cow_default_ops, cow_drop_ops,
    cow_pointer, inner_functions, promote_ops, promoted, CowFunctions, CowValue, InnerCall,
    InnerPairCall,
};
use crate::memory::{Addr, FnRef, MemOp, PtrConst};
use crate::pointer::{KnownPointer, PointerDef, PointerVTable};
use crate::shape::{Shape, ShapeLayout, ShapeRef, ShapeTable, VTableErased, ValueVTable};

verus! {

/// A clone of a `Cow` that owns its value owns a value of its own: it lives in the new buffer, and
/// not where the original lives. The original value is cloned into it, once, and nothing else is
/// done. So dropping both drops two values.
pub proof fn law_clone_of_an_owner_owns_its_value(
    t: ShapeTable,
    owned: ShapeRef,
    p: PtrConst,
    buf: u64,
)
    requires
        p.addr.buf != buf,
    ensures
        ({
            let original = CowValue::Owned(p);
            let clone = cloned(original, buf);
            &&& clone is Owned
            &&& clone.value().addr.buf == buf
            &&& clone.value() != original.value()
            &&& clone_ops(owned, original, buf) == seq![
                MemOp::CloneInto { shape: owned, dst: clone.value().addr, src: p.addr },
            ]
            &&& t.at(owned).type_ops.drop_in_place ==> {
                &&& cow_drop_ops(t, owned, clone) == seq![
                    MemOp::DropInPlace { shape: owned, at: clone.value().addr },
                ]
                &&& cow_drop_ops(t, owned, original) == seq![
                    MemOp::DropInPlace { shape: owned, at: p.addr },
                ]
                &&& cow_drop_ops(t, owned, clone) != cow_drop_ops(t, owned, original)
            }
        }),
{
    let original = CowValue::Owned(p);
    let clone = cloned(original, buf);
    if t.at(owned).type_ops.drop_in_place {
        assert(cow_drop_ops(t, owned, clone)[0] != cow_drop_ops(t, owned, original)[0]);
    }
}

/// A clone of a `Cow` that borrows borrows the same value, and nothing is done for it. Dropping it,
/// or the original, drops nothing.
pub proof fn law_clone_of_a_borrower_borrows(t: ShapeTable, owned: ShapeRef, p: PtrConst, buf: u64)
    ensures
        cloned(CowValue::Borrowed(p), buf) == CowValue::Borrowed(p),
        clone_ops(owned, CowValue::Borrowed(p), buf).len() == 0,
        cow_drop_ops(t, owned, CowValue::Borrowed(p)).len() == 0,
{
}

/// Making a `Cow` that borrows own its value clones what it borrowed into the new buffer, once, and
/// from then on it owns the value there. One that owns its value already keeps it, and nothing is
/// done.
pub proof fn law_promotion_clones_what_was_borrowed(inner: ShapeRef, p: PtrConst, buf: u64)
    ensures
        promoted(CowValue::Borrowed(p), buf) == CowValue::Owned(
            PtrConst { addr: Addr { buf, offset: 0 } },
        ),
        promote_ops(inner, CowValue::Borrowed(p), buf) == seq![
            MemOp::CloneInto { shape: inner, dst: Addr { buf, offset: 0 }, src: p.addr },
        ],
        promoted(CowValue::Owned(p), buf) == CowValue::Owned(p),
        promote_ops(inner, CowValue::Owned(p), buf).len() == 0,
{
}

/// Promoting a borrow, and cloning the owner that it becomes, gives two values apart from what was
/// borrowed and from each other.
pub proof fn law_promoted_and_cloned_values_are_apart(p: PtrConst, a: u64, b: u64)
    requires
        a != b,
        p.addr.buf != a,
        p.addr.buf != b,
    ensures
        ({
            let first = promoted(CowValue::Borrowed(p), a);
            let second = cloned(first, b);
            &&& first is Owned && second is Owned
            &&& first.value() != p
            &&& second.value() != p
            &&& first.value() != second.value()
        }),
{
}

/// A `Cow` has one value, whether it borrows or owns it, and only an owner drops it, by the owned
/// type and where it lives.
pub proof fn law_only_owners_drop_their_value(t: ShapeTable, owned: ShapeRef, cow: CowValue, p: PtrConst)
    ensures
        CowValue::Borrowed(p).value() == p,
        CowValue::Owned(p).value() == p,
        cow.is_owned() <==> cow is Owned,
        cow is Owned && t.at(owned).type_ops.drop_in_place ==> cow_drop_ops(t, owned, cow) == seq![
            MemOp::DropInPlace { shape: owned, at: cow.value().addr },
        ],
        cow is Borrowed || !t.at(owned).type_ops.drop_in_place ==> cow_drop_ops(t, owned, cow).len()
            == 0,
{
}

/// The default of a `Cow` owns the default of the owned type, which is its second type parameter:
/// that default is written into a buffer made for it, moved into the `Cow`, and the buffer is
/// released. A `Cow` has a default exactly if its owned type is sized and has one. Otherwise no
/// `Cow` is written, and what was allocated is released.
pub proof fn law_default_cow_owns_the_owned_default(t: ShapeTable, cow: Shape, dst: Addr, buf: u64)
    requires
        cow.type_params@.len() >= 2,
    ensures
        ({
            let owned = cow.type_params@[1].shape;
            let tmp = Addr { buf, offset: 0 };
            let ops = cow_default_ops(t, cow, dst, buf);
            &&& cow_can_default(t, cow) <==> t.at(owned).layout is Sized && t.at(
                owned,
            ).type_ops.default_in_place
            &&& match t.at(owned).layout {
                ShapeLayout::Unsized => ops.len() == 0,
                ShapeLayout::Sized(layout) => {
                    let filled = if t.at(owned).type_ops.default_in_place {
                        seq![
                            MemOp::DefaultInPlace { shape: owned, at: tmp },
                            MemOp::OwnedInto { owned, dst, src: tmp },
                        ]
                    } else {
                        Seq::empty()
                    };
                    ops == if layout.size > 0 {
                        seq![MemOp::Alloc { buf, layout }] + filled + seq![
                            MemOp::Dealloc { at: tmp, layout },
                        ]
                    } else {
                        filled
                    }
                },
            }
        }),
{
    let owned = cow.type_params@[1].shape;
    let tmp = Addr { buf, offset: 0 };
    let ops = cow_default_ops(t, cow, dst, buf);
    if let ShapeLayout::Sized(layout) = t.at(owned).layout {
        let filled = if t.at(owned).type_ops.default_in_place {
            seq![
                MemOp::DefaultInPlace { shape: owned, at: tmp },
                MemOp::OwnedInto { owned, dst, src: tmp },
            ]
        } else {
            Seq::empty()
        };
        assert(ops =~= if layout.size > 0 {
            seq![MemOp::Alloc { buf, layout }] + filled + seq![MemOp::Dealloc { at: tmp, layout }]
        } else {
            filled
        });
    }
}

/// A `Cow` type without two type parameters has no default.
pub proof fn law_cow_without_owned_type_has_no_default(t: ShapeTable, cow: Shape, dst: Addr, buf: u64)
    requires
        cow.type_params@.len() < 2,
    ensures
        !cow_can_default(t, cow),
        cow_default_ops(t, cow, dst, buf).len() == 0,
{
}

/// The functions that a `Cow` uses are those of its inner type, whichever way that type hands them
/// out, and they are called on the values that they are asked about, in order.
pub proof fn law_cow_uses_functions_of_its_inner_type(
    t: ShapeTable,
    cow: Shape,
    vt: ValueVTable,
    f: Option<FnRef>,
    a: PtrConst,
    b: PtrConst,
)
    ensures
        VTableErased::Direct(vt).spec_functions() == vt,
        VTableErased::Indirect(vt).spec_functions() == vt,
        VTableErased::Direct(vt).spec_try_from() == vt.try_from,
        VTableErased::Indirect(vt).spec_try_from() == vt.try_from,
        VTableErased::Unknown.spec_try_from() is None,
        ({
            let none = VTableErased::Unknown.spec_functions();
            &&& none.debug is None && none.display is None && none.equal is None
            &&& none.partial_order is None && none.order is None && none.try_from is None
        }),
        cow.inner is None ==> inner_functions(t, cow) is None,
        cow.inner matches Some(inner) ==> inner_functions(t, cow) == Some(
            t.at(inner).vtable.spec_functions(),
        ),
        f is None ==> call_on(f, a) is None && call_on_pair(f, a, b) is None,
        f matches Some(g) ==> {
            &&& call_on(f, a) == Some(InnerCall { f: g, value: a })
            &&& call_on_pair(f, a, b) == Some(InnerPairCall { f: g, a, b })
        },
{
}

/// A pointer can be built from a pointee in exactly three ways: it takes a pointee over, it borrows
/// one and is then made to own it, or it is a `Box`, an `Rc` or an `Arc`. An empty table offers
/// none.
pub proof fn law_what_pointers_can_be_built(p: PointerDef)
    ensures
        p.is_constructible() <==> p.vtable.new_into_fn is Some || (
        p.vtable.borrow_from_pointee_fn is Some && p.vtable.promote_to_owned_fn is Some) || p.known
            == Some(KnownPointer::Box) || p.known == Some(KnownPointer::Rc) || p.known == Some(
            KnownPointer::Arc,
        ),
        ({
            let none = PointerVTable::spec_new();
            &&& none.upgrade_into_fn is None && none.downgrade_into_fn is None
            &&& none.borrow_fn is None && none.new_into_fn is None
            &&& none.borrow_from_pointee_fn is None && none.promote_to_owned_fn is None
            &&& none.lock_fn is None && none.read_fn is None && none.write_fn is None
            &&& none.slice_builder_vtable is None
        }),
{
}

/// The pointer definition of a `Cow` offers the functions that it was made with, and no others.
pub proof fn law_cow_pointer_offers_its_functions(inner: ShapeRef, fns: CowFunctions)
    ensures
        ({
            let p = cow_pointer(inner, fns);
            &&& p.vtable.borrow_fn == Some(fns.borrow)
            &&& p.vtable.borrow_from_pointee_fn == Some(fns.borrow_from_pointee)
            &&& p.vtable.promote_to_owned_fn == Some(fns.promote_to_owned)
            &&& p.vtable.new_into_fn is None && p.vtable.upgrade_into_fn is None
            &&& p.vtable.downgrade_into_fn is None && p.vtable.lock_fn is None
            &&& p.vtable.read_fn is None && p.vtable.write_fn is None
            &&& p.vtable.slice_builder_vtable is None
            &&& p.pointee == Some(inner)
            &&& p.weak is None && p.strong is None
            &&& p.flags.bits == 0
            &&& p.known == Some(KnownPointer::Cow)
        }),
{
}

} // verus!
