//! Where the frames for parts of a value lie, and what entering a part does.
use vstd::prelude::*;

use crate::error::ReflectErrorKind;
use crate::frame::{AllocatedShape, FrameOwnership, FrameView};
use crate::memory::{Addr, HostView, MemOp, PtrUninit, Tag};
use crate::partial::PartialView;
use crate::plan::{NodeId, TypePlanCore};
use crate::pointer::{PointerDef, SliceBuilderVTable};
use crate::shape::{
    ArrayType, Def, EnumRepr, EnumType, Field, Layout, SequenceType, ShapeLayout, ShapeRef,
    ShapeTable, Type, UserType,
};
use crate::tracker::TrackerView;

verus! {

/// The frame for a field of a struct lies where the field lies, is for the type of the field, and
/// owns nothing. It is initialized exactly if the field was, or if its type has nothing to
/// initialize. The struct works on that field, and no longer counts it; the other fields stay as
/// they were, all of them there if the struct was written as a whole.
pub proof fn law_frame_of_a_struct_field(
    f: FrameView,
    t: ShapeTable,
    fields: Seq<Field>,
    idx: usize,
    node: NodeId,
    layout: Layout,
)
    requires
        idx < fields.len(),
        t.at(fields[idx as int].shape).layout == ShapeLayout::Sized(layout),
    ensures
        ({
            let e = f.struct_field_begun(t, fields, idx, node);
            let field = fields[idx as int];
            let whole = f.is_init && f.tracker is Scalar;
            let before = |i: int|
                match f.tracker {
                    TrackerView::Struct { iset, .. } => iset.contains(i),
                    _ => whole && 0 <= i < fields.len(),
                };
            &&& e.result matches Ok(child)
            &&& child.data.addr == f.data.addr.field(field.offset)
            &&& child.allocated == (AllocatedShape {
                shape: field.shape,
                allocated_size: layout.size,
            })
            &&& child.ownership == (FrameOwnership::Field { field_idx: idx })
            &&& child.type_plan == node
            &&& child.tracker is Scalar
            &&& !child.using_custom_deserialization && child.shape_level_proxy is None
            &&& child.is_init <==> before(idx as int) || (t.at(field.shape).ty matches Type::User(
                UserType::Struct(st),
            ) && st.fields@.len() == 0)
            &&& f.same_frame(e.frame)
            &&& e.frame.is_init == f.is_init
            &&& e.frame.tracker matches TrackerView::Struct { iset: after, current_child }
            &&& current_child == Some(idx)
            &&& forall|i: int| #[trigger] after.contains(i) <==> before(i) && i != idx
        }),
{
}

/// The frame for a field of the chosen variant likewise.
pub proof fn law_frame_of_a_variant_field(
    f: FrameView,
    t: ShapeTable,
    fields: Seq<Field>,
    idx: usize,
    node: NodeId,
    layout: Layout,
)
    requires
        idx < fields.len(),
        f.tracker is Enum,
        t.at(fields[idx as int].shape).layout == ShapeLayout::Sized(layout),
    ensures
        ({
            let e = f.enum_field_begun(t, fields, idx, node);
            let field = fields[idx as int];
            let before = f.tracker->data;
            &&& e.result matches Ok(child)
            &&& child.data.addr == f.data.addr.field(field.offset)
            &&& child.allocated == (AllocatedShape {
                shape: field.shape,
                allocated_size: layout.size,
            })
            &&& child.ownership == (FrameOwnership::Field { field_idx: idx })
            &&& child.type_plan == node
            &&& child.tracker is Scalar
            &&& child.is_init <==> before.contains(idx as int) || (t.at(
                field.shape,
            ).ty matches Type::User(UserType::Struct(st)) && st.fields@.len() == 0)
            &&& f.same_frame(e.frame)
            &&& e.frame.is_init == f.is_init
            &&& e.frame.tracker matches TrackerView::Enum { variant_idx, data, current_child }
            &&& variant_idx == f.tracker->Enum_variant_idx
            &&& current_child == Some(idx)
            &&& forall|i: int| #[trigger] data.contains(i) <==> before.contains(i) && i != idx
        }),
{
}

/// The frame for an element of an array lies as many element sizes behind the start as the index
/// says. It is initialized exactly if the element was, or if its type has nothing to initialize.
/// The array works on that element, and no longer counts it; the other elements stay as they were.
pub proof fn law_frame_of_an_element(
    f: FrameView,
    t: ShapeTable,
    a: ArrayType,
    idx: usize,
    node: NodeId,
    layout: Layout,
)
    requires
        idx < a.n,
        a.n <= 63,
        f.tracker is Array || (f.tracker is Scalar && !f.is_init),
        t.at(a.t).layout == ShapeLayout::Sized(layout),
        a.n * layout.size <= usize::MAX,
    ensures
        ({
            let e = f.array_element_begun(t, a, idx, node);
            let before = match f.tracker {
                TrackerView::Array { iset, .. } => iset,
                _ => Set::empty(),
            };
            &&& e.result matches Ok(child)
            &&& child.data.addr == f.data.addr.field((idx * layout.size) as usize)
            &&& child.allocated == (AllocatedShape { shape: a.t, allocated_size: layout.size })
            &&& child.ownership == (FrameOwnership::Field { field_idx: idx })
            &&& child.type_plan == node
            &&& child.tracker is Scalar
            &&& child.is_init <==> before.contains(idx as int) || (t.at(a.t).ty matches Type::User(
                UserType::Struct(st),
            ) && st.fields@.len() == 0)
            &&& f.same_frame(e.frame)
            &&& e.frame.is_init == f.is_init
            &&& e.frame.tracker matches TrackerView::Array { iset: after, current_child }
            &&& current_child == Some(idx)
            &&& forall|i: int| #[trigger] after.contains(i) <==> before.contains(i) && i != idx
        }),
{
    assert(layout.size * idx == idx * layout.size) by (nonlinear_arith);
}

/// Parts that are not there cannot be entered, and the frame stays as it is: a field or element
/// beyond the last, a field of an enum without a chosen variant, an element of an array that is too
/// long to be tracked, or of one that is tracked as something else.
pub proof fn law_parts_that_are_not_there(
    f: FrameView,
    t: ShapeTable,
    fields: Seq<Field>,
    a: ArrayType,
    idx: usize,
    node: NodeId,
)
    ensures
        idx >= fields.len() ==> {
            let s = f.struct_field_begun(t, fields, idx, node);
            let e = f.enum_field_begun(t, fields, idx, node);
            &&& s.result == Err::<FrameView, ReflectErrorKind>(
                ReflectErrorKind::OperationFailed {
                    shape: f.allocated.shape,
                    operation: "field index out of bounds",
                },
            )
            &&& e.result == Err::<FrameView, ReflectErrorKind>(
                ReflectErrorKind::OperationFailed {
                    shape: f.allocated.shape,
                    operation: "enum field index out of bounds",
                },
            )
            &&& s.frame == f && e.frame == f
        },
        !(f.tracker is Enum) ==> f.enum_field_begun(t, fields, idx, node).result is Err
            && f.enum_field_begun(t, fields, idx, node).frame == f,
        idx >= a.n || a.n > 63 || !(f.tracker is Array || (f.tracker is Scalar && !f.is_init)) ==> {
            let e = f.array_element_begun(t, a, idx, node);
            &&& e.result is Err
            &&& e.frame == f
        },
{
}

/// Choosing a variant writes its discriminant, once, where the enum lies, in the width in which the
/// enum stores it, and tracks the fields of that variant: those that were tracked already, and no
/// others.
pub proof fn law_choosing_a_variant_writes_its_tag(
    p: PartialView,
    t: ShapeTable,
    e: EnumType,
    variant_idx: usize,
    discriminant: i64,
    h: HostView,
)
    requires
        p.stack.len() > 0,
        t.at(p.top().allocated.shape).ty == Type::User(UserType::Enum(e)),
        variant_idx < e.variants@.len(),
        e.variants@[variant_idx as int].discriminant == Some(discriminant),
        !(e.enum_repr is Rust),
        !(e.enum_repr is RustNPO),
    ensures
        ({
            let o = p.variant_selected(t, variant_idx, h);
            let at = p.top().data.addr;
            let data = match p.top().tracker {
                TrackerView::Enum { data, .. } => data,
                _ => Set::empty(),
            };
            &&& o.result is Ok
            &&& o.host.oracle == h.oracle
            &&& o.host.trace.len() == h.trace.len() + 1
            &&& o.host.trace.drop_last() == h.trace
            &&& o.host.trace.last() matches MemOp::WriteTag { at: place, tag }
            &&& place == at
            &&& match e.enum_repr {
                EnumRepr::U8 => tag == Tag::U8(discriminant as u8),
                EnumRepr::U16 => tag == Tag::U16(discriminant as u16),
                EnumRepr::U32 => tag == Tag::U32(discriminant as u32),
                EnumRepr::U64 => tag == Tag::U64(discriminant as u64),
                EnumRepr::I8 => tag == Tag::I8(discriminant as i8),
                EnumRepr::I16 => tag == Tag::I16(discriminant as i16),
                EnumRepr::I32 => tag == Tag::I32(discriminant as i32),
                EnumRepr::I64 => tag == Tag::I64(discriminant),
                EnumRepr::USize => tag == Tag::USize(discriminant as usize),
                EnumRepr::ISize => tag == Tag::ISize(discriminant as isize),
                _ => false,
            }
            &&& o.partial == (PartialView {
                stack: p.stack.update(
                    p.stack.len() - 1,
                    FrameView {
                        tracker: TrackerView::Enum { variant_idx, data, current_child: None },
                        ..p.top()
                    },
                ),
                ..p
            })
        }),
{
    let o = p.variant_selected(t, variant_idx, h);
    assert(o.host.trace.drop_last() =~= h.trace);
}

/// A variant of an enum whose layout the compiler chose, or that has no discriminant, cannot be
/// chosen: nothing is written, and the value stays as it is.
pub proof fn law_variants_that_cannot_be_chosen(
    p: PartialView,
    t: ShapeTable,
    e: EnumType,
    variant_idx: usize,
    h: HostView,
)
    requires
        p.stack.len() > 0,
        t.at(p.top().allocated.shape).ty == Type::User(UserType::Enum(e)),
        variant_idx < e.variants@.len(),
        e.enum_repr is Rust || e.enum_repr is RustNPO
            || e.variants@[variant_idx as int].discriminant is None,
    ensures
        ({
            let o = p.variant_selected(t, variant_idx, h);
            &&& o.result is Err
            &&& o.host == h
            &&& o.partial == p
        }),
{
}

/// Entering a new pointee makes a buffer for it, under the next number and with the layout of its
/// type, and pushes a frame that owns that buffer and in which nothing is initialized. The pointer
/// works on its pointee and is otherwise as it was after room was made in it. For `str` a `String`
/// is built.
pub proof fn law_new_pointee_gets_memory_of_its_own(
    p: PartialView,
    plan: TypePlanCore,
    d: PointerDef,
    pointee: ShapeRef,
    built: ShapeRef,
    layout: Layout,
    h: HostView,
)
    requires
        p.stack.len() > 0,
        !(p.top().tracker is SmartPointerSlice),
        plan.shapes.at(p.top().allocated.shape).def == Def::Pointer(d),
        d.is_constructible(),
        d.pointee == Some(pointee),
        plan.shapes.at(pointee).layout is Sized ==> built == pointee,
        plan.shapes.at(pointee).layout is Unsized ==> pointee == plan.shapes.str_shape && built
            == plan.shapes.string_shape,
        plan.shapes.at(built).layout == ShapeLayout::Sized(layout),
        p.deferred is None || !(p.top().tracker is SmartPointer),
        p.next_buffer < u64::MAX,
    ensures
        ({
            let o = p.smart_ptr_begun(plan, h);
            let n = p.stack.len() as int;
            let f = p.top();
            let room = h.trace + f.clear_ops(plan.shapes);
            &&& o.result is Ok
            &&& o.partial.next_buffer == p.next_buffer + 1
            &&& o.host.trace == if layout.size > 0 {
                room.push(MemOp::Alloc { buf: p.next_buffer, layout })
            } else {
                room
            }
            &&& o.partial.stack.len() == n + 1
            &&& forall|i: int| 0 <= i < n - 1 ==> #[trigger] o.partial.stack[i] == p.stack[i]
            &&& o.partial.stack[n - 1] == (FrameView {
                tracker: TrackerView::SmartPointer { building_inner: true, pending_inner: None },
                ..f.cleared()
            })
            &&& o.partial.stack[n].data.addr == (Addr { buf: p.next_buffer, offset: 0 })
            &&& o.partial.stack[n].allocated == (AllocatedShape {
                shape: built,
                allocated_size: layout.size,
            })
            &&& o.partial.stack[n].ownership is Owned
            &&& o.partial.stack[n].tracker is Scalar
            &&& o.partial.stack[n].is_init <==> (plan.shapes.at(built).ty matches Type::User(
                UserType::Struct(st),
            ) && st.fields@.len() == 0)
            &&& plan.pointer_inner(f.type_plan) matches Some(node) ==> o.partial.stack[n].type_plan
                == node
            &&& o.partial.deferred == p.deferred
            &&& o.partial.state == p.state
        }),
{
    let o = p.smart_ptr_begun(plan, h);
    let room = h.trace + p.top().clear_ops(plan.shapes);
    if layout.size > 0 {
        assert(room + seq![MemOp::Alloc { buf: p.next_buffer, layout }] =~= room.push(
            MemOp::Alloc { buf: p.next_buffer, layout },
        ));
    } else {
        assert(room + Seq::<MemOp>::empty() =~= room);
    }
}

/// Entering a slice behind a pointer makes a builder, under the next number, in the frame of the
/// pointer; memory that the frame owned is released. No frame is pushed.
pub proof fn law_slice_gets_a_builder(
    p: PartialView,
    plan: TypePlanCore,
    d: PointerDef,
    pointee: ShapeRef,
    item: ShapeRef,
    vtable: SliceBuilderVTable,
    h: HostView,
)
    requires
        p.stack.len() > 0,
        !(p.top().tracker is SmartPointerSlice),
        plan.shapes.at(p.top().allocated.shape).def == Def::Pointer(d),
        d.is_constructible(),
        d.pointee == Some(pointee),
        d.vtable.slice_builder_vtable == Some(vtable),
        plan.shapes.at(pointee).layout is Unsized,
        pointee != plan.shapes.str_shape,
        plan.shapes.at(pointee).ty == Type::Sequence(SequenceType::Slice(item)),
        p.deferred is None || !(p.top().tracker is SmartPointer),
        p.next_buffer < u64::MAX,
    ensures
        ({
            let o = p.smart_ptr_begun(plan, h);
            let n = p.stack.len() as int;
            let f = p.top();
            let owns = f.ownership is Owned || f.ownership is TrackedBuffer;
            &&& o.result is Ok
            &&& o.partial.next_buffer == p.next_buffer + 1
            &&& o.host.trace == (h.trace + f.clear_ops(plan.shapes)).push(
                MemOp::SliceNew { f: vtable.new_fn, buf: p.next_buffer },
            ) + f.dealloc_ops(plan.shapes)
            &&& o.partial.stack == p.stack.update(
                n - 1,
                FrameView {
                    data: PtrUninit { addr: Addr { buf: p.next_buffer, offset: 0 } },
                    allocated: AllocatedShape {
                        shape: f.allocated.shape,
                        allocated_size: if owns {
                            0
                        } else {
                            f.allocated.allocated_size
                        },
                    },
                    tracker: TrackerView::SmartPointerSlice {
                        vtable,
                        building_item: false,
                        current_child: None,
                    },
                    ..f.cleared()
                },
            )
        }),
{
    let o = p.smart_ptr_begun(plan, h);
    let n = p.stack.len() as int;
    let f = p.top();
    let g = p.room_made(plan.shapes, h).partial.top();
    assert(g == f.cleared());
    assert(o.partial.stack =~= p.stack.update(n - 1, o.partial.top()));
}

/// Pointees are refused where there is no pointer, or one that cannot be built from a pointee, or
/// whose pointee is not known: nothing is done, and the value stays as it is.
pub proof fn law_pointees_that_cannot_be_entered(p: PartialView, plan: TypePlanCore, h: HostView)
    requires
        p.stack.len() > 0,
    ensures
        ({
            let o = p.smart_ptr_begun(plan, h);
            match plan.shapes.at(p.top().allocated.shape).def {
                Def::Pointer(d) => !d.is_constructible() || d.pointee is None ==> {
                    &&& o.result is Err
                    &&& o.host == h
                    &&& o.partial == p
                },
                _ => {
                    &&& o.result is Err
                    &&& o.host == h
                    &&& o.partial == p
                },
            }
        }),
{
}

/// A pointee that is neither sized, nor `str`, nor a slice that the pointer can build, is refused,
/// after room was made for it, and nothing else is done.
pub proof fn law_pointees_of_no_known_form(
    p: PartialView,
    plan: TypePlanCore,
    d: PointerDef,
    pointee: ShapeRef,
    h: HostView,
)
    requires
        p.stack.len() > 0,
        plan.shapes.at(p.top().allocated.shape).def == Def::Pointer(d),
        d.is_constructible(),
        d.pointee == Some(pointee),
        p.deferred is None,
        plan.shapes.at(pointee).layout is Unsized,
        pointee != plan.shapes.str_shape,
        d.vtable.slice_builder_vtable is None || !(plan.shapes.at(pointee).ty matches Type::Sequence(
            SequenceType::Slice(_),
        )),
    ensures
        ({
            let o = p.smart_ptr_begun(plan, h);
            let room = p.room_made(plan.shapes, h);
            &&& o.result is Err
            &&& o.partial == room.partial
            &&& o.host == room.host
        }),
{
}

/// Making room in the current frame changes no other frame. What was in the frame is dropped as
/// said for frames. Where a slice builder had taken the place of memory that the frame owned, the
/// frame gets memory again, under the next number and with the layout of its type.
pub proof fn law_room_is_made_in_the_current_frame(
    p: PartialView,
    t: ShapeTable,
    layout: Layout,
    h: HostView,
)
    requires
        p.stack.len() > 0,
        t.at(p.top().allocated.shape).layout == ShapeLayout::Sized(layout),
        p.next_buffer < u64::MAX,
    ensures
        ({
            let o = p.room_made(t, h);
            let f = p.top();
            let n = p.stack.len() as int;
            let again = f.tracker is SmartPointerSlice && (f.ownership is Owned
                || f.ownership is TrackedBuffer);
            &&& o.result is Ok
            &&& o.partial.deferred == p.deferred
            &&& !again ==> {
                &&& o.host.trace == h.trace + f.clear_ops(t)
                &&& o.partial.next_buffer == p.next_buffer
                &&& o.partial.stack == p.stack.update(n - 1, f.cleared())
            }
            &&& again ==> {
                &&& o.host.trace == h.trace + f.clear_ops(t) + (if layout.size > 0 {
                    seq![MemOp::Alloc { buf: p.next_buffer, layout }]
                } else {
                    Seq::empty()
                })
                &&& o.partial.next_buffer == p.next_buffer + 1
                &&& o.partial.stack == p.stack.update(
                    n - 1,
                    FrameView {
                        data: PtrUninit { addr: Addr { buf: p.next_buffer, offset: 0 } },
                        allocated: AllocatedShape {
                            shape: f.allocated.shape,
                            allocated_size: layout.size,
                        },
                        ..f.cleared()
                    },
                )
            }
        }),
{
}

} // verus!
