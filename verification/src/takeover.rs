//! How a parent takes over a part that ended, in strict mode and at the end of deferred mode.
use vstd::prelude::*;

use crate::attach::{attached, taken_over};
use crate::error::{Message, ReflectErrorKind, TryFromError};
use crate::finish::{borrow_and_promote_ops, can_borrow_and_promote};
use crate::frame::{FrameOwnership, FrameView, PendingSmartPointerInner};
use crate::memory::{
    Addr, ConvertCall, FnRef, HostView, MemOp, PtrUninit, TryFromCall, TryFromOutcome,
};
use crate::pointer::{KnownPointer, PointerDef};
use crate::shape::{Def, DynamicDef, ListDef, ResultDef, SetDef, ShapeTable, VTableErased};
use crate::tracker::{DynamicObjectInsertState, DynamicValueView, MapInsertState, TrackerView};

verus! {

/// An element that ended is moved to the end of its list, once, from where it was built, and then
/// its memory is released. An element in a slot of the rope stays there, and its slot counts as
/// finished. Then the list works on no element. A list that cannot take elements reports an error.
pub proof fn law_list_takes_its_element(
    t: ShapeTable,
    parent: FrameView,
    child: FrameView,
    deferred: bool,
    d: ListDef,
    h: HostView,
)
    requires
        parent.is_init,
        parent.tracker matches TrackerView::List { current_child, .. } && current_child is Some,
        t.at(parent.allocated.shape).def == Def::List(d),
        child.ownership is Owned || child.ownership is TrackedBuffer || child.ownership is External
            || child.ownership is RopeSlot,
    ensures
        ({
            let a = attached(t, parent, child, deferred, h);
            let rope = parent.tracker->List_rope;
            &&& a.host.oracle == h.oracle
            &&& child.ownership is RopeSlot ==> {
                &&& a.result is Ok
                &&& a.host == h
                &&& a.parent == (FrameView {
                    tracker: TrackerView::List {
                        current_child: None,
                        rope: match rope {
                            Some(r) => Some(r.marked()),
                            None => None,
                        },
                    },
                    ..parent
                })
            }
            &&& !(child.ownership is RopeSlot) ==> match d.push {
                Some(f) => {
                    &&& a.result is Ok
                    &&& a.host.trace == h.trace.push(
                        MemOp::ListPush { f, list: parent.data.addr, item: child.data.addr },
                    ) + child.dealloc_ops(t)
                    &&& a.parent == (FrameView {
                        tracker: TrackerView::List { current_child: None, rope },
                        ..parent
                    })
                },
                None => {
                    &&& a.result == Err::<(), ReflectErrorKind>(
                        ReflectErrorKind::OperationFailed {
                            shape: parent.allocated.shape,
                            operation: "List missing push function",
                        },
                    )
                    &&& a.parent == parent
                    &&& a.host.trace == h.trace + child.deinit_ops(t) + child.dealloc_ops(t)
                },
            }
        }),
{
}

/// An element that ended is moved into its set, once, from where it was built, and then its memory
/// is released. Then the set works on no element.
pub proof fn law_set_takes_its_element(
    t: ShapeTable,
    parent: FrameView,
    child: FrameView,
    deferred: bool,
    d: SetDef,
    h: HostView,
)
    requires
        parent.is_init,
        parent.tracker == (TrackerView::SetOf { current_child: true }),
        t.at(parent.allocated.shape).def == Def::SetOf(d),
        child.ownership is Owned || child.ownership is TrackedBuffer || child.ownership is External
            || child.ownership is RopeSlot,
    ensures
        ({
            let a = attached(t, parent, child, deferred, h);
            &&& a.result is Ok
            &&& a.host.oracle == h.oracle
            &&& a.host.trace == h.trace.push(
                MemOp::SetInsert { f: d.insert, set: parent.data.addr, item: child.data.addr },
            ) + child.dealloc_ops(t)
            &&& a.parent == (FrameView {
                tracker: TrackerView::SetOf { current_child: false },
                ..parent
            })
        }),
{
}

/// A key that ended waits in its map, behind the entries that wait already, without a value; the
/// map asks for the value next. A value that ended waits with the last key, and the map is ready
/// for the next entry. Only defaults are written, into the key or value itself.
pub proof fn law_map_keeps_keys_and_values(
    t: ShapeTable,
    parent: FrameView,
    child: FrameView,
    deferred: bool,
    h: HostView,
)
    requires
        parent.is_init,
        parent.tracker matches TrackerView::MapOf { insert_state, pending_entries, .. } && !(
        insert_state is Idle) && (insert_state is PushingValue ==> pending_entries.len() > 0),
        child.ownership is Owned || child.ownership is TrackedBuffer || child.ownership is External
            || child.ownership is RopeSlot,
        child.filled(t).result is Ok,
    ensures
        ({
            let a = attached(t, parent, child, deferred, h);
            let entries = parent.tracker->MapOf_pending_entries;
            let n = entries.len() as int;
            match parent.tracker->MapOf_insert_state {
                MapInsertState::PushingKey { key_ptr } => {
                    &&& a.result is Ok
                    &&& a.host.trace == h.trace + child.filled(t).ops
                    &&& a.parent == (FrameView {
                        tracker: TrackerView::MapOf {
                            insert_state: MapInsertState::PushingValue { key_ptr, value_ptr: None },
                            pending_entries: entries.push((key_ptr, None)),
                            current_entry_index: parent.tracker->MapOf_current_entry_index,
                            building_key: parent.tracker->MapOf_building_key,
                        },
                        ..parent
                    })
                },
                MapInsertState::PushingValue { value_ptr: Some(value), .. } => {
                    &&& a.result is Ok
                    &&& a.host.trace == h.trace + child.filled(t).ops
                    &&& a.parent.tracker matches TrackerView::MapOf {
                        insert_state,
                        pending_entries,
                        current_entry_index,
                        building_key,
                    }
                    &&& insert_state is Idle
                    &&& pending_entries.len() == n
                    &&& forall|i: int|
                        0 <= i < n - 1 ==> #[trigger] pending_entries[i] == entries[i]
                    &&& pending_entries[n - 1] == (entries[n - 1].0, Some(value))
                    &&& current_entry_index == parent.tracker->MapOf_current_entry_index
                    &&& building_key == parent.tracker->MapOf_building_key
                    &&& parent.same_frame(a.parent)
                    &&& a.parent.is_init
                },
                _ => {
                    let f = child.filled(t).frame;
                    &&& a.result is Ok
                    &&& a.parent == parent
                    &&& a.host.trace == h.trace + child.filled(t).ops + f.deinit_ops(t)
                        + f.dealloc_ops(t)
                },
            }
        }),
{
}

/// A key or value that asks for a default which is lacking is an error: it is disposed of, and the
/// map stays as it is.
pub proof fn law_map_refuses_what_has_no_default(
    t: ShapeTable,
    parent: FrameView,
    child: FrameView,
    deferred: bool,
    h: HostView,
)
    requires
        parent.is_init,
        parent.tracker matches TrackerView::MapOf { insert_state, .. } && !(insert_state is Idle),
        child.ownership is Owned || child.ownership is TrackedBuffer || child.ownership is External
            || child.ownership is RopeSlot,
        child.filled(t).result is Err,
    ensures
        ({
            let a = attached(t, parent, child, deferred, h);
            let f = child.filled(t).frame;
            &&& a.result == Err::<(), ReflectErrorKind>(child.filled(t).result->Err_0)
            &&& a.parent == parent
            &&& a.host.trace == h.trace + child.filled(t).ops + f.deinit_ops(t) + f.dealloc_ops(t)
        }),
{
}

/// The value that an option asked for waits in the option, where it was built, and nothing is done
/// to memory. Then the option counts as initialized, and works on nothing.
pub proof fn law_option_keeps_its_value(
    t: ShapeTable,
    parent: FrameView,
    child: FrameView,
    deferred: bool,
    h: HostView,
)
    requires
        parent.tracker matches TrackerView::Option { building_inner, .. } && building_inner,
        t.at(parent.allocated.shape).def is Option,
        child.ownership is Owned || child.ownership is TrackedBuffer || child.ownership is External
            || child.ownership is RopeSlot,
    ensures
        ({
            let a = attached(t, parent, child, deferred, h);
            &&& a.result is Ok
            &&& a.host == h
            &&& a.parent == (FrameView {
                tracker: TrackerView::Option {
                    building_inner: false,
                    pending_inner: Some(child.data),
                },
                is_init: true,
                ..parent
            })
        }),
{
}

/// The value that a result asked for is moved into it, as `Ok` or as `Err` as the result was begun,
/// once and from where it was built; then its memory is released, and the result is complete.
pub proof fn law_result_takes_its_value(
    t: ShapeTable,
    parent: FrameView,
    child: FrameView,
    deferred: bool,
    d: ResultDef,
    is_ok: bool,
    h: HostView,
)
    requires
        parent.tracker == (TrackerView::Result { is_ok, building_inner: true }),
        t.at(parent.allocated.shape).def == Def::Result(d),
        child.ownership is Owned || child.ownership is TrackedBuffer || child.ownership is External
            || child.ownership is RopeSlot,
    ensures
        ({
            let a = attached(t, parent, child, deferred, h);
            let dst = parent.data.addr;
            let src = child.data.addr;
            &&& a.result is Ok
            &&& a.host.oracle == h.oracle
            &&& is_ok ==> a.host.trace == h.trace.push(MemOp::InitOk { f: d.init_ok, dst, src })
                + child.dealloc_ops(t)
            &&& !is_ok ==> a.host.trace == h.trace.push(MemOp::InitErr { f: d.init_err, dst, src })
                + child.dealloc_ops(t)
            &&& a.parent == (FrameView {
                tracker: TrackerView::Result { is_ok, building_inner: false },
                is_init: true,
                ..parent
            })
        }),
{
}

/// An item that ended is moved into its slice builder, once, from where it was built, and then its
/// memory is released. Then the builder works on no item.
pub proof fn law_slice_takes_its_item(
    t: ShapeTable,
    parent: FrameView,
    child: FrameView,
    deferred: bool,
    h: HostView,
)
    requires
        parent.tracker matches TrackerView::SmartPointerSlice { building_item, .. } && building_item,
        child.ownership is Owned || child.ownership is TrackedBuffer || child.ownership is External
            || child.ownership is RopeSlot,
    ensures
        ({
            let a = attached(t, parent, child, deferred, h);
            let vtable = parent.tracker->SmartPointerSlice_vtable;
            let current_child = parent.tracker->SmartPointerSlice_current_child;
            &&& a.result is Ok
            &&& a.host.oracle == h.oracle
            &&& a.host.trace == h.trace.push(
                MemOp::SlicePush {
                    f: vtable.push_fn,
                    builder: parent.data.addr,
                    item: child.data.addr,
                },
            ) + child.dealloc_ops(t)
            &&& a.parent == (FrameView {
                tracker: TrackerView::SmartPointerSlice {
                    vtable,
                    building_item: false,
                    current_child,
                },
                ..parent
            })
        }),
{
}

/// An initialized element that ended is moved to the end of its dynamic array, once and at once,
/// and then its memory is released; those that wait go on waiting. One that was never initialized
/// is an error, and is not moved.
pub proof fn law_dynamic_array_takes_its_element(
    t: ShapeTable,
    parent: FrameView,
    child: FrameView,
    deferred: bool,
    d: DynamicDef,
    elements: Seq<PtrUninit>,
    h: HostView,
)
    requires
        parent.tracker == (TrackerView::DynamicValue {
            state: DynamicValueView::Array { building_element: true, pending_elements: elements },
        }),
        t.at(parent.allocated.shape).def == Def::DynamicValue(d),
        child.ownership is Owned || child.ownership is TrackedBuffer || child.ownership is External
            || child.ownership is RopeSlot,
    ensures
        ({
            let a = attached(t, parent, child, deferred, h);
            &&& a.result is Ok <==> child.is_init
            &&& child.is_init ==> a.host.trace == h.trace.push(
                MemOp::PushElement {
                    f: d.push_array_element,
                    array: parent.data.addr,
                    item: child.data.addr,
                },
            ) + child.dealloc_ops(t)
            &&& !child.is_init ==> a.host.trace == h.trace + child.deinit_ops(t) + child.dealloc_ops(t)
            &&& !child.is_init ==> a.result == Err::<(), ReflectErrorKind>(
                ReflectErrorKind::OperationFailed {
                    shape: parent.allocated.shape,
                    operation: "end() called but array element was never initialized",
                },
            )
            &&& a.parent == (FrameView {
                tracker: TrackerView::DynamicValue {
                    state: DynamicValueView::Array {
                        building_element: false,
                        pending_elements: elements,
                    },
                },
                ..parent
            })
        }),
{
}

/// An initialized value that ended is moved into its dynamic object, under the key that it was
/// begun with, once and at once, and then its memory is released; entries that wait go on waiting.
/// One that was never initialized is an error, and is not moved.
pub proof fn law_dynamic_object_takes_its_entry(
    t: ShapeTable,
    parent: FrameView,
    child: FrameView,
    deferred: bool,
    d: DynamicDef,
    key: String,
    entries: Seq<(String, PtrUninit)>,
    h: HostView,
)
    requires
        parent.tracker == (TrackerView::DynamicValue {
            state: DynamicValueView::Object {
                insert_state: DynamicObjectInsertState::BuildingValue { key },
                pending_entries: entries,
            },
        }),
        t.at(parent.allocated.shape).def == Def::DynamicValue(d),
        child.ownership is Owned || child.ownership is TrackedBuffer || child.ownership is External
            || child.ownership is RopeSlot,
    ensures
        ({
            let a = attached(t, parent, child, deferred, h);
            &&& a.result is Ok <==> child.is_init
            &&& child.is_init ==> a.host.trace == h.trace.push(
                MemOp::InsertEntry {
                    f: d.insert_object_entry,
                    object: parent.data.addr,
                    key,
                    value: child.data.addr,
                },
            ) + child.dealloc_ops(t)
            &&& !child.is_init ==> a.host.trace == h.trace + child.deinit_ops(t) + child.dealloc_ops(t)
            &&& !child.is_init ==> a.result == Err::<(), ReflectErrorKind>(
                ReflectErrorKind::OperationFailed {
                    shape: parent.allocated.shape,
                    operation: "end() called but object entry value was never initialized",
                },
            )
            &&& a.parent == (FrameView {
                tracker: TrackerView::DynamicValue {
                    state: DynamicValueView::Object {
                        insert_state: DynamicObjectInsertState::Idle,
                        pending_entries: entries,
                    },
                },
                ..parent
            })
        }),
{
}

/// A field or element that ended stays where it is. It gets its defaults, and what waits in it is
/// moved into place. If it is complete then, the parent counts it as initialized, and no other
/// field changes; if it is not, what there is of it is disposed of, and the parent does not count
/// it. Either way the parent works on nothing. A default that is lacking is an error.
pub proof fn law_parent_counts_its_field(
    t: ShapeTable,
    parent: FrameView,
    child: FrameView,
    idx: usize,
    deferred: bool,
    h: HostView,
)
    requires
        child.ownership == (FrameOwnership::Field { field_idx: idx }),
        parent.tracker is Struct || parent.tracker is Enum || parent.tracker is Array,
    ensures
        ({
            let a = attached(t, parent, child, deferred, h);
            let filled = child.filled(t);
            let done = filled.frame.completed(t);
            let kept = filled.result is Ok && done.result is Ok;
            &&& a.result is Ok <==> filled.result is Ok
            &&& filled.result matches Err(e) ==> a.result == Err::<(), ReflectErrorKind>(e) && a.parent
                == parent
            &&& kept ==> a.host.trace == h.trace + filled.ops + done.ops
            &&& filled.result is Ok ==> a.parent == (FrameView {
                tracker: match parent.tracker {
                    TrackerView::Struct { iset, .. } => TrackerView::Struct {
                        iset: if kept {
                            iset.insert(idx as int)
                        } else {
                            iset
                        },
                        current_child: None,
                    },
                    TrackerView::Enum { variant_idx, data, .. } => TrackerView::Enum {
                        variant_idx,
                        data: if kept {
                            data.insert(idx as int)
                        } else {
                            data
                        },
                        current_child: None,
                    },
                    TrackerView::Array { iset, .. } => TrackerView::Array {
                        iset: if kept {
                            iset.insert(idx as int)
                        } else {
                            iset
                        },
                        current_child: None,
                    },
                    _ => parent.tracker,
                },
                ..parent
            })
            &&& filled.result is Ok && !kept ==> a.host.trace == h.trace + filled.ops + done.ops
                + done.frame.deinit_ops(t) + done.frame.dealloc_ops(t)
            &&& filled.result is Err ==> a.host.trace == h.trace + filled.ops
                + filled.frame.deinit_ops(t) + filled.frame.dealloc_ops(t)
        }),
{
}

/// A field frame under a parent that counts no fields leaves the parent as it is, and is completed
/// or disposed of all the same.
pub proof fn law_other_parents_count_no_field(
    t: ShapeTable,
    parent: FrameView,
    child: FrameView,
    idx: usize,
    deferred: bool,
    h: HostView,
)
    requires
        child.ownership == (FrameOwnership::Field { field_idx: idx }),
        !(parent.tracker is Struct) && !(parent.tracker is Enum) && !(parent.tracker is Array),
        parent.is_init || !(parent.tracker is Scalar || parent.tracker is Inner),
    ensures
        ({
            let a = attached(t, parent, child, deferred, h);
            let filled = child.filled(t);
            let done = filled.frame.completed(t);
            &&& a.parent == parent
            &&& a.result is Ok <==> filled.result is Ok
            &&& filled.result is Ok ==> a.host.trace == if done.result is Ok {
                h.trace + filled.ops + done.ops
            } else {
                h.trace + filled.ops + done.ops + done.frame.deinit_ops(t) + done.frame.dealloc_ops(t)
            }
        }),
{
}

/// In strict mode a pointer is made from its complete pointee at once. A pointer that takes values
/// over takes it, and the value is not dropped; one that can only borrow is made to own a clone,
/// and then the value is dropped; a pointer to `str` is made from a `String`. A value from which no
/// pointer can be made is dropped, and the pointer is not initialized. In every way the memory is
/// released.
pub proof fn law_pointer_is_made_from_its_pointee(
    t: ShapeTable,
    parent: FrameView,
    child: FrameView,
    p: PointerDef,
    h: HostView,
)
    requires
        parent.tracker matches TrackerView::SmartPointer { building_inner, .. } && building_inner,
        !parent.is_init,
        t.at(parent.allocated.shape).def == Def::Pointer(p),
        child.ownership is Owned || child.ownership is TrackedBuffer || child.ownership is External
            || child.ownership is RopeSlot,
        child.completed(t).result is Ok,
    ensures
        ({
            let a = attached(t, parent, child, false, h);
            let done = child.completed(t);
            let f = done.frame;
            let dst = parent.data.addr;
            let src = child.data.addr;
            let inner = child.allocated.shape;
            let takes = p.vtable.new_into_fn is Some;
            let clones = p.vtable.borrow_from_pointee_fn is Some && p.vtable.promote_to_owned_fn is Some
                && p.pointee == Some(inner) && t.at(inner).layout is Sized;
            let string = p.pointee == Some(t.str_shape) && inner == t.string_shape && (
            p.known == Some(KnownPointer::Box) || p.known == Some(KnownPointer::Arc) || p.known == Some(
                KnownPointer::Rc,
            ) || p.known == Some(KnownPointer::Cow));
            &&& a.result is Ok
            &&& takes ==> a.host.trace == (h.trace + done.ops).push(
                MemOp::NewInto { f: p.vtable.new_into_fn->0, dst, src },
            ) + f.dealloc_ops(t)
            &&& !takes && clones ==> a.host.trace == (h.trace + done.ops).push(
                MemOp::BorrowFromPointee { f: p.vtable.borrow_from_pointee_fn->0, dst, pointee: src },
            ).push(MemOp::PromoteToOwned { f: p.vtable.promote_to_owned_fn->0, at: dst }) + t.drop_ops(
                inner,
                src,
            ) + f.dealloc_ops(t)
            &&& !takes && !clones && string ==> a.host.trace == (h.trace + done.ops).push(
                MemOp::StringInto { kind: p.known->0, dst, src },
            ) + f.dealloc_ops(t)
            &&& !takes && !clones && !string ==> a.host.trace == h.trace + done.ops + t.drop_ops(
                inner,
                src,
            ) + f.dealloc_ops(t)
            &&& a.parent == (FrameView {
                is_init: takes || clones || string,
                tracker: TrackerView::Scalar,
                ..parent
            })
        }),
{
    lemma_completed_is_the_same_frame(child, t);
    let a = attached(t, parent, child, false, h);
    let done = child.completed(t);
    let f = done.frame;
    let dst = parent.data.addr;
    let src = child.data.addr;
    let inner = child.allocated.shape;
    let begun = h.trace + done.ops;
    assert(begun + (t.drop_ops(inner, src) + f.dealloc_ops(t)) =~= begun + t.drop_ops(inner, src)
        + f.dealloc_ops(t));
    if can_borrow_and_promote(t, p, inner) {
        let pair = begun.push(
            MemOp::BorrowFromPointee { f: p.vtable.borrow_from_pointee_fn->0, dst, pointee: src },
        ).push(MemOp::PromoteToOwned { f: p.vtable.promote_to_owned_fn->0, at: dst });
        assert(begun + borrow_and_promote_ops(p, dst, src) =~= pair);
        assert(pair + (t.drop_ops(inner, src) + f.dealloc_ops(t)) =~= pair + t.drop_ops(inner, src)
            + f.dealloc_ops(t));
    }
}

/// Completing a value keeps it where it is, as who it is.
pub proof fn lemma_completed_is_the_same_frame(f: FrameView, t: ShapeTable)
    ensures
        f.same_frame(f.completed(t).frame),
{
    reveal(FrameView::completed);
}

/// Filling in defaults keeps a value where it is, as who it is.
pub proof fn lemma_filled_is_the_same_frame(f: FrameView, t: ShapeTable)
    ensures
        f.same_frame(f.filled(t).frame),
{
    reveal(FrameView::filled);
}

/// In deferred mode a pointee that is handed to its pointer gets its defaults, is completed, and
/// waits in the pointer, where it was built and with its memory. The pointer is not initialized
/// while it waits.
pub proof fn law_pointee_waits_in_deferred_mode(
    t: ShapeTable,
    parent: FrameView,
    child: FrameView,
    h: HostView,
)
    requires
        parent.tracker matches TrackerView::SmartPointer { building_inner, .. } && building_inner,
        t.at(parent.allocated.shape).def is Pointer,
        child.ownership is Owned || child.ownership is TrackedBuffer || child.ownership is External
            || child.ownership is RopeSlot,
        child.filled(t).result is Ok,
        child.filled(t).frame.completed(t).result is Ok,
    ensures
        ({
            let a = attached(t, parent, child, true, h);
            let filled = child.filled(t);
            &&& a.result is Ok
            &&& a.host.trace == h.trace + filled.ops + filled.frame.completed(t).ops
            &&& a.parent == (FrameView {
                tracker: TrackerView::SmartPointer {
                    building_inner: false,
                    pending_inner: Some(
                        PendingSmartPointerInner {
                            data: child.data,
                            allocated: child.allocated,
                            ownership: child.ownership,
                        },
                    ),
                },
                is_init: false,
                ..parent
            })
        }),
{
    lemma_filled_is_the_same_frame(child, t);
    lemma_completed_is_the_same_frame(child.filled(t).frame, t);
}

/// A pointer that did not ask for a pointee refuses one, with an error, and stays as it is; a
/// pointee that is not complete is refused too, with what is missing of it. The pointee is disposed
/// of.
pub proof fn law_pointer_refuses_what_it_cannot_use(
    t: ShapeTable,
    parent: FrameView,
    child: FrameView,
    deferred: bool,
    h: HostView,
)
    requires
        parent.tracker is SmartPointer,
        child.ownership is Owned || child.ownership is TrackedBuffer || child.ownership is External
            || child.ownership is RopeSlot,
    ensures
        ({
            let a = attached(t, parent, child, deferred, h);
            let asked = parent.tracker->SmartPointer_building_inner;
            let done = child.completed(t);
            &&& !asked ==> {
                &&& a.result == Err::<(), ReflectErrorKind>(
                    ReflectErrorKind::OperationFailed {
                        shape: parent.allocated.shape,
                        operation: "SmartPointer end() called with building_inner = false",
                    },
                )
                &&& a.parent == parent
                &&& a.host.trace == h.trace + child.deinit_ops(t) + child.dealloc_ops(t)
            }
            &&& asked && !(t.at(parent.allocated.shape).def is Pointer) ==> {
                &&& a.result == Err::<(), ReflectErrorKind>(
                    ReflectErrorKind::OperationFailed {
                        shape: parent.allocated.shape,
                        operation: "SmartPointer frame without SmartPointer definition",
                    },
                )
                &&& a.parent == parent
                &&& a.host.trace == h.trace + child.deinit_ops(t) + child.dealloc_ops(t)
            }
            &&& asked && t.at(parent.allocated.shape).def is Pointer && !deferred
                && done.result is Err ==> {
                &&& a.result == Err::<(), ReflectErrorKind>(done.result->Err_0)
                &&& a.parent == parent
                &&& a.host.trace == h.trace + done.ops + done.frame.deinit_ops(t)
                    + done.frame.dealloc_ops(t)
            }
            &&& asked && t.at(parent.allocated.shape).def is Pointer && deferred ==> {
                let filled = child.filled(t);
                let fin = filled.frame.completed(t);
                &&& filled.result is Err ==> {
                    &&& a.result == Err::<(), ReflectErrorKind>(filled.result->Err_0)
                    &&& a.parent == parent
                    &&& a.host.trace == h.trace + filled.ops + filled.frame.deinit_ops(t)
                        + filled.frame.dealloc_ops(t)
                }
                &&& filled.result is Ok && fin.result is Err ==> {
                    &&& a.result == Err::<(), ReflectErrorKind>(fin.result->Err_0)
                    &&& a.parent == parent
                    &&& a.host.trace == h.trace + filled.ops + fin.ops + fin.frame.deinit_ops(t)
                        + fin.frame.dealloc_ops(t)
                }
            }
        }),
{
}

/// A value that is built from, or wraps, the type of the child is converted from it by its hook:
/// the hook is called once, from the child to the value, after the child was found complete. What
/// the hook says decides the rest. If it converted the child, the value is initialized and the
/// child's memory released. If it refuses the type, the child is dropped too. If it consumed the
/// child and failed, only the memory is released. If it does not say, the child is not touched. In
/// all cases but the first the value stays as it is, and the error names both types.
pub proof fn law_value_is_converted_from_its_child(
    t: ShapeTable,
    parent: FrameView,
    child: FrameView,
    f: FnRef,
    deferred: bool,
    h: HostView,
)
    requires
        !parent.is_init,
        parent.tracker is Scalar || parent.tracker is Inner,
        t.at(parent.allocated.shape).builder_shape == Some(child.allocated.shape) || t.at(
            parent.allocated.shape,
        ).inner == Some(child.allocated.shape),
        match t.at(parent.allocated.shape).vtable {
            VTableErased::Direct(vt) => vt.try_from == Some(f),
            VTableErased::Indirect(vt) => vt.try_from == Some(f),
            VTableErased::Unknown => false,
        },
        child.completed(t).result is Ok,
    ensures
        ({
            let a = attached(t, parent, child, deferred, h);
            let done = child.completed(t);
            let src_shape = child.allocated.shape;
            let dst_shape = parent.allocated.shape;
            let call = TryFromCall {
                f,
                dst: parent.data.addr,
                src_shape,
                src: child.data.addr,
            };
            let asked = (h.trace + done.ops).push(MemOp::TryFrom { call });
            let released = done.frame.dealloc_ops(t);
            let dropped = if child.ownership is BorrowedInPlace {
                Seq::empty()
            } else {
                t.drop_ops(src_shape, child.data.addr)
            };
            match (h.oracle.try_from)(h.trace + done.ops, call) {
                TryFromOutcome::Converted => {
                    &&& a.result is Ok
                    &&& a.host.trace == asked + released
                    &&& a.parent == (FrameView {
                        tracker: TrackerView::Scalar,
                        is_init: true,
                        ..parent
                    })
                },
                TryFromOutcome::Unsupported => {
                    &&& a.result == Err::<(), ReflectErrorKind>(
                        ReflectErrorKind::TryFromError {
                            src_shape,
                            dst_shape,
                            inner: TryFromError::UnsupportedSourceType,
                        },
                    )
                    &&& a.host.trace == asked + dropped + released
                    &&& a.parent == parent
                },
                TryFromOutcome::Failed(message) => {
                    &&& a.result == Err::<(), ReflectErrorKind>(
                        ReflectErrorKind::TryFromError {
                            src_shape,
                            dst_shape,
                            inner: TryFromError::Generic(message),
                        },
                    )
                    &&& a.host.trace == asked + released
                    &&& a.parent == parent
                },
                TryFromOutcome::Unknown => {
                    &&& a.result == Err::<(), ReflectErrorKind>(
                        ReflectErrorKind::TryFromError {
                            src_shape,
                            dst_shape,
                            inner: TryFromError::UnsupportedSourceType,
                        },
                    )
                    &&& a.host.trace == asked
                    &&& a.parent == parent
                },
            }
        }),
{
    lemma_completed_is_the_same_frame(child, t);
    let done = child.completed(t);
    let call = TryFromCall {
        f,
        dst: parent.data.addr,
        src_shape: child.allocated.shape,
        src: child.data.addr,
    };
    let asked = (h.trace + done.ops).push(MemOp::TryFrom { call });
    let released = done.frame.dealloc_ops(t);
    let dropped = t.drop_ops(child.allocated.shape, child.data.addr);
    assert(asked + (dropped + released) =~= asked + dropped + released);
    assert(asked + Seq::<MemOp>::empty() + released =~= asked + released);
}

/// A value is converted from its proxy by the function that belongs to the proxy, which is called
/// once, from the proxy to the value, and consumes the proxy: its memory is released, whatever the
/// answer is. The value is initialized exactly if the function wrote it where it lies; otherwise
/// the error names both types, and says what the function said.
pub proof fn law_value_is_converted_from_its_proxy(
    t: ShapeTable,
    parent: FrameView,
    child: FrameView,
    f: FnRef,
    h: HostView,
)
    ensures
        ({
            let a = parent.from_proxy(t, child, f, h);
            let call = ConvertCall { f, src: child.data.addr, dst: parent.data.addr };
            let answer = (h.oracle.convert_in)(h.trace, call);
            let src_shape = child.allocated.shape;
            let dst_shape = parent.allocated.shape;
            &&& a.host.trace == h.trace.push(MemOp::ConvertIn { call }) + child.dealloc_ops(t)
            &&& a.host.oracle == h.oracle
            &&& a.result is Ok <==> answer == Ok::<Addr, String>(parent.data.addr)
            &&& a.result is Ok ==> a.frame == (FrameView { is_init: true, ..parent })
            &&& a.result is Err ==> a.frame == parent
            &&& answer matches Err(message) ==> a.result == Err::<(), ReflectErrorKind>(
                ReflectErrorKind::CustomDeserializationError {
                    message: Message::Reported(message),
                    src_shape,
                    dst_shape,
                },
            )
            &&& answer matches Ok(at) ==> (at != parent.data.addr ==> a.result == Err::<
                (),
                ReflectErrorKind,
            >(
                ReflectErrorKind::CustomDeserializationError {
                    message: Message::Fixed("deserialize_with did not return the expected pointer"),
                    src_shape,
                    dst_shape,
                },
            ))
        }),
{
}

/// A `String` that ended becomes a pointer to `str`, where nothing is tracked of the pointer and it
/// is a `Box`, an `Arc` or an `Rc`: what the pointer held is dropped first, then the string is
/// moved in, once, and its memory released.
pub proof fn law_string_becomes_a_pointer(
    t: ShapeTable,
    parent: FrameView,
    child: FrameView,
    p: PointerDef,
    deferred: bool,
    h: HostView,
)
    requires
        parent.tracker is Scalar,
        parent.is_init || t.at(parent.allocated.shape).vtable is Unknown,
        t.at(parent.allocated.shape).def == Def::Pointer(p),
        p.pointee == Some(t.str_shape),
        child.allocated.shape == t.string_shape,
        child.ownership is Owned || child.ownership is TrackedBuffer || child.ownership is External
            || child.ownership is RopeSlot,
        child.completed(t).result is Ok,
        p.known == Some(KnownPointer::Box) || p.known == Some(KnownPointer::Arc) || p.known == Some(
            KnownPointer::Rc,
        ),
    ensures
        ({
            let a = attached(t, parent, child, deferred, h);
            let done = child.completed(t);
            &&& a.result is Ok
            &&& a.host.trace == (h.trace + done.ops + parent.deinit_ops(t)).push(
                MemOp::StringInto {
                    kind: p.known->0,
                    dst: parent.data.addr,
                    src: child.data.addr,
                },
            ) + done.frame.dealloc_ops(t)
            &&& a.parent == (FrameView { is_init: true, tracker: TrackerView::Scalar, ..parent })
        }),
{
}

/// A part that the parent did not ask for is dropped and its memory released, and the parent stays
/// as it is: an option or result that works on nothing, a list or set that works on no element, a
/// map between entries, any of these that is not initialized where it has to be, and a value that
/// is made of fields or elements, or by a conversion that it does not have.
pub proof fn law_unasked_part_is_disposed_of(
    t: ShapeTable,
    parent: FrameView,
    child: FrameView,
    deferred: bool,
    h: HostView,
)
    requires
        match parent.tracker {
            TrackerView::List { current_child, .. } => !parent.is_init || current_child is None,
            TrackerView::SetOf { current_child } => !parent.is_init || !current_child,
            TrackerView::MapOf { insert_state, .. } => !parent.is_init || insert_state is Idle,
            TrackerView::Option { building_inner, .. } => !building_inner,
            TrackerView::Result { building_inner, .. } => !building_inner,
            TrackerView::SmartPointerSlice { building_item, .. } => !building_item,
            TrackerView::DynamicValue { state } => match state {
                DynamicValueView::Array { building_element, .. } => !building_element,
                DynamicValueView::Object { insert_state, .. } => !(insert_state is BuildingValue),
                _ => true,
            },
            TrackerView::Struct { .. } | TrackerView::Enum { .. } | TrackerView::Array { .. } => true,
            TrackerView::Inner { .. } => parent.is_init || t.at(
                parent.allocated.shape,
            ).vtable is Unknown,
            _ => false,
        },
        child.ownership is Owned || child.ownership is TrackedBuffer || child.ownership is External
            || child.ownership is RopeSlot,
    ensures
        ({
            let a = attached(t, parent, child, deferred, h);
            &&& a.result is Ok
            &&& a.parent == parent
            &&& a.host.oracle == h.oracle
            &&& a.host.trace == h.trace + child.deinit_ops(t) + child.dealloc_ops(t)
        }),
{
}

/// An entry of an existing collection is completed before its parent hears of it, and one that is
/// not complete is an error.
pub proof fn law_borrowed_entry_is_completed_first(
    t: ShapeTable,
    parent: FrameView,
    child: FrameView,
    deferred: bool,
    h: HostView,
)
    requires
        child.ownership is BorrowedInPlace,
        parent.is_init || !(parent.tracker is Scalar || parent.tracker is Inner),
    ensures
        ({
            let a = attached(t, parent, child, deferred, h);
            let done = child.completed(t);
            &&& done.result is Err ==> {
                &&& a.result == Err::<(), ReflectErrorKind>(done.result->Err_0)
                &&& a.parent == parent
                &&& a.host.trace == h.trace + done.ops + done.frame.deinit_ops(t)
                    + done.frame.dealloc_ops(t)
            }
            &&& done.result is Ok ==> a == taken_over(
                t,
                parent,
                done.frame,
                deferred,
                h.plus(done.ops),
            )
        }),
{
}

/// A child that is to be converted and is not complete is an error, and is disposed of; the hook is
/// not called.
pub proof fn law_incomplete_child_is_not_converted(
    t: ShapeTable,
    parent: FrameView,
    child: FrameView,
    deferred: bool,
    h: HostView,
)
    requires
        !parent.is_init,
        parent.tracker is Scalar || parent.tracker is Inner,
        t.at(parent.allocated.shape).builder_shape == Some(child.allocated.shape) || t.at(
            parent.allocated.shape,
        ).inner == Some(child.allocated.shape),
        t.at(parent.allocated.shape).vtable.spec_try_from() is Some,
        child.completed(t).result is Err,
    ensures
        ({
            let a = attached(t, parent, child, deferred, h);
            let done = child.completed(t);
            &&& a.result == Err::<(), ReflectErrorKind>(done.result->Err_0)
            &&& a.parent == parent
            &&& a.host.trace == h.trace + done.ops + done.frame.deinit_ops(t)
                + done.frame.dealloc_ops(t)
        }),
{
}

/// Why a child under a parent of which nothing is tracked is refused, where it is not converted:
/// the parent is no pointer, its pointee is not known or not `str`, the child is no `String`, or is
/// not complete, or the pointer is of a kind that cannot be made from a `String`. The child is
/// disposed of. Only in the last case what the parent held is dropped first.
pub proof fn law_why_a_string_is_refused(
    t: ShapeTable,
    parent: FrameView,
    child: FrameView,
    deferred: bool,
    h: HostView,
)
    requires
        parent.tracker is Scalar,
        parent.is_init || t.at(parent.allocated.shape).vtable is Unknown,
        child.ownership is Owned || child.ownership is TrackedBuffer || child.ownership is External
            || child.ownership is RopeSlot,
    ensures
        ({
            let a = attached(t, parent, child, deferred, h);
            let shape = parent.allocated.shape;
            let done = child.completed(t);
            let gone = h.trace + child.deinit_ops(t) + child.dealloc_ops(t);
            let gone_later = h.trace + done.ops + done.frame.deinit_ops(t) + done.frame.dealloc_ops(t);
            match t.at(shape).def {
                Def::Pointer(p) => {
                    &&& p.pointee is None ==> {
                        &&& a.result == Err::<(), ReflectErrorKind>(
                            ReflectErrorKind::InvariantViolation {
                                invariant: "pointer type doesn't have a pointee",
                            },
                        )
                        &&& a.parent == parent && a.host.trace == gone
                    }
                    &&& p.pointee matches Some(x) ==> {
                        &&& x != t.str_shape ==> {
                            &&& a.result == Err::<(), ReflectErrorKind>(
                                ReflectErrorKind::InvariantViolation {
                                    invariant: "only T=str is supported when building SmartPointer<T> and T is unsized",
                                },
                            )
                            &&& a.parent == parent && a.host.trace == gone
                        }
                        &&& x == t.str_shape && child.allocated.shape != t.string_shape ==> {
                            &&& a.result == Err::<(), ReflectErrorKind>(
                                ReflectErrorKind::InvariantViolation {
                                    invariant: "the popped frame should be String when building a SmartPointer<T>",
                                },
                            )
                            &&& a.parent == parent && a.host.trace == gone
                        }
                        &&& x == t.str_shape && child.allocated.shape == t.string_shape ==> {
                            &&& done.result matches Err(e) ==> {
                                &&& a.result == Err::<(), ReflectErrorKind>(e)
                                &&& a.parent == parent && a.host.trace == gone_later
                            }
                            &&& done.result is Ok && p.known is None ==> {
                                &&& a.result == Err::<(), ReflectErrorKind>(
                                    ReflectErrorKind::OperationFailed {
                                        shape,
                                        operation: "SmartPointerStr for unknown smart pointer kind",
                                    },
                                )
                                &&& a.parent == parent && a.host.trace == gone_later
                            }
                            &&& done.result is Ok && p.known is Some && p.known != Some(
                                KnownPointer::Box,
                            ) && p.known != Some(KnownPointer::Arc) && p.known != Some(
                                KnownPointer::Rc,
                            ) ==> {
                                &&& a.result == Err::<(), ReflectErrorKind>(
                                    ReflectErrorKind::OperationFailed {
                                        shape,
                                        operation: "Don't know how to build this pointer type",
                                    },
                                )
                                &&& a.parent == (FrameView {
                                    is_init: false,
                                    tracker: TrackerView::Scalar,
                                    ..parent
                                })
                                &&& a.host.trace == h.trace + done.ops + parent.deinit_ops(t)
                                    + done.frame.deinit_ops(t) + done.frame.dealloc_ops(t)
                            }
                        }
                    }
                },
                _ => {
                    &&& a.result == Err::<(), ReflectErrorKind>(
                        ReflectErrorKind::OperationFailed {
                            shape,
                            operation: "end() called but parent has Uninit/Init tracker and isn't a SmartPointer",
                        },
                    )
                    &&& a.parent == parent && a.host.trace == gone
                },
            }
        }),
{
}

/// An option or a result that asked for a value, and is none by its definition, refuses it; the
/// value is disposed of.
pub proof fn law_options_and_results_need_their_definition(
    t: ShapeTable,
    parent: FrameView,
    child: FrameView,
    deferred: bool,
    h: HostView,
)
    requires
        match parent.tracker {
            TrackerView::Option { building_inner, .. } => building_inner && !(t.at(
                parent.allocated.shape,
            ).def is Option),
            TrackerView::Result { building_inner, .. } => building_inner && !(t.at(
                parent.allocated.shape,
            ).def is Result),
            _ => false,
        },
        child.ownership is Owned || child.ownership is TrackedBuffer || child.ownership is External
            || child.ownership is RopeSlot,
    ensures
        ({
            let a = attached(t, parent, child, deferred, h);
            &&& a.parent == parent
            &&& a.host.trace == h.trace + child.deinit_ops(t) + child.dealloc_ops(t)
            &&& a.result == Err::<(), ReflectErrorKind>(
                ReflectErrorKind::OperationFailed {
                    shape: parent.allocated.shape,
                    operation: if parent.tracker is Option {
                        "Option frame without Option definition"
                    } else {
                        "Result frame without Result definition"
                    },
                },
            )
        }),
{
}

} // verus!
