//! What becomes of frames that are set aside, and of what they are parts of.
use vstd::prelude::*;

use crate::attach::attached;
use crate::deferred::{consumed, slice_finished};
use crate::end::{parted, Parting};
use crate::error::ReflectErrorKind;
use crate::frame::{AllocatedShape, FrameOwnership, FrameView};
use crate::memory::{Addr, HostView, MemOp, PtrUninit};
use crate::partial::PartialView;
use crate::path::{PathStep, PathView};
use crate::pointer::{KnownPointer, PointerDef};
use crate::pool::{Place, Pool};
use crate::shape::{
    Def, Field, Layout, OptionDef, SetDef, ShapeLayout, ShapeTable, Type, UserType, Variant,
};
use crate::stored::{
    ascending, find, inserted, lemma_find, lemma_inserted, lemma_lower_bound, lower_bound,
    StoredView,
};
use crate::takeover::{lemma_completed_is_the_same_frame, lemma_filled_is_the_same_frame};
use crate::tracker::{DynamicObjectInsertState, DynamicValueView, MapInsertState, TrackerView};

verus! {

/// At the end of deferred mode a complete value goes into its option: once, from where it was
/// built, and then its memory is released. The option is complete then.
pub proof fn law_stored_value_goes_into_its_option(
    t: ShapeTable,
    parent: FrameView,
    child: FrameView,
    d: OptionDef,
    h: HostView,
)
    requires
        t.at(parent.allocated.shape).def == Def::Option(d),
        parent.tracker is Scalar || (parent.tracker matches TrackerView::Option {
            pending_inner,
            ..
        } && pending_inner is None),
    ensures
        ({
            let a = parent.absorbed(t, PathStep::OptionSome, child, h);
            &&& a.host.oracle == h.oracle
            &&& a.host.trace == h.trace.push(
                MemOp::InitSome { f: d.init_some, dst: parent.data.addr, src: child.data.addr },
            ) + child.dealloc_ops(t)
            &&& a.frame == (FrameView {
                tracker: TrackerView::Option { building_inner: false, pending_inner: None },
                is_init: true,
                ..parent
            })
            &&& a.frame.completed(t).result is Ok
        }),
{
    reveal(FrameView::completed);
}

/// At the end of deferred mode a pointer is made from its complete pointee as it is in strict mode:
/// the operations are the same, and so is whether the pointer is initialized.
pub proof fn law_stored_pointee_goes_into_its_pointer(
    t: ShapeTable,
    parent: FrameView,
    child: FrameView,
    p: PointerDef,
    h: HostView,
)
    requires
        t.at(parent.allocated.shape).def == Def::Pointer(p),
        parent.tracker == (TrackerView::SmartPointer { building_inner: true, pending_inner: None }),
        !parent.is_init,
        child.tracker is Scalar,
        child.is_init,
        child.ownership is Owned,
    ensures
        ({
            let a = parent.absorbed(t, PathStep::Deref, child, h);
            let strict = attached(t, parent, child, false, h);
            let made = p.vtable.new_into_fn is Some || (p.vtable.borrow_from_pointee_fn is Some
                && p.vtable.promote_to_owned_fn is Some && p.pointee == Some(child.allocated.shape)
                && t.at(child.allocated.shape).layout is Sized) || (p.pointee == Some(t.str_shape)
                && child.allocated.shape == t.string_shape && (p.known == Some(KnownPointer::Box)
                || p.known == Some(KnownPointer::Arc) || p.known == Some(KnownPointer::Rc) || p.known
                == Some(KnownPointer::Cow)));
            &&& a.host == strict.host
            &&& a.frame.is_init == strict.parent.is_init
            &&& a.frame.is_init <==> made
            &&& made ==> a.frame == (FrameView {
                tracker: TrackerView::SmartPointer { building_inner: false, pending_inner: None },
                is_init: true,
                ..parent
            })
            &&& made ==> a.frame.completed(t).result is Ok
            &&& !made ==> a.frame == parent && a.frame.completed(t).result is Err
        }),
{
    reveal(FrameView::completed);
    assert(h.trace + Seq::<MemOp>::empty() =~= h.trace);
    assert(h.plus(Seq::empty()) == h);
}

/// At the end of deferred mode a complete element goes to the end of its list, once, from where it
/// was built, and then its memory is released. An element in a slot of the rope stays there and
/// counts as finished. An element of an array is in its place already.
pub proof fn law_stored_element_goes_into_its_list(
    t: ShapeTable,
    parent: FrameView,
    child: FrameView,
    i: u32,
    h: HostView,
)
    requires
        !(parent.tracker is SmartPointerSlice),
    ensures
        ({
            let a = parent.absorbed(t, PathStep::Index(i), child, h);
            &&& a.host.oracle == h.oracle
            &&& child.ownership is RopeSlot ==> {
                &&& a.host == h
                &&& a.frame == match parent.tracker {
                    TrackerView::List { current_child, rope: Some(r) } => FrameView {
                        tracker: TrackerView::List { current_child, rope: Some(r.marked()) },
                        ..parent
                    },
                    _ => parent,
                }
            }
            &&& !(child.ownership is RopeSlot) ==> {
                &&& a.frame == parent
                &&& match t.at(parent.allocated.shape).def {
                    Def::List(d) => match d.push {
                        Some(f) => a.host.trace == h.trace.push(
                            MemOp::ListPush { f, list: parent.data.addr, item: child.data.addr },
                        ) + child.dealloc_ops(t),
                        None => !(child.ownership is Field) && !(child.ownership is BorrowedInPlace)
                            ==> a.host.trace == h.trace + (t.drop_ops(
                            child.allocated.shape,
                            child.data.addr,
                        ) + child.dealloc_ops(t)),
                    },
                    _ => child.ownership is Field ==> a.host == h,
                }
            }
        }),
{
}

/// At the end of deferred mode a complete item goes into its slice builder, once, from where it was
/// built, and then its memory is released. Nothing but items goes into a slice builder.
pub proof fn law_stored_item_goes_into_its_slice(
    t: ShapeTable,
    parent: FrameView,
    child: FrameView,
    step: PathStep,
    h: HostView,
)
    requires
        parent.tracker is SmartPointerSlice,
        !(step is Field),
        !(step is Variant),
        !(child.ownership is RopeSlot),
        !(child.ownership is BorrowedInPlace),
    ensures
        ({
            let a = parent.absorbed(t, step, child, h);
            &&& a.frame == parent
            &&& step is Index ==> a.host.trace == h.trace.push(
                MemOp::SlicePush {
                    f: parent.tracker->SmartPointerSlice_vtable.push_fn,
                    builder: parent.data.addr,
                    item: child.data.addr,
                },
            ) + child.dealloc_ops(t)
            &&& !(step is Index) ==> a.host.trace == h.trace + (t.drop_ops(
                child.allocated.shape,
                child.data.addr,
            ) + child.dealloc_ops(t))
        }),
{
}

/// At the end of deferred mode a complete key waits behind the entries of its map, and a complete
/// value with the key of its entry; no other entry changes, and nothing is done to memory.
pub proof fn law_stored_entries_wait_in_their_map(
    t: ShapeTable,
    parent: FrameView,
    child: FrameView,
    i: u32,
    h: HostView,
)
    requires
        parent.tracker is MapOf,
        i < parent.tracker->MapOf_pending_entries.len(),
    ensures
        ({
            let entries = parent.tracker->MapOf_pending_entries;
            let key = parent.absorbed(t, PathStep::MapKey(i), child, h);
            let value = parent.absorbed(t, PathStep::MapValue(i), child, h);
            &&& key.host == h && value.host == h
            &&& key.frame.tracker is MapOf && value.frame.tracker is MapOf
            &&& key.frame.tracker->MapOf_pending_entries == entries.push((child.data, None))
            &&& value.frame.tracker->MapOf_pending_entries.len() == entries.len()
            &&& forall|j: int|
                0 <= j < entries.len() && j != i
                    ==> #[trigger] value.frame.tracker->MapOf_pending_entries[j] == entries[j]
            &&& value.frame.tracker->MapOf_pending_entries[i as int] == (
                entries[i as int].0,
                Some(child.data),
            )
            &&& key.frame.tracker->MapOf_insert_state == parent.tracker->MapOf_insert_state
            &&& value.frame.tracker->MapOf_insert_state == parent.tracker->MapOf_insert_state
            &&& parent.same_frame(key.frame) && parent.same_frame(value.frame)
            &&& key.frame.is_init == parent.is_init && value.frame.is_init == parent.is_init
        }),
{
}

/// At the end of deferred mode a wrapper is converted from its complete value by its hook, and a
/// value from its proxy: by the same call as in strict mode, and with the same consequences for the
/// value and for memory. Only the error is not reported.
pub proof fn law_stored_source_is_converted(
    t: ShapeTable,
    parent: FrameView,
    child: FrameView,
    h: HostView,
)
    requires
        parent.tracker is Scalar || parent.tracker is Inner,
        !parent.is_init,
        child.tracker is Scalar,
        child.is_init,
    ensures
        t.at(parent.allocated.shape).inner == Some(child.allocated.shape) && t.at(
            parent.allocated.shape,
        ).vtable.spec_try_from() is Some ==> {
            let a = parent.absorbed(t, PathStep::Inner, child, h);
            let strict = attached(t, parent, child, false, h);
            &&& a.host == strict.host
            &&& a.frame == strict.parent
        },
        child.shape_level_proxy matches Some(proxy) ==> {
            let a = parent.absorbed(t, PathStep::Proxy, child, h);
            let strict = parent.from_proxy(t, child, proxy.convert_in, h);
            &&& a.host == strict.host
            &&& a.frame == strict.frame
        },
{
    reveal(FrameView::completed);
    assert(h.plus(Seq::empty()) =~= h);
}

/// At the end of deferred mode a value that its parent cannot take over is dropped, and its memory
/// released; the parent stays as it is. So it is where the parent is no option, no pointer or no
/// map by its definition, has no hook, or the proxy no conversion.
pub proof fn law_what_cannot_be_taken_over_is_dropped(
    t: ShapeTable,
    parent: FrameView,
    child: FrameView,
    step: PathStep,
    h: HostView,
)
    requires
        !(child.ownership is BorrowedInPlace),
        parent.tracker is Scalar || parent.tracker is Inner,
        match step {
            PathStep::OptionSome => !(t.at(parent.allocated.shape).def is Option),
            PathStep::Deref => !(t.at(parent.allocated.shape).def is Pointer),
            PathStep::Inner => t.at(parent.allocated.shape).vtable.spec_try_from() is None,
            PathStep::Proxy => child.shape_level_proxy is None,
            PathStep::MapKey(_) | PathStep::MapValue(_) => true,
            _ => false,
        },
    ensures
        ({
            let a = parent.absorbed(t, step, child, h);
            &&& a.frame == parent
            &&& a.host.oracle == h.oracle
            &&& a.host.trace == h.trace + (t.drop_ops(child.allocated.shape, child.data.addr)
                + child.dealloc_ops(t))
        }),
{
}

/// A field, and the step into a variant, are no parts that a parent takes over.
pub proof fn law_fields_are_not_taken_over(
    t: ShapeTable,
    parent: FrameView,
    child: FrameView,
    i: u32,
    h: HostView,
)
    ensures
        parent.absorbed(t, PathStep::Field(i), child, h).frame == parent,
        parent.absorbed(t, PathStep::Field(i), child, h).host == h,
        parent.absorbed(t, PathStep::Variant(i), child, h).frame == parent,
        parent.absorbed(t, PathStep::Variant(i), child, h).host == h,
{
}

/// What waits in a value is dropped before the value is made from a part as a whole.
pub proof fn law_what_waits_makes_way(
    t: ShapeTable,
    parent: FrameView,
    child: FrameView,
    step: PathStep,
    h: HostView,
)
    requires
        step is OptionSome || step is Deref || step is Inner,
        match parent.tracker {
            TrackerView::SmartPointer { pending_inner, .. } => pending_inner is Some,
            TrackerView::Option { pending_inner, .. } => pending_inner is Some,
            TrackerView::MapOf { pending_entries, .. } => pending_entries.len() > 0,
            TrackerView::List { rope, .. } => rope is Some,
            _ => false,
        },
    ensures
        ({
            let cleared = FrameView { is_init: false, tracker: TrackerView::Scalar, ..parent };
            parent.absorbed(t, step, child, h) == cleared.absorbed(
                t,
                step,
                child,
                h.plus(parent.deinit_ops(t)),
            )
        }),
{
}

/// A complete frame goes to the parent that its path names: the one set aside under the path
/// without its last step, or else the frame of the stack as deep as that path is long. No other
/// frame changes. A field is counted by its parent; any other part is taken over by it, as the last
/// step says.
pub proof fn law_complete_frame_goes_to_its_parent(
    t: ShapeTable,
    pool: Pool,
    path: PathView,
    frame: FrameView,
    h: HostView,
)
    requires
        ascending(pool.stored),
        pool.is_countable(),
        path.steps.len() > 0,
    ensures
        ({
            let c = consumed(t, pool, path, frame, h);
            let up = path.steps.drop_last();
            let step = path.steps.last();
            &&& forall|i: int|
                #![trigger pool.stored[i]]
                0 <= i < pool.stored.len() ==> {
                    let e = pool.stored[i];
                    let mine = e.path.shape == path.shape && e.path.steps == up;
                    &&& c.pool.stored.len() == pool.stored.len()
                    &&& c.pool.stored[i].path == e.path
                    &&& !mine ==> c.pool.stored[i] == e
                    &&& mine ==> match step {
                        PathStep::Field(idx) => c.pool.stored[i].frame == e.frame.with_field(
                            t,
                            idx as usize,
                        ) && c.host == h.plus(frame.dealloc_ops(t)),
                        PathStep::Variant(_) => c.pool.stored[i] == e && c.host == h.plus(
                            frame.dealloc_ops(t),
                        ),
                        _ => c.pool.stored[i].frame == e.frame.absorbed(t, step, frame, h).frame
                            && c.host == e.frame.absorbed(t, step, frame, h).host,
                    }
                    &&& mine ==> c.pool.stack == pool.stack
                }
            &&& (forall|i: int|
                #![trigger pool.stored[i]]
                0 <= i < pool.stored.len() ==> pool.stored[i].path != (PathView {
                    shape: path.shape,
                    steps: up,
                })) ==> {
                &&& c.pool.stored == pool.stored
                &&& up.len() < pool.stack.len() ==> {
                    let f = pool.stack[up.len() as int];
                    &&& c.pool.stack == pool.stack.update(
                        up.len() as int,
                        match step {
                            PathStep::Field(idx) => f.with_field(t, idx as usize),
                            PathStep::Variant(_) => f,
                            _ => f.absorbed(t, step, frame, h).frame,
                        },
                    )
                    &&& c.host == match step {
                        PathStep::Field(_) | PathStep::Variant(_) => h.plus(frame.dealloc_ops(t)),
                        _ => f.absorbed(t, step, frame, h).host,
                    }
                }
                &&& up.len() >= pool.stack.len() ==> c.pool == pool && c.host == h.plus(
                    frame.dealloc_ops(t),
                )
            }
        }),
{
    let c = consumed(t, pool, path, frame, h);
    let parent = path.parent();
    let step = path.steps.last();
    lemma_find(pool.stored, parent);
    assert(parent == PathView { shape: path.shape, steps: path.steps.drop_last() });
    let at = pool.place(parent);
    assert forall|i: int| #![trigger pool.stored[i]] 0 <= i < pool.stored.len() implies (
    pool.stored[i].path == parent <==> at == Place::Stored(i as usize)) by {}
    if at is Stack {
        let k = at->Stack_0 as int;
        if step is Variant {
            assert(pool.stack.update(k, pool.stack[k]) =~= pool.stack);
        }
    }
}

/// A struct of which nothing was tracked starts to be tracked with the field that is counted; one
/// that is tracked counts it too. Any other frame is as its tracker says.
pub proof fn law_counting_a_field_starts_tracking(f: FrameView, t: ShapeTable, idx: usize)
    ensures
        f.tracker is Scalar && (t.at(f.allocated.shape).ty matches Type::User(UserType::Struct(_)))
            ==> f.with_field(t, idx) == (FrameView {
            tracker: TrackerView::Struct {
                iset: Set::<int>::empty().insert(idx as int),
                current_child: None,
            },
            ..f
        }),
        !(f.tracker is Scalar) ==> f.with_field(t, idx) == (FrameView {
            tracker: f.tracker.with_field(idx),
            ..f
        }),
        f.without_field(idx) == (FrameView { tracker: f.tracker.without_field(idx), ..f }),
{
}

/// A frame that ends in deferred mode leaves its parent as it was, but for three things: a field is
/// counted, the parent works on no part any more, and a map asks for the value after a key and for
/// nothing after a value, a slice for another item. Nothing waits that did not wait before, and
/// nothing is done to memory. This is so unless the parent is a set or a dynamic value that asked
/// for the part, or the frame is on an entry of an existing collection.
pub proof fn law_parent_of_a_stored_frame_moves_on(
    t: ShapeTable,
    below: FrameView,
    child: FrameView,
    h: HostView,
)
    requires
        !(child.ownership is BorrowedInPlace),
        match below.tracker {
            TrackerView::SetOf { current_child } => !current_child || !below.is_init || !(t.at(
                below.allocated.shape,
            ).def is SetOf),
            TrackerView::DynamicValue { state } => match state {
                DynamicValueView::Array { building_element, .. } => !building_element,
                DynamicValueView::Object { insert_state, .. } => !(insert_state is BuildingValue),
                _ => true,
            },
            _ => true,
        },
    ensures
        ({
            let a = parted(t, below, child, h);
            let counted = match child.ownership {
                FrameOwnership::Field { field_idx } => below.with_field(t, field_idx),
                _ => below,
            };
            &&& a.parting is Stored
            &&& a.host == h
            &&& a.parent == (FrameView {
                tracker: match counted.tracker {
                    TrackerView::Struct { iset, .. } => TrackerView::Struct {
                        iset,
                        current_child: None,
                    },
                    TrackerView::Enum { variant_idx, data, .. } => TrackerView::Enum {
                        variant_idx,
                        data,
                        current_child: None,
                    },
                    TrackerView::Array { iset, .. } => TrackerView::Array {
                        iset,
                        current_child: None,
                    },
                    TrackerView::List { rope, .. } => TrackerView::List {
                        current_child: None,
                        rope,
                    },
                    TrackerView::MapOf {
                        insert_state,
                        pending_entries,
                        current_entry_index,
                        building_key,
                    } => TrackerView::MapOf {
                        insert_state: match insert_state {
                            MapInsertState::PushingKey { key_ptr } => MapInsertState::PushingValue {
                                key_ptr,
                                value_ptr: None,
                            },
                            _ => MapInsertState::Idle,
                        },
                        pending_entries,
                        current_entry_index,
                        building_key,
                    },
                    TrackerView::SmartPointerSlice { vtable, current_child, .. } =>
                        TrackerView::SmartPointerSlice {
                        vtable,
                        building_item: false,
                        current_child,
                    },
                    TrackerView::SetOf { .. } => TrackerView::SetOf { current_child: false },
                    _ => counted.tracker,
                },
                ..counted
            })
        }),
{
}

/// An element of a set that ends in deferred mode goes in at once: it gets its defaults, is
/// completed, moved into the set and released. One that is not complete is an error.
pub proof fn law_set_takes_its_element_at_once(
    t: ShapeTable,
    below: FrameView,
    child: FrameView,
    d: SetDef,
    h: HostView,
)
    requires
        child.ownership is Owned || child.ownership is TrackedBuffer,
        below.is_init,
        below.tracker == (TrackerView::SetOf { current_child: true }),
        t.at(below.allocated.shape).def == Def::SetOf(d),
    ensures
        ({
            let a = parted(t, below, child, h);
            let filled = child.filled(t);
            let done = filled.frame.completed(t);
            let complete = filled.result is Ok && done.result is Ok;
            &&& !(a.parting is Stored)
            &&& a.parting is Settled <==> complete
            &&& complete ==> {
                &&& a.host.trace == (h.trace + filled.ops + done.ops).push(
                    MemOp::SetInsert { f: d.insert, set: below.data.addr, item: child.data.addr },
                ) + child.dealloc_ops(t)
                &&& a.parent == (FrameView {
                    tracker: TrackerView::SetOf { current_child: false },
                    ..below
                })
            }
            &&& !complete ==> a.parent == below
            &&& filled.result matches Err(e) ==> {
                &&& a.parting == Parting::Failed(e)
                &&& a.host.trace == h.trace + filled.ops + filled.frame.deinit_ops(t)
                    + filled.frame.dealloc_ops(t)
            }
            &&& filled.result is Ok ==> (done.result matches Err(e) ==> {
                &&& a.parting == Parting::Failed(e)
                &&& a.host.trace == h.trace + filled.ops + done.ops + done.frame.deinit_ops(t)
                    + done.frame.dealloc_ops(t)
            })
        }),
{
    lemma_filled_is_the_same_frame(child, t);
    lemma_completed_is_the_same_frame(child.filled(t).frame, t);
}

/// A finished part of a dynamic value that ends in deferred mode waits behind those that wait
/// already, under the key that it was begun with where it has one. One that is not complete is an
/// error.
pub proof fn law_dynamic_value_keeps_its_part(
    t: ShapeTable,
    below: FrameView,
    child: FrameView,
    h: HostView,
)
    requires
        child.ownership is Owned || child.ownership is TrackedBuffer,
        below.tracker matches TrackerView::DynamicValue { state } && match state {
            DynamicValueView::Array { building_element, .. } => building_element,
            DynamicValueView::Object { insert_state, .. } => insert_state is BuildingValue,
            _ => false,
        },
    ensures
        ({
            let a = parted(t, below, child, h);
            let done = child.completed(t);
            &&& a.parting is Settled <==> done.result is Ok
            &&& done.result matches Err(e) ==> {
                &&& a.parting == Parting::Failed(e)
                &&& a.parent == below
                &&& a.host.trace == h.trace + done.ops + done.frame.deinit_ops(t)
                    + done.frame.dealloc_ops(t)
            }
            &&& done.result is Ok ==> {
                &&& a.host.trace == h.trace + done.ops
                &&& a.parent == (FrameView {
                    tracker: TrackerView::DynamicValue {
                        state: match below.tracker->DynamicValue_state {
                            DynamicValueView::Array { pending_elements, .. } => DynamicValueView::Array {
                                building_element: false,
                                pending_elements: pending_elements.push(child.data),
                            },
                            DynamicValueView::Object { insert_state, pending_entries } =>
                                DynamicValueView::Object {
                                insert_state: DynamicObjectInsertState::Idle,
                                pending_entries: pending_entries.push(
                                    (insert_state->BuildingValue_key, child.data),
                                ),
                            },
                            other => other,
                        },
                    },
                    ..below
                })
            }
        }),
{
}

/// A frame on an entry of an existing collection is completed where it is, and is not set aside.
/// One that is not complete is an error.
pub proof fn law_borrowed_entry_is_not_set_aside(
    t: ShapeTable,
    below: FrameView,
    child: FrameView,
    h: HostView,
)
    requires
        child.ownership is BorrowedInPlace,
    ensures
        ({
            let a = parted(t, below, child, h);
            let done = child.completed(t);
            &&& a.parent == below
            &&& done.result is Ok ==> a.parting is Settled && a.host.trace == h.trace + done.ops
            &&& done.result matches Err(e) ==> a.parting == Parting::Failed(e) && a.host.trace == h.trace
                + done.ops + done.frame.deinit_ops(t) + done.frame.dealloc_ops(t)
        }),
{
}

/// A frame that ends in deferred mode is set aside under the path that leads to it, and is found
/// there, as it is. Frames set aside under other paths stay where they are. One that was set aside
/// under the same path before makes way: it is dropped and released if it owns its memory, and else
/// only what waits in it is.
pub proof fn law_frame_is_set_aside_under_its_path(
    t: ShapeTable,
    pool: Pool,
    path: PathView,
    child: FrameView,
    other: PathView,
    h: HostView,
)
    requires
        ascending(pool.stored),
        pool.stack.len() > 0,
        parted(t, pool.stack.last(), child, h).parting is Stored,
        other != path,
    ensures
        ({
            let o = pool.set_aside(t, path, child, h);
            let a = parted(t, pool.stack.last(), child, h);
            &&& o.result is Ok
            &&& o.pool.stack == pool.stack.update(pool.stack.len() - 1, a.parent)
            &&& exists|i: int|
                0 <= i < o.pool.stored.len() && #[trigger] o.pool.stored[i] == (StoredView {
                    path,
                    frame: child,
                })
            &&& forall|f: FrameView| #[trigger]
                pool.stored.contains(StoredView { path: other, frame: f })
                    <==> o.pool.stored.contains(StoredView { path: other, frame: f })
            &&& ascending(o.pool.stored)
            &&& match find(pool.stored, path) {
                None => o.host == a.host,
                Some(i) => {
                    let old_frame = pool.stored[i].frame;
                    o.host.trace == a.host.trace + (if old_frame.ownership is Owned
                        || old_frame.ownership is TrackedBuffer {
                        old_frame.deinit_ops(t) + old_frame.dealloc_ops(t)
                    } else {
                        old_frame.drop_waiting_ops(t)
                    })
                },
            }
        }),
{
    let s = pool.stored;
    let o = pool.set_aside(t, path, child, h);
    lemma_inserted(s, path, child);
    lemma_lower_bound(s, path, 0);
    let b = lower_bound(s, path, 0) as int;
    let r = o.pool.stored;
    assert(r == inserted(s, path, child));
    assert(r[b] == StoredView { path, frame: child });
    assert forall|f: FrameView| #[trigger]
        s.contains(StoredView { path: other, frame: f }) <==> r.contains(
            StoredView { path: other, frame: f },
        ) by {
        let x = StoredView { path: other, frame: f };
        let replaced = b < s.len() && s[b].path == path;
        if s.contains(x) {
            let k = choose|k: int| 0 <= k < s.len() && s[k] == x;
            let j = if replaced || k < b { k } else { k + 1 };
            assert(r[j] == x);
        }
        if r.contains(x) {
            let k = choose|k: int| 0 <= k < r.len() && r[k] == x;
            let j = if replaced || k < b { k } else { k - 1 };
            assert(s[j] == x);
        }
    }
}

/// A frame that its parent dealt with is not set aside: the stored frames stay as they are, and
/// what went wrong is the error.
pub proof fn law_settled_frame_is_not_set_aside(
    t: ShapeTable,
    pool: Pool,
    path: PathView,
    child: FrameView,
    h: HostView,
)
    requires
        pool.stack.len() > 0,
        !(parted(t, pool.stack.last(), child, h).parting is Stored),
    ensures
        ({
            let o = pool.set_aside(t, path, child, h);
            let a = parted(t, pool.stack.last(), child, h);
            &&& o.pool.stored == pool.stored
            &&& o.pool.stack == pool.stack.update(pool.stack.len() - 1, a.parent)
            &&& o.host == a.host
            &&& o.result is Ok <==> a.parting is Settled
            &&& a.parting matches Parting::Failed(kind) ==> o.result == Err::<(), ReflectErrorKind>(
                kind,
            )
        }),
{
}

/// When the items of a slice end, the builder is turned into a pointer, once. In strict mode it
/// goes where it belongs: into the field of the struct below, at the field's own place, from where
/// it was made, whose memory is released; or it stays where it was made, as the memory of a frame
/// that owns it. The frame is initialized then, and the next buffer gets another number. In
/// deferred mode the builder stays as it is.
pub proof fn law_slice_becomes_a_pointer(
    p: PartialView,
    t: ShapeTable,
    layout: Layout,
    h: HostView,
)
    requires
        p.stack.len() > 0,
        p.top().tracker matches TrackerView::SmartPointerSlice { building_item, .. }
            && !building_item,
        t.at(p.top().allocated.shape).layout == ShapeLayout::Sized(layout),
        p.next_buffer < u64::MAX,
    ensures
        ({
            let o = p.slice_ended(t, h);
            let f = p.top();
            let n = p.stack.len() as int;
            let convert = MemOp::SliceConvert {
                f: f.tracker->SmartPointerSlice_vtable.convert_fn,
                builder: f.data.addr,
                buf: p.next_buffer,
            };
            let made = Addr { buf: p.next_buffer, offset: 0 };
            let done = |data: Addr, size: usize|
                FrameView {
                    data: PtrUninit { addr: data },
                    allocated: AllocatedShape {
                        shape: f.allocated.shape,
                        allocated_size: size,
                    },
                    tracker: TrackerView::Scalar,
                    is_init: true,
                    ..f
                };
            &&& p.deferred is Some ==> {
                &&& o.result is Ok
                &&& o.host == h
                &&& o.partial.next_buffer == p.next_buffer
                &&& o.partial.top() == (FrameView {
                    tracker: TrackerView::SmartPointerSlice {
                        vtable: f.tracker->SmartPointerSlice_vtable,
                        building_item: true,
                        current_child: f.tracker->SmartPointerSlice_current_child,
                    },
                    ..f
                })
            }
            &&& p.deferred is None && f.ownership is Owned ==> {
                &&& o.result is Ok
                &&& o.host.trace == h.trace.push(convert)
                &&& o.partial.next_buffer == p.next_buffer + 1
                &&& o.partial.stack == p.stack.update(n - 1, done(made, layout.size))
            }
            &&& p.deferred is None && n >= 2 ==> (f.ownership matches FrameOwnership::Field {
                field_idx,
            } ==> match t.at(p.stack[n - 2].allocated.shape).ty {
                Type::User(UserType::Struct(st)) => {
                    let dst = p.stack[n - 2].data.addr.field(st.fields@[field_idx as int].offset);
                    &&& o.result is Ok
                    &&& o.host.trace == h.trace.push(convert).push(
                        MemOp::Copy { src: made, dst, size: layout.size },
                    ).push(MemOp::Dealloc { at: made, layout })
                    &&& o.partial.next_buffer == p.next_buffer + 1
                    &&& o.partial.stack == p.stack.update(
                        n - 1,
                        done(dst, f.allocated.allocated_size),
                    )
                },
                _ => o.result is Err && o.host == h && o.partial == p,
            })
            &&& o.partial.deferred == p.deferred
            &&& o.partial.stack.len() == n
        }),
{
}

/// A slice that was set aside becomes a pointer at the end of deferred mode: the builder is turned
/// into one, once, which goes into the field of the struct that its path names, or into memory of
/// its own, from where it was made, whose memory is released. The frame is initialized then. Any
/// other frame is left alone.
pub proof fn law_stored_slice_becomes_a_pointer(
    t: ShapeTable,
    pool: Pool,
    path: PathView,
    frame: FrameView,
    layout: Layout,
    h: HostView,
    next_buffer: u64,
)
    requires
        t.at(frame.allocated.shape).layout == ShapeLayout::Sized(layout),
        next_buffer < u64::MAX - 1,
    ensures
        ({
            let a = slice_finished(t, pool, path, frame, h, next_buffer);
            let made = Addr { buf: next_buffer, offset: 0 };
            let own = Addr { buf: (next_buffer + 1) as u64, offset: 0 };
            let convert = MemOp::SliceConvert {
                f: frame.tracker->SmartPointerSlice_vtable.convert_fn,
                builder: frame.data.addr,
                buf: next_buffer,
            };
            &&& !(frame.tracker is SmartPointerSlice) ==> {
                &&& a.result is Ok
                &&& a.frame == frame
                &&& a.host == h
                &&& a.next_buffer == next_buffer
            }
            &&& frame.tracker is SmartPointerSlice && frame.ownership is Owned ==> {
                &&& a.result is Ok
                &&& a.host.trace == h.trace.push(convert) + (if layout.size > 0 {
                    seq![MemOp::Alloc { buf: (next_buffer + 1) as u64, layout }]
                } else {
                    Seq::empty()
                }) + seq![
                    MemOp::Copy { src: made, dst: own, size: layout.size },
                    MemOp::Dealloc { at: made, layout },
                ]
                &&& a.next_buffer == next_buffer + 2
                &&& a.frame == (FrameView {
                    data: PtrUninit { addr: own },
                    allocated: AllocatedShape {
                        shape: frame.allocated.shape,
                        allocated_size: layout.size,
                    },
                    tracker: TrackerView::Scalar,
                    is_init: true,
                    ..frame
                })
            }
            &&& frame.tracker is SmartPointerSlice ==> (frame.ownership matches FrameOwnership::Field {
                field_idx,
            } ==> match pool.frame_at(path.parent()) {
                Some(parent) => match t.at(parent.allocated.shape).ty {
                    Type::User(UserType::Struct(st)) => {
                        let dst = parent.data.addr.field(st.fields@[field_idx as int].offset);
                        &&& a.result is Ok
                        &&& a.host.trace == h.trace.push(convert).push(
                            MemOp::Copy { src: made, dst, size: layout.size },
                        ).push(MemOp::Dealloc { at: made, layout })
                        &&& a.next_buffer == next_buffer + 1
                        &&& a.frame == (FrameView {
                            data: PtrUninit { addr: dst },
                            tracker: TrackerView::Scalar,
                            is_init: true,
                            ..frame
                        })
                    },
                    _ => a.result is Err,
                },
                None => a.result is Err,
            })
        }),
{
    let a = slice_finished(t, pool, path, frame, h, next_buffer);
    if frame.tracker is SmartPointerSlice && frame.ownership is Owned {
        let made = Addr { buf: next_buffer, offset: 0 };
        let own = Addr { buf: (next_buffer + 1) as u64, offset: 0 };
        let convert = MemOp::SliceConvert {
            f: frame.tracker->SmartPointerSlice_vtable.convert_fn,
            builder: frame.data.addr,
            buf: next_buffer,
        };
        assert(a.host.trace =~= h.trace.push(convert) + (if layout.size > 0 {
            seq![MemOp::Alloc { buf: (next_buffer + 1) as u64, layout }]
        } else {
            Seq::empty()
        }) + seq![
            MemOp::Copy { src: made, dst: own, size: layout.size },
            MemOp::Dealloc { at: made, layout },
        ]);
    }
}

/// A slice that was set aside and has no place at the end of deferred mode is an error, which names
/// its type. The pointer that the builder was turned into is dropped.
pub proof fn law_stored_slice_without_a_place_is_dropped(
    t: ShapeTable,
    pool: Pool,
    path: PathView,
    frame: FrameView,
    layout: Layout,
    h: HostView,
    next_buffer: u64,
)
    requires
        frame.tracker is SmartPointerSlice,
        t.at(frame.allocated.shape).layout == ShapeLayout::Sized(layout),
        frame.ownership is External || frame.ownership is RopeSlot || frame.ownership is TrackedBuffer
            || frame.ownership is BorrowedInPlace,
    ensures
        ({
            let a = slice_finished(t, pool, path, frame, h, next_buffer);
            let made = Addr { buf: next_buffer, offset: 0 };
            let dropped = h.trace.push(
                MemOp::SliceConvert {
                    f: frame.tracker->SmartPointerSlice_vtable.convert_fn,
                    builder: frame.data.addr,
                    buf: next_buffer,
                },
            ) + t.drop_ops(frame.allocated.shape, made);
            &&& a.result == Err::<(), ReflectErrorKind>(
                ReflectErrorKind::UninitializedValue { shape: frame.allocated.shape },
            )
            &&& !a.frame.is_init
            &&& a.frame.tracker is Scalar
            &&& frame.ownership is TrackedBuffer ==> {
                &&& a.host.trace == dropped
                &&& a.frame.data.addr == made
                &&& a.frame.allocated.allocated_size == layout.size
            }
            &&& !(frame.ownership is TrackedBuffer) ==> a.host.trace == dropped.push(
                MemOp::Dealloc { at: made, layout },
            )
        }),
{
}

} // verus!
