//! Completing a frame: defaults for what was left out, moving what waits into its final place,
//! and telling what is still missing.
use vstd::prelude::*;

use crate::error::ReflectErrorKind;
use crate::frame::{drop_slots, drop_slots_ops, Frame, FrameView, PendingSmartPointerInner};
use crate::iset::{first_missing, has_all};
use crate::memory::{Addr, FnRef, Host, MemOp, PtrUninit};
use crate::pointer::{KnownPointer, PointerDef};
use crate::rope::{ListRope, RopeView};
use crate::shape::{
    Def, DynamicDef, Field, ListDef, MapDef, OptionDef, SequenceType, ShapeRef, ShapeTable, Type,
};
use crate::tracker::{
    DynamicObjectInsertState, DynamicValueState, DynamicValueView, MapInsertState, Tracker,
    TrackerView,
};

verus! {

/// What a hook-free step does to memory, and whether it succeeds.
#[verifier::ext_equal]
pub struct Outcome {
    pub ops: Seq<MemOp>,
    pub result: Result<(), ReflectErrorKind>,
}

/// What a hook-free step makes of a frame.
#[verifier::ext_equal]
pub struct FrameOutcome {
    pub frame: FrameView,
    pub ops: Seq<MemOp>,
    pub result: Result<(), ReflectErrorKind>,
}

/// Operations that reserve room for `count` items and push the first `n` slots.
pub open spec fn push_slots_ops(
    d: ListDef,
    push: FnRef,
    list: Addr,
    slots: Seq<PtrUninit>,
    count: usize,
    n: nat,
) -> Seq<MemOp>
    decreases n,
{
    if n == 0 {
        match d.reserve {
            Some(f) => seq![MemOp::ListReserve { f, list, additional: count }],
            None => Seq::empty(),
        }
    } else {
        push_slots_ops(d, push, list, slots, count, (n - 1) as nat).push(
            MemOp::ListPush { f: push, list, item: slots[n - 1].addr },
        )
    }
}

/// Moving the finished elements of a rope into a list, and releasing the rope. Elements that the
/// list cannot take are dropped.
pub open spec fn rope_drain(t: ShapeTable, d: ListDef, list: Addr, rope: RopeView) -> Outcome {
    let free = MemOp::FreeRope { rope: rope.id };
    if rope.initialized == 0 {
        Outcome { ops: seq![free], result: Ok(()) }
    } else {
        match d.push {
            Some(push) => Outcome {
                ops: push_slots_ops(
                    d,
                    push,
                    list,
                    rope.slots,
                    rope.initialized,
                    rope.initialized as nat,
                ).push(free),
                result: Ok(()),
            },
            None => Outcome {
                ops: drop_slots_ops(t, d.t, rope.slots, rope.initialized as nat).push(free),
                result: Err(
                    ReflectErrorKind::OperationFailed {
                        shape: d.t,
                        operation: "List missing push function for rope drain",
                    },
                ),
            },
        }
    }
}

/// Operations that move the first `n` entries into a map and release their buffers.
pub open spec fn insert_entries_ops(
    t: ShapeTable,
    d: MapDef,
    map: Addr,
    entries: Seq<(PtrUninit, Option<PtrUninit>)>,
    n: nat,
) -> Seq<MemOp>
    decreases n,
{
    if n == 0 {
        Seq::empty()
    } else {
        let key = entries[n - 1].0.addr;
        let value = entries[n - 1].1->0.addr;
        insert_entries_ops(t, d, map, entries, (n - 1) as nat).push(
            MemOp::MapInsert { f: d.insert, map, key, value },
        ) + t.dealloc_ops(d.k, key) + t.dealloc_ops(d.v, value)
    }
}

/// How many of the first `n` entries come before the first key without a value.
pub open spec fn full_entries(entries: Seq<(PtrUninit, Option<PtrUninit>)>, n: nat) -> nat
    decreases n,
{
    if n == 0 {
        0
    } else {
        let p = full_entries(entries, (n - 1) as nat);
        if p == n - 1 && entries[n - 1].1 is Some {
            n
        } else {
            p
        }
    }
}

/// Moving all entries into a map: a key without a value stops it, and waits on with all that
/// follow.
pub open spec fn map_drain(
    t: ShapeTable,
    d: MapDef,
    map: Addr,
    entries: Seq<(PtrUninit, Option<PtrUninit>)>,
) -> Outcome {
    let n = full_entries(entries, entries.len());
    Outcome {
        ops: insert_entries_ops(t, d, map, entries, n),
        result: if n == entries.len() {
            Ok(())
        } else {
            Err(
                ReflectErrorKind::InvariantViolation {
                    invariant: "map pending_entries contains half-entry (key without value) at finalize",
                },
            )
        },
    }
}

/// Operations that move a value into an option and release its buffer.
pub open spec fn init_some_ops(t: ShapeTable, d: OptionDef, option: Addr, inner: Addr) -> Seq<
    MemOp,
> {
    seq![MemOp::InitSome { f: d.init_some, dst: option, src: inner }] + t.dealloc_ops(d.t, inner)
}

/// Operations that move the first `n` elements into a dynamic array and release their buffers.
pub open spec fn push_elements_ops(
    t: ShapeTable,
    d: DynamicDef,
    shape: ShapeRef,
    array: Addr,
    elements: Seq<PtrUninit>,
    n: nat,
) -> Seq<MemOp>
    decreases n,
{
    if n == 0 {
        Seq::empty()
    } else {
        let item = elements[n - 1].addr;
        push_elements_ops(t, d, shape, array, elements, (n - 1) as nat).push(
            MemOp::PushElement { f: d.push_array_element, array, item },
        ) + t.dealloc_ops(shape, item)
    }
}

/// Operations that move the first `n` entries into a dynamic object and release their buffers.
pub open spec fn insert_object_ops(
    t: ShapeTable,
    d: DynamicDef,
    shape: ShapeRef,
    object: Addr,
    entries: Seq<(String, PtrUninit)>,
    n: nat,
) -> Seq<MemOp>
    decreases n,
{
    if n == 0 {
        Seq::empty()
    } else {
        let (key, value) = entries[n - 1];
        insert_object_ops(t, d, shape, object, entries, (n - 1) as nat).push(
            MemOp::InsertEntry { f: d.insert_object_entry, object, key, value: value.addr },
        ) + t.dealloc_ops(shape, value.addr)
    }
}

/// A pointer can be written by borrowing a pointee of this shape and then making it owned.
pub open spec fn can_borrow_and_promote(t: ShapeTable, p: PointerDef, inner: ShapeRef) -> bool {
    &&& p.vtable.borrow_from_pointee_fn is Some
    &&& p.vtable.promote_to_owned_fn is Some
    &&& p.pointee == Some(inner)
    &&& t.sized(inner) is Some
}

/// Operations that borrow a pointee and make the pointer own it. The pointee stays as it is.
pub open spec fn borrow_and_promote_ops(p: PointerDef, dst: Addr, inner: Addr) -> Seq<MemOp> {
    seq![
        MemOp::BorrowFromPointee { f: p.vtable.borrow_from_pointee_fn->0, dst, pointee: inner },
    ].push(MemOp::PromoteToOwned { f: p.vtable.promote_to_owned_fn->0, at: dst })
}

/// The pointers to `str` that are built from a `String`.
pub open spec fn takes_string(k: KnownPointer) -> bool {
    k is Box || k is Arc || k is Rc || k is Cow
}

/// Moving a finished value into a smart pointer.
///
/// A pointer that can take over a value of its pointee's type does so. One that can only borrow
/// is made to own a clone, and the value is dropped. A pointer to `str` is made from a
/// `String`. Otherwise the value is dropped and the pointer is not built. Whatever happens, the
/// value is used up and its memory released.
pub open spec fn pointer_completion(
    t: ShapeTable,
    shape: ShapeRef,
    p: PointerDef,
    dst: Addr,
    pending: PendingSmartPointerInner,
) -> Outcome {
    let inner = pending.allocated.shape;
    let src = pending.data.addr;
    if p.vtable.new_into_fn is Some && p.pointee == Some(inner) {
        Outcome {
            ops: seq![MemOp::NewInto { f: p.vtable.new_into_fn->0, dst, src }] + pending.moved_ops(t),
            result: Ok(()),
        }
    } else if can_borrow_and_promote(t, p, inner) {
        Outcome {
            ops: borrow_and_promote_ops(p, dst, src) + pending.discard_ops(t),
            result: Ok(()),
        }
    } else if p.pointee == Some(t.str_shape) && inner == t.string_shape {
        match p.known {
            Some(kind) => if takes_string(kind) {
                Outcome {
                    ops: seq![MemOp::StringInto { kind, dst, src }] + pending.moved_ops(t),
                    result: Ok(()),
                }
            } else {
                Outcome {
                    ops: pending.discard_ops(t),
                    result: Err(
                        ReflectErrorKind::OperationFailed {
                            shape,
                            operation: "Unsupported SmartPointer<str> type",
                        },
                    ),
                }
            },
            None => Outcome {
                ops: pending.discard_ops(t),
                result: Err(
                    ReflectErrorKind::OperationFailed {
                        shape,
                        operation: "SmartPointer<str> missing known pointer type",
                    },
                ),
            },
        }
    } else {
        Outcome {
            ops: pending.discard_ops(t),
            result: Err(
                ReflectErrorKind::OperationFailed {
                    shape,
                    operation: "SmartPointer missing an owned construction capability and not a supported unsized type",
                },
            ),
        }
    }
}

impl FrameView {
    /// The frame's value is incomplete.
    pub open spec fn uninitialized(self) -> ReflectErrorKind {
        ReflectErrorKind::UninitializedValue { shape: self.shape() }
    }

    /// Nothing is done, and success depends on `ok`.
    pub open spec fn complete_if(self, ok: bool) -> FrameOutcome {
        FrameOutcome {
            frame: self,
            ops: Seq::empty(),
            result: if ok {
                Ok(())
            } else {
                Err(self.uninitialized())
            },
        }
    }

    /// All of these fields are initialized, or the first that is not is named.
    pub open spec fn complete_fields(self, fields: Seq<Field>, iset: Set<int>) -> FrameOutcome {
        FrameOutcome {
            frame: self,
            ops: Seq::empty(),
            result: match first_missing(iset, fields.len()) {
                None => Ok(()),
                Some(i) => Err(
                    ReflectErrorKind::UninitializedField {
                        shape: self.shape(),
                        field_name: fields[i].name,
                    },
                ),
            },
        }
    }

    /// The frame after an attempt to complete it: whatever waited was moved into its place.
    #[verifier::opaque]
    pub open spec fn completed(self, t: ShapeTable) -> FrameOutcome {
        match self.tracker {
            TrackerView::Scalar => self.complete_if(self.is_init),
            TrackerView::Array { iset, .. } => match t.at(self.shape()).ty {
                Type::Sequence(SequenceType::Array(a)) => self.complete_if(
                    has_all(iset, a.n as int),
                ),
                _ => self.complete_if(false),
            },
            TrackerView::Struct { iset, .. } => if t.is_struct(self.shape()) {
                self.complete_fields(t.struct_fields(self.shape()), iset)
            } else {
                self.complete_if(false)
            },
            TrackerView::Enum { variant_idx, data, .. } => self.complete_fields(
                t.variant_fields(self.shape(), variant_idx),
                data,
            ),
            TrackerView::SmartPointer { building_inner, pending_inner } => if building_inner {
                self.complete_if(false)
            } else {
                match pending_inner {
                    Some(pending) => {
                        let done = match t.at(self.shape()).def {
                            Def::Pointer(p) => pointer_completion(
                                t,
                                self.shape(),
                                p,
                                self.data.addr,
                                pending,
                            ),
                            _ => Outcome {
                                ops: pending.discard_ops(t),
                                result: Err(
                                    ReflectErrorKind::OperationFailed {
                                        shape: self.shape(),
                                        operation: "SmartPointer frame without SmartPointer definition",
                                    },
                                ),
                            },
                        };
                        FrameOutcome {
                            frame: FrameView {
                                is_init: done.result is Ok,
                                tracker: TrackerView::SmartPointer {
                                    building_inner,
                                    pending_inner: None,
                                },
                                ..self
                            },
                            ops: done.ops,
                            result: done.result,
                        }
                    },
                    None => self.complete_if(self.is_init),
                }
            },
            TrackerView::SmartPointerSlice { building_item, .. } => self.complete_if(
                !building_item,
            ),
            TrackerView::List { current_child, rope } => if self.is_init && current_child is None {
                match rope {
                    Some(r) => {
                        let done = match t.at(self.shape()).def {
                            Def::List(d) => rope_drain(t, d, self.data.addr, r),
                            _ => Outcome {
                                ops: seq![MemOp::FreeRope { rope: r.id }],
                                result: Ok(()),
                            },
                        };
                        FrameOutcome {
                            frame: FrameView {
                                tracker: TrackerView::List { current_child, rope: None },
                                ..self
                            },
                            ops: done.ops,
                            result: done.result,
                        }
                    },
                    None => self.complete_if(true),
                }
            } else {
                self.complete_if(false)
            },
            TrackerView::MapOf {
                insert_state,
                pending_entries,
                current_entry_index,
                building_key,
            } => if self.is_init && insert_state is Idle {
                match t.at(self.shape()).def {
                    Def::MapOf(d) => {
                        let done = map_drain(t, d, self.data.addr, pending_entries);
                        FrameOutcome {
                            frame: FrameView {
                                tracker: TrackerView::MapOf {
                                    insert_state,
                                    pending_entries: pending_entries.skip(
                                        full_entries(pending_entries, pending_entries.len()) as int,
                                    ),
                                    current_entry_index,
                                    building_key,
                                },
                                ..self
                            },
                            ops: done.ops,
                            result: done.result,
                        }
                    },
                    _ => self.complete_if(true),
                }
            } else {
                self.complete_if(false)
            },
            TrackerView::SetOf { current_child } => self.complete_if(
                self.is_init && !current_child,
            ),
            TrackerView::Option { building_inner, pending_inner } => if building_inner {
                self.complete_if(false)
            } else {
                FrameOutcome {
                    frame: FrameView {
                        tracker: TrackerView::Option { building_inner, pending_inner: None },
                        ..self
                    },
                    ops: match (pending_inner, t.at(self.shape()).def) {
                        (Some(inner), Def::Option(d)) => init_some_ops(
                            t,
                            d,
                            self.data.addr,
                            inner.addr,
                        ),
                        _ => Seq::empty(),
                    },
                    result: Ok(()),
                }
            },
            TrackerView::Result { building_inner, .. } => self.complete_if(!building_inner),
            TrackerView::Inner { building_inner } => self.complete_if(
                !building_inner && self.is_init,
            ),
            TrackerView::DynamicValue { state } => match state {
                DynamicValueView::Uninit => self.complete_if(false),
                DynamicValueView::Scalar => self.complete_if(true),
                DynamicValueView::Object { insert_state, pending_entries } => if insert_state
                    !is Idle {
                    self.complete_if(false)
                } else {
                    match t.at(self.shape()).def {
                        Def::DynamicValue(d) => FrameOutcome {
                            frame: FrameView {
                                tracker: TrackerView::DynamicValue {
                                    state: DynamicValueView::Object {
                                        insert_state,
                                        pending_entries: Seq::empty(),
                                    },
                                },
                                ..self
                            },
                            ops: insert_object_ops(
                                t,
                                d,
                                self.shape(),
                                self.data.addr,
                                pending_entries,
                                pending_entries.len(),
                            ),
                            result: Ok(()),
                        },
                        _ => self.complete_if(true),
                    }
                },
                DynamicValueView::Array { building_element, pending_elements } => if building_element {
                    self.complete_if(false)
                } else {
                    match t.at(self.shape()).def {
                        Def::DynamicValue(d) => FrameOutcome {
                            frame: FrameView {
                                tracker: TrackerView::DynamicValue {
                                    state: DynamicValueView::Array {
                                        building_element,
                                        pending_elements: Seq::empty(),
                                    },
                                },
                                ..self
                            },
                            ops: push_elements_ops(
                                t,
                                d,
                                self.shape(),
                                self.data.addr,
                                pending_elements,
                                pending_elements.len(),
                            ),
                            result: Ok(()),
                        },
                        _ => self.complete_if(true),
                    }
                },
            },
        }
    }
}

impl Frame {
    /// Moves the finished elements of a rope into a list, and releases the rope.
    pub fn drain_rope_into_vec<H: Host>(
        t: &ShapeTable,
        rope: ListRope,
        list_def: &ListDef,
        list_data: PtrUninit,
        host: &mut H,
    ) -> (r: Result<(), ReflectErrorKind>)
        requires
            t.has(list_def.t),
            rope@.wf(),
        ensures
            final(host).view() == old(host).view().plus(
                rope_drain(*t, *list_def, list_data.addr, rope@).ops,
            ),
            r == rope_drain(*t, *list_def, list_data.addr, rope@).result,
    {
        let count: usize = rope.initialized_count();
        if count == 0 {
            rope.free(host);
            return Ok(());
        }
        let push = match list_def.push {
            Some(f) => f,
            None => {
                drop_slots(t, list_def.t, &rope.slots, count, host);
                rope.free(host);
                return Err(
                    ReflectErrorKind::OperationFailed {
                        shape: list_def.t,
                        operation: "List missing push function for rope drain",
                    },
                );
            },
        };
        if let Some(f) = list_def.reserve {
            host.act(MemOp::ListReserve { f, list: list_data.addr, additional: count });
        }
        let mut idx: usize = 0;
        while idx < count
            invariant
                idx <= count <= rope@.slots.len(),
                host.view() == old(host).view().plus(
                    push_slots_ops(
                        *list_def,
                        push,
                        list_data.addr,
                        rope@.slots,
                        count,
                        idx as nat,
                    ),
                ),
            decreases count - idx,
        {
            host.act(
                MemOp::ListPush { f: push, list: list_data.addr, item: rope.slots[idx].addr },
            );
            idx = idx + 1;
        }
        rope.free(host);
        Ok(())
    }

    /// Moves waiting entries into a map, and releases their buffers. A key without a value and the
    /// entries after it wait on.
    pub fn drain_pending_into_map<H: Host>(
        t: &ShapeTable,
        pending_entries: &mut Vec<(PtrUninit, Option<PtrUninit>)>,
        map_def: &MapDef,
        map_data: PtrUninit,
        host: &mut H,
    ) -> (r: Result<(), ReflectErrorKind>)
        requires
            t.has(map_def.k),
            t.has(map_def.v),
        ensures
            final(pending_entries)@ == old(pending_entries)@.skip(
                full_entries(old(pending_entries)@, old(pending_entries)@.len()) as int,
            ),
            final(host).view() == old(host).view().plus(
                map_drain(*t, *map_def, map_data.addr, old(pending_entries)@).ops,
            ),
            r == map_drain(*t, *map_def, map_data.addr, old(pending_entries)@).result,
    {
        let ghost entries = pending_entries@;
        let mut idx: usize = 0;
        while idx < pending_entries.len()
            invariant
                idx <= entries.len(),
                pending_entries@ == entries,
                entries == old(pending_entries)@,
                t.has(map_def.k),
                t.has(map_def.v),
                full_entries(entries, idx as nat) == idx,
                host.view() == old(host).view().plus(
                    insert_entries_ops(*t, *map_def, map_data.addr, entries, idx as nat),
                ),
            decreases entries.len() - idx,
        {
            let (key, value) = pending_entries[idx];
            let value = match value {
                Some(v) => v,
                None => {
                    proof {
                        lemma_full_entries_stop(entries, idx as nat, entries.len());
                    }
                    let rest = pending_entries.split_off(idx);
                    *pending_entries = rest;
                    assert(pending_entries@ =~= entries.skip(idx as int));
                    return Err(
                        ReflectErrorKind::InvariantViolation {
                            invariant: "map pending_entries contains half-entry (key without value) at finalize",
                        },
                    );
                },
            };
            host.act(
                MemOp::MapInsert {
                    f: map_def.insert,
                    map: map_data.addr,
                    key: key.addr,
                    value: value.addr,
                },
            );
            t.dealloc_shape(map_def.k, key.addr, host);
            t.dealloc_shape(map_def.v, value.addr, host);
            idx = idx + 1;
        }
        pending_entries.clear();
        assert(pending_entries@ =~= entries.skip(entries.len() as int));
        Ok(())
    }

    /// Moves a waiting value into an option, and releases its buffer.
    pub fn complete_pending_option<H: Host>(
        t: &ShapeTable,
        option_def: OptionDef,
        option_data: PtrUninit,
        inner_ptr: PtrUninit,
        host: &mut H,
    ) -> (r: Result<(), ReflectErrorKind>)
        requires
            t.has(option_def.t),
        ensures
            r == Ok::<(), ReflectErrorKind>(()),
            final(host).view() == old(host).view().plus(
                init_some_ops(*t, option_def, option_data.addr, inner_ptr.addr),
            ),
    {
        host.act(
            MemOp::InitSome {
                f: option_def.init_some,
                dst: option_data.addr,
                src: inner_ptr.addr,
            },
        );
        t.dealloc_shape(option_def.t, inner_ptr.addr, host);
        Ok(())
    }

    /// Writes a pointer by borrowing a pointee of the matching, sized type and making the
    /// pointer own it. Tells whether the pointer can be written this way.
    ///
    /// The pointee is still there afterwards, and still the caller's to dispose of.
    pub fn try_borrow_and_promote_smart_pointer<H: Host>(
        t: &ShapeTable,
        smart_ptr_def: PointerDef,
        smart_ptr_data: PtrUninit,
        inner_shape: ShapeRef,
        inner_data: PtrUninit,
        host: &mut H,
    ) -> (r: bool)
        requires
            t.has(inner_shape),
        ensures
            r == can_borrow_and_promote(*t, smart_ptr_def, inner_shape),
            final(host).view() == if r {
                old(host).view().plus(
                    borrow_and_promote_ops(smart_ptr_def, smart_ptr_data.addr, inner_data.addr),
                )
            } else {
                old(host).view()
            },
    {
        match (
            smart_ptr_def.vtable.borrow_from_pointee_fn,
            smart_ptr_def.vtable.promote_to_owned_fn,
            smart_ptr_def.pointee,
        ) {
            (Some(borrow), Some(promote), Some(pointee)) => {
                if pointee != inner_shape || t.sized_layout(pointee).is_none() {
                    return false;
                }
                host.act(
                    MemOp::BorrowFromPointee {
                        f: borrow,
                        dst: smart_ptr_data.addr,
                        pointee: inner_data.addr,
                    },
                );
                host.act(MemOp::PromoteToOwned { f: promote, at: smart_ptr_data.addr });
                true
            },
            _ => false,
        }
    }

    /// Moves a waiting value into a smart pointer, and releases its memory.
    pub fn complete_pending_smart_pointer<H: Host>(
        t: &ShapeTable,
        smart_ptr_shape: ShapeRef,
        smart_ptr_def: PointerDef,
        smart_ptr_data: PtrUninit,
        pending_inner: PendingSmartPointerInner,
        host: &mut H,
    ) -> (r: Result<(), ReflectErrorKind>)
        requires
            pending_inner.allocated.wf(*t),
        ensures
            final(host).view() == old(host).view().plus(
                pointer_completion(
                    *t,
                    smart_ptr_shape,
                    smart_ptr_def,
                    smart_ptr_data.addr,
                    pending_inner,
                ).ops,
            ),
            r == pointer_completion(
                *t,
                smart_ptr_shape,
                smart_ptr_def,
                smart_ptr_data.addr,
                pending_inner,
            ).result,
    {
        let inner_shape = pending_inner.shape();
        let inner_data = pending_inner.data();
        if let (Some(new_into), Some(pointee)) = (
            smart_ptr_def.vtable.new_into_fn,
            smart_ptr_def.pointee,
        ) {
            if pointee == inner_shape {
                host.act(
                    MemOp::NewInto { f: new_into, dst: smart_ptr_data.addr, src: inner_data.addr },
                );
                pending_inner.dealloc_after_move(t, host);
                return Ok(());
            }
        }
        if Frame::try_borrow_and_promote_smart_pointer(
            t,
            smart_ptr_def,
            smart_ptr_data,
            inner_shape,
            inner_data,
            host,
        ) {
            pending_inner.drop_and_dealloc(t, host);
            return Ok(());
        }
        let is_str = match smart_ptr_def.pointee() {
            Some(pointee) => pointee == t.str_shape && inner_shape == t.string_shape,
            None => false,
        };
        if is_str {
            let kind = match smart_ptr_def.known {
                Some(kind) => kind,
                None => {
                    pending_inner.drop_and_dealloc(t, host);
                    return Err(
                        ReflectErrorKind::OperationFailed {
                            shape: smart_ptr_shape,
                            operation: "SmartPointer<str> missing known pointer type",
                        },
                    );
                },
            };
            match kind {
                KnownPointer::Box | KnownPointer::Arc | KnownPointer::Rc | KnownPointer::Cow => {
                    host.act(
                        MemOp::StringInto {
                            kind,
                            dst: smart_ptr_data.addr,
                            src: inner_data.addr,
                        },
                    );
                    pending_inner.dealloc_after_move(t, host);
                    return Ok(());
                },
                _ => {
                    pending_inner.drop_and_dealloc(t, host);
                    return Err(
                        ReflectErrorKind::OperationFailed {
                            shape: smart_ptr_shape,
                            operation: "Unsupported SmartPointer<str> type",
                        },
                    );
                },
            }
        }
        pending_inner.drop_and_dealloc(t, host);
        Err(
            ReflectErrorKind::OperationFailed {
                shape: smart_ptr_shape,
                operation: "SmartPointer missing an owned construction capability and not a supported unsized type",
            },
        )
    }

    /// Completes the frame: moves into place whatever waits for it, and reports an error if the
    /// value is still not fully initialized.
    pub fn require_full_initialization<H: Host>(&mut self, t: &ShapeTable, host: &mut H) -> (r: Result<
        (),
        ReflectErrorKind,
    >)
        requires
            t.wf(),
            old(self)@.fits(*t),
        ensures
            final(self)@ == old(self)@.completed(*t).frame,
            final(host).view() == old(host).view().plus(old(self)@.completed(*t).ops),
            r == old(self)@.completed(*t).result,
            final(self)@.fits(*t),
            old(self)@.same_frame(final(self)@),
    {
        reveal(FrameView::completed);
        let shape = self.allocated.shape();
        let data = self.data;
        let is_init = self.is_init;
        let uninit = ReflectErrorKind::UninitializedValue { shape };
        match &mut self.tracker {
            Tracker::Scalar => {
                if is_init {
                    Ok(())
                } else {
                    Err(uninit)
                }
            },
            Tracker::Array { iset, .. } => match &t.get(shape).ty {
                Type::Sequence(SequenceType::Array(a)) => {
                    if iset.all_set(a.n) {
                        Ok(())
                    } else {
                        Err(uninit)
                    }
                },
                _ => Err(uninit),
            },
            Tracker::Struct { iset, .. } => match t.struct_type(shape) {
                Some(st) => match iset.first_unset(st.fields.len()) {
                    None => Ok(()),
                    Some(idx) => Err(
                        ReflectErrorKind::UninitializedField {
                            shape,
                            field_name: st.fields[idx].name,
                        },
                    ),
                },
                None => Err(uninit),
            },
            Tracker::Enum { variant_idx, data, .. } => {
                let variant = t.variant(shape, *variant_idx);
                match data.first_unset(variant.fields.len()) {
                    None => Ok(()),
                    Some(idx) => Err(
                        ReflectErrorKind::UninitializedField {
                            shape,
                            field_name: variant.fields[idx].name,
                        },
                    ),
                }
            },
            Tracker::SmartPointer { building_inner, pending_inner } => {
                if *building_inner {
                    return Err(uninit);
                }
                match pending_inner.take() {
                    Some(pending) => {
                        if let Def::Pointer(def) = t.get(shape).def {
                            let result = Frame::complete_pending_smart_pointer(
                                t,
                                shape,
                                def,
                                data,
                                pending,
                                host,
                            );
                            self.is_init = result.is_ok();
                            result
                        } else {
                            pending.drop_and_dealloc(t, host);
                            self.is_init = false;
                            Err(
                                ReflectErrorKind::OperationFailed {
                                    shape,
                                    operation: "SmartPointer frame without SmartPointer definition",
                                },
                            )
                        }
                    },
                    None => {
                        if is_init {
                            Ok(())
                        } else {
                            Err(uninit)
                        }
                    },
                }
            },
            Tracker::SmartPointerSlice { building_item, .. } => {
                if *building_item {
                    Err(uninit)
                } else {
                    Ok(())
                }
            },
            Tracker::List { current_child, rope } => {
                if is_init && current_child.is_none() {
                    if let Some(rope) = rope.take() {
                        if let Def::List(def) = &t.get(shape).def {
                            return Frame::drain_rope_into_vec(t, rope, def, data, host);
                        }
                        rope.free(host);
                    }
                    Ok(())
                } else {
                    Err(uninit)
                }
            },
            Tracker::MapOf { insert_state, pending_entries, .. } => {
                let idle = match insert_state {
                    MapInsertState::Idle => true,
                    _ => false,
                };
                if is_init && idle {
                    if let Def::MapOf(def) = &t.get(shape).def {
                        return Frame::drain_pending_into_map(t, pending_entries, def, data, host);
                    }
                    Ok(())
                } else {
                    Err(uninit)
                }
            },
            Tracker::SetOf { current_child } => {
                if is_init && !*current_child {
                    Ok(())
                } else {
                    Err(uninit)
                }
            },
            Tracker::Option { building_inner, pending_inner } => {
                if *building_inner {
                    return Err(uninit);
                }
                if let Some(inner) = pending_inner.take() {
                    if let Def::Option(def) = &t.get(shape).def {
                        return Frame::complete_pending_option(t, *def, data, inner, host);
                    }
                }
                Ok(())
            },
            Tracker::Result { building_inner, .. } => {
                if *building_inner {
                    Err(uninit)
                } else {
                    Ok(())
                }
            },
            Tracker::Inner { building_inner } => {
                if !*building_inner && is_init {
                    Ok(())
                } else {
                    Err(uninit)
                }
            },
            Tracker::DynamicValue { state } => match state {
                DynamicValueState::Uninit => Err(uninit),
                DynamicValueState::Scalar => Ok(()),
                DynamicValueState::Object { insert_state, pending_entries } => {
                    match insert_state {
                        DynamicObjectInsertState::Idle => {},
                        _ => {
                            return Err(uninit);
                        },
                    }
                    if let Def::DynamicValue(def) = &t.get(shape).def {
                        insert_object_entries(t, def, shape, data, pending_entries, host);
                    }
                    Ok(())
                },
                DynamicValueState::Array { building_element, pending_elements } => {
                    if *building_element {
                        return Err(uninit);
                    }
                    if let Def::DynamicValue(def) = &t.get(shape).def {
                        push_elements(t, def, shape, data, pending_elements, host);
                    }
                    Ok(())
                },
            },
        }
    }
}

/// Entries from the first key without a value on do not count.
proof fn lemma_full_entries_stop(
    entries: Seq<(PtrUninit, Option<PtrUninit>)>,
    i: nat,
    n: nat,
)
    requires
        i < n,
        full_entries(entries, i) == i,
        entries[i as int].1 is None,
    ensures
        full_entries(entries, n) == i,
    decreases n,
{
    if i + 1 < n {
        lemma_full_entries_stop(entries, i, (n - 1) as nat);
    }
}

fn insert_object_entries<H: Host>(
    t: &ShapeTable,
    def: &DynamicDef,
    shape: ShapeRef,
    object: PtrUninit,
    pending_entries: &mut Vec<(String, PtrUninit)>,
    host: &mut H,
)
    requires
        t.has(shape),
    ensures
        final(pending_entries)@ == Seq::<(String, PtrUninit)>::empty(),
        final(host).view() == old(host).view().plus(
            insert_object_ops(
                *t,
                *def,
                shape,
                object.addr,
                old(pending_entries)@,
                old(pending_entries)@.len(),
            ),
        ),
{
    let ghost all = pending_entries@;
    let mut entries: Vec<(String, PtrUninit)> = Vec::new();
    core::mem::swap(&mut entries, pending_entries);
    for entry in it: entries
        invariant
            it.seq() == all,
            t.has(shape),
            host.view() == old(host).view().plus(
                insert_object_ops(*t, *def, shape, object.addr, all, it.index() as nat),
            ),
    {
        let (key, value) = entry;
        host.act(
            MemOp::InsertEntry {
                f: def.insert_object_entry,
                object: object.addr,
                key,
                value: value.addr,
            },
        );
        t.dealloc_shape(shape, value.addr, host);
    }
}

fn push_elements<H: Host>(
    t: &ShapeTable,
    def: &DynamicDef,
    shape: ShapeRef,
    array: PtrUninit,
    pending_elements: &mut Vec<PtrUninit>,
    host: &mut H,
)
    requires
        t.has(shape),
    ensures
        final(pending_elements)@ == Seq::<PtrUninit>::empty(),
        final(host).view() == old(host).view().plus(
            push_elements_ops(
                *t,
                *def,
                shape,
                array.addr,
                old(pending_elements)@,
                old(pending_elements)@.len(),
            ),
        ),
{
    let ghost all = pending_elements@;
    let mut idx: usize = 0;
    while idx < pending_elements.len()
        invariant
            idx <= all.len(),
            pending_elements@ == all,
            t.has(shape),
            host.view() == old(host).view().plus(
                push_elements_ops(*t, *def, shape, array.addr, all, idx as nat),
            ),
        decreases all.len() - idx,
    {
        let item = pending_elements[idx].addr;
        host.act(MemOp::PushElement { f: def.push_array_element, array: array.addr, item });
        t.dealloc_shape(shape, item, host);
        idx = idx + 1;
    }
    pending_elements.clear();
}

} // verus!
