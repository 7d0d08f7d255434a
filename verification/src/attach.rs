//! What becomes of a child frame when it ends: the parent takes over its value at once.
use vstd::prelude::*;

use crate::absorb::Converted;
use crate::deferred::{disposed, lemma_completed_wf, lemma_filled_wf};
use crate::error::ReflectErrorKind;
use crate::frame::{Frame, FrameOwnership, FrameView, PendingSmartPointerInner};
use crate::memory::{Host, HostView, MemOp, PtrUninit};
use crate::plan::TypePlanCore;
use crate::pointer::KnownPointer;
use crate::shape::{Def, ShapeRef, ShapeTable};
use crate::tracker::{
    DynamicObjectInsertState, DynamicValueState, DynamicValueView, MapInsertState, Tracker,
    TrackerView,
};

verus! {

/// What ending a child makes of its parent.
#[verifier::ext_equal]
pub struct Attached {
    pub parent: FrameView,
    pub host: HostView,
    pub result: Result<(), ReflectErrorKind>,
}

/// The child cannot be used: it is disposed of, and the error is reported.
pub open spec fn rejected(
    t: ShapeTable,
    parent: FrameView,
    child: FrameView,
    h: HostView,
    kind: ReflectErrorKind,
) -> Attached {
    Attached { parent, host: disposed(t, child, h), result: Err(kind) }
}

/// The operation cannot be done on the parent.
pub open spec fn refused(
    t: ShapeTable,
    parent: FrameView,
    child: FrameView,
    h: HostView,
    operation: &'static str,
) -> Attached {
    rejected(t, parent, child, h, parent.failure(operation))
}

/// The parent did not ask for the child, which is disposed of.
pub open spec fn unused(t: ShapeTable, parent: FrameView, child: FrameView, h: HostView) -> Attached {
    Attached { parent, host: disposed(t, child, h), result: Ok(()) }
}

/// The parent was converted from the child, or was to be.
pub open spec fn attached_by(a: Converted) -> Attached {
    Attached { parent: a.frame, host: a.host, result: a.result }
}

/// The parent is converted from the child: it is not initialized, nothing else is tracked of it,
/// it is built from or wraps the child's type, and there is a conversion hook.
pub open spec fn needs_conversion(t: ShapeTable, parent: FrameView, child: FrameView) -> bool {
    let shape = t.at(parent.shape());
    &&& !parent.is_init
    &&& parent.tracker is Scalar || parent.tracker is Inner
    &&& shape.builder_shape == Some(child.shape()) || shape.inner == Some(child.shape())
    &&& shape.vtable.spec_try_from() is Some
}

/// The parent is converted from the child by a hook. What becomes of the child depends on
/// whether the hook consumed it.
pub open spec fn converted(t: ShapeTable, parent: FrameView, child: FrameView, h: HostView) -> Attached {
    let done = child.completed(t);
    let h1 = h.plus(done.ops);
    match done.result {
        Err(kind) => rejected(t, parent, done.frame, h1, kind),
        Ok(_) => attached_by(
            parent.from_inner(
                t,
                done.frame,
                t.at(parent.shape()).vtable.spec_try_from()->0,
                h1,
            ),
        ),
    }
}

/// The parent after a field frame ended: it is responsible for the field again, if the field is
/// initialized.
pub open spec fn reclaimed(parent: FrameView, idx: usize, initialized: bool) -> FrameView {
    let tracker = if initialized {
        parent.tracker.with_field(idx)
    } else {
        parent.tracker
    };
    match parent.tracker {
        TrackerView::Struct { .. } | TrackerView::Array { .. } | TrackerView::Enum { .. } => FrameView {
            tracker: tracker.without_child(),
            ..parent
        },
        _ => parent,
    }
}

/// A field frame ended. What there is of a field that is not complete is disposed of.
pub open spec fn field_ended(
    t: ShapeTable,
    parent: FrameView,
    child: FrameView,
    idx: usize,
    h: HostView,
) -> Attached {
    let filled = child.filled(t);
    let h1 = h.plus(filled.ops);
    match filled.result {
        Err(kind) => rejected(t, parent, filled.frame, h1, kind),
        Ok(_) => {
            let done = filled.frame.completed(t);
            let h2 = h1.plus(done.ops);
            Attached {
                parent: reclaimed(parent, idx, done.result is Ok),
                host: if done.result is Ok {
                    h2
                } else {
                    disposed(t, done.frame, h2)
                },
                result: Ok(()),
            }
        },
    }
}

/// The pointee of a smart pointer ended. In deferred mode it waits until the pointer is
/// finished.
pub open spec fn pointee_ended(
    t: ShapeTable,
    parent: FrameView,
    child: FrameView,
    deferred: bool,
    h: HostView,
) -> Attached {
    if !(parent.tracker->SmartPointer_building_inner) {
        refused(t, parent, child, h, "SmartPointer end() called with building_inner = false")
    } else if !(t.at(parent.shape()).def is Pointer) {
        refused(t, parent, child, h, "SmartPointer frame without SmartPointer definition")
    } else if deferred {
        let filled = child.filled(t);
        let h1 = h.plus(filled.ops);
        let done = filled.frame.completed(t);
        let h2 = h1.plus(done.ops);
        match (filled.result, done.result) {
            (Err(kind), _) => rejected(t, parent, filled.frame, h1, kind),
            (Ok(_), Err(kind)) => rejected(t, parent, done.frame, h2, kind),
            (Ok(_), Ok(_)) => Attached {
                parent: FrameView {
                    tracker: TrackerView::SmartPointer {
                        building_inner: false,
                        pending_inner: Some(done.frame.staged()),
                    },
                    is_init: false,
                    ..parent
                },
                host: h2,
                result: Ok(()),
            },
        }
    } else {
        let done = child.completed(t);
        let h1 = h.plus(done.ops);
        match done.result {
            Err(kind) => rejected(t, parent, done.frame, h1, kind),
            Ok(_) => {
                let r = parent.with_pointee(t, done.frame, h1);
                Attached {
                    parent: FrameView { tracker: TrackerView::Scalar, ..r.frame },
                    host: r.host,
                    result: Ok(()),
                }
            },
        }
    }
}

/// An element of a list ended.
pub open spec fn item_ended(t: ShapeTable, parent: FrameView, child: FrameView, h: HostView) -> Attached {
    let released = FrameView { tracker: parent.tracker.without_child(), ..parent };
    match t.at(parent.shape()).def {
        Def::List(d) => if child.ownership is RopeSlot {
            Attached {
                parent: FrameView {
                    tracker: parent.with_slot().tracker.without_child(),
                    ..parent
                },
                host: h,
                result: Ok(()),
            }
        } else {
            match d.push {
                Some(f) => Attached {
                    parent: released,
                    host: h.after(
                        MemOp::ListPush { f, list: parent.data.addr, item: child.data.addr },
                    ).plus(child.dealloc_ops(t)),
                    result: Ok(()),
                },
                None => refused(t, parent, child, h, "List missing push function"),
            }
        },
        _ => unused(t, parent, child, h),
    }
}

/// The map with another insertion state.
pub open spec fn with_insert_state(parent: FrameView, state: MapInsertState) -> FrameView {
    match parent.tracker {
        TrackerView::MapOf { pending_entries, current_entry_index, building_key, .. } => FrameView {
            tracker: TrackerView::MapOf {
                insert_state: state,
                pending_entries,
                current_entry_index,
                building_key,
            },
            ..parent
        },
        _ => parent,
    }
}

/// A key or value of a map ended. Entries wait until the map is finished.
pub open spec fn entry_ended(t: ShapeTable, parent: FrameView, child: FrameView, h: HostView) -> Attached {
    let filled = child.filled(t);
    let h1 = h.plus(filled.ops);
    match parent.tracker {
        TrackerView::MapOf { insert_state, pending_entries, .. } => match insert_state {
            MapInsertState::Idle => unused(t, parent, child, h),
            MapInsertState::PushingKey { key_ptr } => match filled.result {
                Err(kind) => rejected(t, parent, filled.frame, h1, kind),
                Ok(_) => Attached {
                    parent: with_insert_state(
                        parent.with_key(key_ptr),
                        MapInsertState::PushingValue { key_ptr, value_ptr: None },
                    ),
                    host: h1,
                    result: Ok(()),
                },
            },
            MapInsertState::PushingValue { value_ptr, .. } => match (filled.result, value_ptr) {
                (Err(kind), _) => rejected(t, parent, filled.frame, h1, kind),
                (Ok(_), Some(value)) => Attached {
                    parent: with_insert_state(
                        parent.with_value(pending_entries.len() - 1, value),
                        MapInsertState::Idle,
                    ),
                    host: h1,
                    result: Ok(()),
                },
                (Ok(_), None) => unused(t, parent, filled.frame, h1),
            },
        },
        _ => unused(t, parent, child, h),
    }
}

/// An element of a set ended, and goes into the set.
pub open spec fn element_ended(t: ShapeTable, parent: FrameView, child: FrameView, h: HostView) -> Attached {
    match t.at(parent.shape()).def {
        Def::SetOf(d) => Attached {
            parent: FrameView { tracker: TrackerView::SetOf { current_child: false }, ..parent },
            host: h.after(
                MemOp::SetInsert { f: d.insert, set: parent.data.addr, item: child.data.addr },
            ).plus(child.dealloc_ops(t)),
            result: Ok(()),
        },
        _ => unused(t, parent, child, h),
    }
}

/// The inner value of an option ended, and waits until the option is finished. One that the
/// option did not ask for is disposed of.
pub open spec fn some_ended(
    t: ShapeTable,
    parent: FrameView,
    child: FrameView,
    building_inner: bool,
    h: HostView,
) -> Attached {
    if !building_inner {
        unused(t, parent, child, h)
    } else if t.at(parent.shape()).def is Option {
        Attached {
            parent: FrameView {
                tracker: TrackerView::Option {
                    building_inner: false,
                    pending_inner: Some(child.data),
                },
                is_init: true,
                ..parent
            },
            host: h,
            result: Ok(()),
        }
    } else {
        refused(t, parent, child, h, "Option frame without Option definition")
    }
}

/// The inner value of a result ended, and goes into the result. One that the result did not ask
/// for is disposed of.
pub open spec fn result_ended(
    t: ShapeTable,
    parent: FrameView,
    child: FrameView,
    is_ok: bool,
    building_inner: bool,
    h: HostView,
) -> Attached {
    let dst = parent.data.addr;
    let src = child.data.addr;
    if !building_inner {
        unused(t, parent, child, h)
    } else {
        match t.at(parent.shape()).def {
            Def::Result(d) => Attached {
                parent: FrameView {
                    tracker: TrackerView::Result { is_ok, building_inner: false },
                    is_init: true,
                    ..parent
                },
                host: h.after(
                    if is_ok {
                        MemOp::InitOk { f: d.init_ok, dst, src }
                    } else {
                        MemOp::InitErr { f: d.init_err, dst, src }
                    },
                ).plus(child.dealloc_ops(t)),
                result: Ok(()),
            },
            _ => refused(t, parent, child, h, "Result frame without Result definition"),
        }
    }
}

/// The pointers to `str` that an untracked parent is made into.
pub open spec fn takes_string_directly(k: KnownPointer) -> bool {
    k is Box || k is Arc || k is Rc
}

/// A `String` ended under a parent of which nothing is tracked: the parent must be a pointer to
/// `str`.
pub open spec fn string_ended(t: ShapeTable, parent: FrameView, child: FrameView, h: HostView) -> Attached {
    match t.at(parent.shape()).def {
        Def::Pointer(p) => if p.pointee is None {
            rejected(
                t,
                parent,
                child,
                h,
                ReflectErrorKind::InvariantViolation {
                    invariant: "pointer type doesn't have a pointee",
                },
            )
        } else if p.pointee != Some(t.str_shape) {
            rejected(
                t,
                parent,
                child,
                h,
                ReflectErrorKind::InvariantViolation {
                    invariant: "only T=str is supported when building SmartPointer<T> and T is unsized",
                },
            )
        } else if child.shape() != t.string_shape {
            rejected(
                t,
                parent,
                child,
                h,
                ReflectErrorKind::InvariantViolation {
                    invariant: "the popped frame should be String when building a SmartPointer<T>",
                },
            )
        } else {
            let done = child.completed(t);
            let h1 = h.plus(done.ops);
            let h2 = h1.plus(parent.deinit_ops(t));
            let src = child.data.addr;
            match (done.result, p.known) {
                (Err(kind), _) => rejected(t, parent, done.frame, h1, kind),
                (Ok(_), None) => refused(
                    t,
                    parent,
                    done.frame,
                    h1,
                    "SmartPointerStr for unknown smart pointer kind",
                ),
                (Ok(_), Some(kind)) => if takes_string_directly(kind) {
                    Attached {
                        parent: FrameView { is_init: true, ..parent.deinited() },
                        host: h2.after(
                            MemOp::StringInto { kind, dst: parent.data.addr, src },
                        ).plus(done.frame.dealloc_ops(t)),
                        result: Ok(()),
                    }
                } else {
                    refused(
                        t,
                        parent.deinited(),
                        done.frame,
                        h2,
                        "Don't know how to build this pointer type",
                    )
                },
            }
        },
        _ => refused(
            t,
            parent,
            child,
            h,
            "end() called but parent has Uninit/Init tracker and isn't a SmartPointer",
        ),
    }
}

/// An element of a dynamic array ended.
pub open spec fn dynamic_element_ended(
    t: ShapeTable,
    parent: FrameView,
    child: FrameView,
    pending_elements: Seq<PtrUninit>,
    h: HostView,
) -> Attached {
    let ready = FrameView {
        tracker: TrackerView::DynamicValue {
            state: DynamicValueView::Array { building_element: false, pending_elements },
        },
        ..parent
    };
    if !child.is_init {
        refused(
            t,
            ready,
            child,
            h,
            "end() called but array element was never initialized",
        )
    } else {
        match t.at(parent.shape()).def {
            Def::DynamicValue(d) => Attached {
                parent: ready,
                host: h.after(
                    MemOp::PushElement {
                        f: d.push_array_element,
                        array: parent.data.addr,
                        item: child.data.addr,
                    },
                ).plus(child.dealloc_ops(t)),
                result: Ok(()),
            },
            _ => unused(t, parent, child, h),
        }
    }
}

/// The value of an entry of a dynamic object ended.
pub open spec fn dynamic_entry_ended(
    t: ShapeTable,
    parent: FrameView,
    child: FrameView,
    key: String,
    pending_entries: Seq<(String, PtrUninit)>,
    h: HostView,
) -> Attached {
    let ready = FrameView {
        tracker: TrackerView::DynamicValue {
            state: DynamicValueView::Object {
                insert_state: DynamicObjectInsertState::Idle,
                pending_entries,
            },
        },
        ..parent
    };
    if !child.is_init {
        refused(
            t,
            ready,
            child,
            h,
            "end() called but object entry value was never initialized",
        )
    } else {
        match t.at(parent.shape()).def {
            Def::DynamicValue(d) => Attached {
                parent: ready,
                host: h.after(
                    MemOp::InsertEntry {
                        f: d.insert_object_entry,
                        object: parent.data.addr,
                        key,
                        value: child.data.addr,
                    },
                ).plus(child.dealloc_ops(t)),
                result: Ok(()),
            },
            _ => unused(t, parent, child, h),
        }
    }
}

/// A child ended, and its parent takes it over in the way that its tracker asks for.
pub open spec fn taken_over(
    t: ShapeTable,
    parent: FrameView,
    child: FrameView,
    deferred: bool,
    h: HostView,
) -> Attached {
    let nothing = unused(t, parent, child, h);
    match parent.tracker {
        TrackerView::SmartPointer { .. } => pointee_ended(t, parent, child, deferred, h),
        TrackerView::List { current_child, .. } => if parent.is_init && current_child is Some {
            item_ended(t, parent, child, h)
        } else {
            nothing
        },
        TrackerView::MapOf { .. } => if parent.is_init {
            entry_ended(t, parent, child, h)
        } else {
            nothing
        },
        TrackerView::SetOf { current_child } => if parent.is_init && current_child {
            element_ended(t, parent, child, h)
        } else {
            nothing
        },
        TrackerView::Option { building_inner, .. } => some_ended(
            t,
            parent,
            child,
            building_inner,
            h,
        ),
        TrackerView::Result { is_ok, building_inner } => result_ended(
            t,
            parent,
            child,
            is_ok,
            building_inner,
            h,
        ),
        TrackerView::Scalar => string_ended(t, parent, child, h),
        TrackerView::SmartPointerSlice { vtable, building_item, current_child } => if building_item {
            Attached {
                parent: FrameView {
                    tracker: TrackerView::SmartPointerSlice {
                        vtable,
                        building_item: false,
                        current_child,
                    },
                    ..parent
                },
                host: h.after(
                    MemOp::SlicePush {
                        f: vtable.push_fn,
                        builder: parent.data.addr,
                        item: child.data.addr,
                    },
                ).plus(child.dealloc_ops(t)),
                result: Ok(()),
            }
        } else {
            nothing
        },
        TrackerView::DynamicValue { state } => match state {
            DynamicValueView::Array { building_element: true, pending_elements } =>
                dynamic_element_ended(t, parent, child, pending_elements, h),
            DynamicValueView::Object {
                insert_state: DynamicObjectInsertState::BuildingValue { key },
                pending_entries,
            } => dynamic_entry_ended(t, parent, child, key, pending_entries, h),
            _ => nothing,
        },
        _ => nothing,
    }
}

/// A child ended.
///
/// Where the parent is converted from the child, it is. Otherwise a parent reclaims its field,
/// and any other parent takes the child over as its tracker asks for. A frame on an entry of an
/// existing collection is completed first.
pub open spec fn attached(
    t: ShapeTable,
    parent: FrameView,
    child: FrameView,
    deferred: bool,
    h: HostView,
) -> Attached {
    if needs_conversion(t, parent, child) {
        converted(t, parent, child, h)
    } else {
        match child.ownership {
            FrameOwnership::Field { field_idx } => field_ended(t, parent, child, field_idx, h),
            FrameOwnership::BorrowedInPlace => {
                let done = child.completed(t);
                let h1 = h.plus(done.ops);
                match done.result {
                    Err(kind) => rejected(t, parent, done.frame, h1, kind),
                    Ok(_) => taken_over(t, parent, done.frame, deferred, h1),
                }
            },
            _ => taken_over(t, parent, child, deferred, h),
        }
    }
}

/// A map keeps the memory of the key or value that ends, and has an entry that waits for a value.
pub open spec fn entry_ready(parent: FrameView, child: FrameView) -> bool {
    parent.tracker matches TrackerView::MapOf { insert_state, pending_entries, .. } ==> (
    match insert_state {
        MapInsertState::PushingKey { key_ptr } => key_ptr == child.data,
        MapInsertState::PushingValue { value_ptr: Some(value), .. } => {
            &&& value == child.data
            &&& pending_entries.len() > 0
            &&& pending_entries.last().1 is None
        },
        _ => true,
    })
}

/// A frame still fits its plan, with the same memory.
pub open spec fn stays(plan: TypePlanCore, before: FrameView, after: FrameView) -> bool {
    &&& after.wf(plan)
    &&& after.allocated == before.allocated
    &&& after.ownership == before.ownership
    &&& after.data == before.data
}

/// Filling in defaults keeps a frame fitting.
pub proof fn lemma_filled_fits(f: FrameView, t: ShapeTable)
    requires
        f.fits(t),
    ensures
        f.filled(t).frame.fits(t),
{
    reveal(FrameView::filled);
}

/// Completing keeps a frame fitting.
pub proof fn lemma_completed_fits(f: FrameView, t: ShapeTable)
    requires
        f.fits(t),
    ensures
        f.completed(t).frame.fits(t),
        f.same_frame(f.completed(t).frame),
{
    reveal(FrameView::completed);
}

proof fn lemma_pointee_ended_stays(
    plan: TypePlanCore,
    parent: FrameView,
    child: FrameView,
    deferred: bool,
    h: HostView,
)
    requires
        parent.tracker is SmartPointer,
        parent.wf(plan),
        child.wf(plan),
    ensures
        stays(plan, parent, pointee_ended(plan.shapes, parent, child, deferred, h).parent),
{
    let t = plan.shapes;
    lemma_filled_wf(child, plan);
    lemma_completed_wf(child.filled(t).frame, plan);
}

proof fn lemma_field_ended_stays(
    plan: TypePlanCore,
    parent: FrameView,
    child: FrameView,
    idx: usize,
    h: HostView,
)
    requires
        parent.wf(plan),
    ensures
        stays(plan, parent, field_ended(plan.shapes, parent, child, idx, h).parent),
{
}

proof fn lemma_taken_over_stays(
    plan: TypePlanCore,
    parent: FrameView,
    child: FrameView,
    deferred: bool,
    h: HostView,
)
    requires
        parent.wf(plan),
        child.wf(plan),
    ensures
        stays(plan, parent, taken_over(plan.shapes, parent, child, deferred, h).parent),
{
    if parent.tracker is SmartPointer {
        lemma_pointee_ended_stays(plan, parent, child, deferred, h);
    }
}

/// A parent stays within its plan when a child ends.
pub proof fn lemma_attached_stays(
    plan: TypePlanCore,
    parent: FrameView,
    child: FrameView,
    deferred: bool,
    h: HostView,
)
    requires
        parent.wf(plan),
        child.wf(plan),
    ensures
        stays(plan, parent, attached(plan.shapes, parent, child, deferred, h).parent),
{
    let t = plan.shapes;
    let done = child.completed(t);
    lemma_completed_wf(child, plan);
    if needs_conversion(t, parent, child) {
    } else {
        match child.ownership {
            FrameOwnership::Field { field_idx } => {
                lemma_field_ended_stays(plan, parent, child, field_idx, h);
            },
            FrameOwnership::BorrowedInPlace => {
                lemma_taken_over_stays(plan, parent, done.frame, deferred, h.plus(done.ops));
            },
            _ => {
                lemma_taken_over_stays(plan, parent, child, deferred, h);
            },
        }
    }
}

/// Disposes of a child that cannot be used, and reports the error.
fn reject<H: Host>(child: Frame, kind: ReflectErrorKind, t: &ShapeTable, host: &mut H) -> (r: Result<
    (),
    ReflectErrorKind,
>)
    requires
        t.wf(),
        child@.fits(*t),
    ensures
        final(host).view() == disposed(*t, child@, old(host).view()),
        r == Err::<(), ReflectErrorKind>(kind),
{
    child.dispose(t, host);
    Err(kind)
}

/// Disposes of a child because the operation cannot be done on its parent.
fn refuse<H: Host>(
    shape: ShapeRef,
    operation: &'static str,
    child: Frame,
    t: &ShapeTable,
    host: &mut H,
) -> (r: Result<(), ReflectErrorKind>)
    requires
        t.wf(),
        child@.fits(*t),
    ensures
        final(host).view() == disposed(*t, child@, old(host).view()),
        r == Err::<(), ReflectErrorKind>(ReflectErrorKind::OperationFailed { shape, operation }),
{
    reject(child, ReflectErrorKind::OperationFailed { shape, operation }, t, host)
}

impl Frame {
    /// Whether the frame is to be converted from a child.
    fn needs_conversion_from(&self, child: &Frame, t: &ShapeTable) -> (r: bool)
        requires
            t.has(self@.shape()),
        ensures
            r == needs_conversion(*t, self@, child@),
    {
        let shape = t.get(self.allocated.shape());
        let untracked = match self.tracker {
            Tracker::Scalar | Tracker::Inner { .. } => true,
            _ => false,
        };
        let from_builder = match shape.builder_shape {
            Some(s) => s == child.allocated.shape(),
            None => false,
        };
        let from_inner = match shape.inner {
            Some(s) => s == child.allocated.shape(),
            None => false,
        };
        !self.is_init && untracked && (from_builder || from_inner)
            && shape.vtable.try_from_fn().is_some()
    }

    fn convert_from<H: Host>(&mut self, child: Frame, t: &ShapeTable, host: &mut H) -> (r: Result<
        (),
        ReflectErrorKind,
    >)
        requires
            t.wf(),
            t.has(old(self)@.shape()),
            child@.fits(*t),
            needs_conversion(*t, old(self)@, child@),
        ensures
            ({
                let a = converted(*t, old(self)@, child@, old(host).view());
                &&& final(self)@ == a.parent
                &&& final(host).view() == a.host
                &&& r == a.result
            }),
    {
        let mut child = child;
        proof {
            lemma_completed_fits(child@, *t);
        }
        if let Err(kind) = child.require_full_initialization(t, host) {
            return reject(child, kind, t, host);
        }
        let f = match t.get(self.allocated.shape()).vtable.try_from_fn() {
            Some(f) => f,
            None => vstd::pervasive::unreached(),
        };
        self.convert_inner(child, f, t, host)
    }

    fn end_field<H: Host>(&mut self, child: Frame, field_idx: usize, t: &ShapeTable, host: &mut H) -> (r:
        Result<(), ReflectErrorKind>)
        requires
            t.wf(),
            child@.fits(*t),
        ensures
            ({
                let a = field_ended(*t, old(self)@, child@, field_idx, old(host).view());
                &&& final(self)@ == a.parent
                &&& final(host).view() == a.host
                &&& r == a.result
            }),
    {
        let mut child = child;
        proof {
            lemma_filled_fits(child@, *t);
            lemma_completed_fits(child@.filled(*t).frame, *t);
        }
        if let Err(kind) = child.fill_defaults(t, host) {
            return reject(child, kind, t, host);
        }
        let initialized = child.require_full_initialization(t, host).is_ok();
        if !initialized {
            child.dispose(t, host);
        }
        match self.tracker {
            Tracker::Struct { .. } | Tracker::Array { .. } | Tracker::Enum { .. } => {
                if initialized {
                    self.tracker.set_field(field_idx);
                }
                self.tracker.clear_current_child();
            },
            _ => {},
        }
        Ok(())
    }

    fn end_pointee<H: Host>(&mut self, child: Frame, deferred: bool, t: &ShapeTable, host: &mut H) -> (r:
        Result<(), ReflectErrorKind>)
        requires
            t.wf(),
            t.has(old(self)@.shape()),
            child@.fits(*t),
            old(self)@.tracker is SmartPointer,
        ensures
            ({
                let a = pointee_ended(*t, old(self)@, child@, deferred, old(host).view());
                &&& final(self)@ == a.parent
                &&& final(host).view() == a.host
                &&& r == a.result
            }),
    {
        let shape = self.allocated.shape();
        let building = match &self.tracker {
            Tracker::SmartPointer { building_inner, .. } => *building_inner,
            _ => false,
        };
        if !building {
            return refuse(
                shape,
                "SmartPointer end() called with building_inner = false",
                child,
                t,
                host,
            );
        }
        match &t.get(shape).def {
            Def::Pointer(_) => {},
            _ => {
                return refuse(
                    shape,
                    "SmartPointer frame without SmartPointer definition",
                    child,
                    t,
                    host,
                );
            },
        }
        let mut child = child;
        if deferred {
            if let Err(kind) = child.fill_defaults(t, host) {
                child.dispose(t, host);
                return Err(kind);
            }
            if let Err(kind) = child.require_full_initialization(t, host) {
                child.dispose(t, host);
                return Err(kind);
            }
            self.tracker = Tracker::SmartPointer {
                building_inner: false,
                pending_inner: Some(PendingSmartPointerInner::from_initialized_frame(child)),
            };
            self.is_init = false;
        } else {
            if let Err(kind) = child.require_full_initialization(t, host) {
                child.dispose(t, host);
                return Err(kind);
            }
            self.complete_smart_pointer_frame(child, t, host);
            self.tracker = Tracker::Scalar;
        }
        Ok(())
    }

    fn end_item<H: Host>(&mut self, child: Frame, t: &ShapeTable, host: &mut H) -> (r: Result<
        (),
        ReflectErrorKind,
    >)
        requires
            t.wf(),
            t.has(old(self)@.shape()),
            child@.fits(*t),
            old(self)@.tracker is List,
        ensures
            ({
                let a = item_ended(*t, old(self)@, child@, old(host).view());
                &&& final(self)@ == a.parent
                &&& final(host).view() == a.host
                &&& r == a.result
            }),
    {
        let shape = self.allocated.shape();
        if let Def::List(d) = &t.get(shape).def {
            if let FrameOwnership::RopeSlot = child.ownership {
                if let Tracker::List { rope: Some(rope), .. } = &mut self.tracker {
                    rope.mark_last_initialized();
                }
            } else {
                let f = match d.push {
                    Some(f) => f,
                    None => {
                        return refuse(shape, "List missing push function", child, t, host);
                    },
                };
                host.act(
                    MemOp::ListPush { f, list: self.data.addr, item: child.data.addr },
                );
                child.dealloc_moved(t, host);
            }
            self.tracker.clear_current_child();
        } else {
            child.dispose(t, host);
        }
        Ok(())
    }

    fn end_entry<H: Host>(&mut self, child: Frame, t: &ShapeTable, host: &mut H) -> (r: Result<
        (),
        ReflectErrorKind,
    >)
        requires
            t.wf(),
            child@.fits(*t),
            entry_ready(old(self)@, child@),
        ensures
            ({
                let a = entry_ended(*t, old(self)@, child@, old(host).view());
                &&& final(self)@ == a.parent
                &&& final(host).view() == a.host
                &&& r == a.result
            }),
    {
        let mut child = child;
        proof {
            lemma_filled_fits(child@, *t);
        }
        if let Tracker::MapOf { insert_state, pending_entries, .. } = &mut self.tracker {
            match *insert_state {
                MapInsertState::PushingKey { key_ptr } => {
                    if let Err(kind) = child.fill_defaults(t, host) {
                        return reject(child, kind, t, host);
                    }
                    pending_entries.push((key_ptr, None));
                    *insert_state = MapInsertState::PushingValue { key_ptr, value_ptr: None };
                },
                MapInsertState::PushingValue { value_ptr, .. } => {
                    if let Err(kind) = child.fill_defaults(t, host) {
                        return reject(child, kind, t, host);
                    }
                    match value_ptr {
                        Some(value) => {
                            let last: usize = pending_entries.len() - 1;
                            let key = pending_entries[last].0;
                            pending_entries.set(last, (key, Some(value)));
                            *insert_state = MapInsertState::Idle;
                        },
                        None => {
                            child.dispose(t, host);
                        },
                    }
                },
                MapInsertState::Idle => {
                    child.dispose(t, host);
                },
            }
        } else {
            child.dispose(t, host);
        }
        Ok(())
    }

    /// Puts an ended element into the set.
    pub fn end_element<H: Host>(&mut self, child: Frame, t: &ShapeTable, host: &mut H)
        requires
            t.wf(),
            t.has(old(self)@.shape()),
            child@.fits(*t),
        ensures
            ({
                let a = element_ended(*t, old(self)@, child@, old(host).view());
                &&& final(self)@ == a.parent
                &&& final(host).view() == a.host
            }),
    {
        if let Def::SetOf(d) = &t.get(self.allocated.shape()).def {
            host.act(
                MemOp::SetInsert {
                    f: d.insert,
                    set: self.data.addr,
                    item: child.data.addr,
                },
            );
            child.dealloc_moved(t, host);
            self.tracker = Tracker::SetOf { current_child: false };
        } else {
            child.dispose(t, host);
        }
    }

    fn end_some<H: Host>(&mut self, child: Frame, building_inner: bool, t: &ShapeTable, host: &mut H) -> (r:
        Result<(), ReflectErrorKind>)
        requires
            t.wf(),
            t.has(old(self)@.shape()),
            child@.fits(*t),
        ensures
            ({
                let a = some_ended(*t, old(self)@, child@, building_inner, old(host).view());
                &&& final(self)@ == a.parent
                &&& final(host).view() == a.host
                &&& r == a.result
            }),
    {
        let shape = self.allocated.shape();
        if !building_inner {
            child.dispose(t, host);
            return Ok(());
        }
        match &t.get(shape).def {
            Def::Option(_) => {
                self.tracker = Tracker::Option {
                    building_inner: false,
                    pending_inner: Some(child.data),
                };
                self.is_init = true;
                Ok(())
            },
            _ => refuse(shape, "Option frame without Option definition", child, t, host),
        }
    }

    fn end_result<H: Host>(
        &mut self,
        child: Frame,
        is_ok: bool,
        building_inner: bool,
        t: &ShapeTable,
        host: &mut H,
    ) -> (r: Result<(), ReflectErrorKind>)
        requires
            t.wf(),
            t.has(old(self)@.shape()),
            child@.fits(*t),
        ensures
            ({
                let a = result_ended(
                    *t,
                    old(self)@,
                    child@,
                    is_ok,
                    building_inner,
                    old(host).view(),
                );
                &&& final(self)@ == a.parent
                &&& final(host).view() == a.host
                &&& r == a.result
            }),
    {
        let shape = self.allocated.shape();
        if !building_inner {
            child.dispose(t, host);
            return Ok(());
        }
        match &t.get(shape).def {
            Def::Result(d) => {
                let dst = self.data.addr;
                let src = child.data.addr;
                if is_ok {
                    host.act(MemOp::InitOk { f: d.init_ok, dst, src });
                } else {
                    host.act(MemOp::InitErr { f: d.init_err, dst, src });
                }
                child.dealloc_moved(t, host);
                self.tracker = Tracker::Result { is_ok, building_inner: false };
                self.is_init = true;
                Ok(())
            },
            _ => refuse(shape, "Result frame without Result definition", child, t, host),
        }
    }

    fn end_string<H: Host>(&mut self, child: Frame, t: &ShapeTable, host: &mut H) -> (r: Result<
        (),
        ReflectErrorKind,
    >)
        requires
            t.wf(),
            old(self)@.fits(*t),
            child@.fits(*t),
        ensures
            ({
                let a = string_ended(*t, old(self)@, child@, old(host).view());
                &&& final(self)@ == a.parent
                &&& final(host).view() == a.host
                &&& r == a.result
            }),
    {
        let shape = self.allocated.shape();
        let def = match t.get(shape).def {
            Def::Pointer(def) => def,
            _ => {
                return refuse(
                    shape,
                    "end() called but parent has Uninit/Init tracker and isn't a SmartPointer",
                    child,
                    t,
                    host,
                );
            },
        };
        let broken = match def.pointee() {
            Some(pointee) => {
                if pointee != t.str_shape {
                    Some("only T=str is supported when building SmartPointer<T> and T is unsized")
                } else if child.allocated.shape() != t.string_shape {
                    Some("the popped frame should be String when building a SmartPointer<T>")
                } else {
                    None
                }
            },
            None => Some("pointer type doesn't have a pointee"),
        };
        if let Some(broken) = broken {
            let kind = ReflectErrorKind::InvariantViolation { invariant: broken };
            return reject(child, kind, t, host);
        }
        let mut child = child;
        proof {
            lemma_completed_fits(child@, *t);
        }
        if let Err(kind) = child.require_full_initialization(t, host) {
            return reject(child, kind, t, host);
        }
        let kind = match def.known {
            Some(k) => k,
            None => {
                return refuse(
                    shape,
                    "SmartPointerStr for unknown smart pointer kind",
                    child,
                    t,
                    host,
                );
            },
        };
        self.deinit(t, host);
        match kind {
            KnownPointer::Box | KnownPointer::Arc | KnownPointer::Rc => {
                host.act(
                    MemOp::StringInto { kind, dst: self.data.addr, src: child.data.addr },
                );
                self.is_init = true;
                child.dealloc_moved(t, host);
                Ok(())
            },
            _ => refuse(shape, "Don't know how to build this pointer type", child, t, host),
        }
    }

    fn end_slice_item<H: Host>(&mut self, child: Frame, t: &ShapeTable, host: &mut H)
        requires
            child@.allocated.wf(*t),
            old(self)@.tracker matches TrackerView::SmartPointerSlice { building_item, .. }
                && building_item,
        ensures
            ({
                let a = taken_over(*t, old(self)@, child@, false, old(host).view());
                &&& final(self)@ == a.parent
                &&& final(host).view() == a.host
            }),
    {
        if let Tracker::SmartPointerSlice { vtable, building_item, .. } = &mut self.tracker {
            host.act(
                MemOp::SlicePush {
                    f: vtable.push_fn,
                    builder: self.data.addr,
                    item: child.data.addr,
                },
            );
            *building_item = false;
        }
        child.dealloc_moved(t, host);
    }

    fn end_dynamic<H: Host>(&mut self, child: Frame, t: &ShapeTable, host: &mut H) -> (r: Result<
        (),
        ReflectErrorKind,
    >)
        requires
            t.wf(),
            t.has(old(self)@.shape()),
            child@.fits(*t),
            old(self)@.tracker is DynamicValue,
        ensures
            ({
                let a = taken_over(*t, old(self)@, child@, false, old(host).view());
                &&& final(self)@ == a.parent
                &&& final(host).view() == a.host
                &&& r == a.result
            }),
    {
        let shape = self.allocated.shape();
        let data = self.data.addr;
        if let Tracker::DynamicValue { state } = &mut self.tracker {
            match state {
                DynamicValueState::Array { building_element, .. } => {
                    if *building_element {
                        if !child.is_init {
                            *building_element = false;
                            return refuse(
                                shape,
                                "end() called but array element was never initialized",
                                child,
                                t,
                                host,
                            );
                        }
                        if let Def::DynamicValue(d) = &t.get(shape).def {
                            host.act(
                                MemOp::PushElement {
                                    f: d.push_array_element,
                                    array: data,
                                    item: child.data.addr,
                                },
                            );
                            child.dealloc_moved(t, host);
                            *building_element = false;
                            return Ok(());
                        }
                    }
                },
                DynamicValueState::Object { insert_state, .. } => {
                    let building = match insert_state {
                        DynamicObjectInsertState::BuildingValue { .. } => true,
                        DynamicObjectInsertState::Idle => false,
                    };
                    if building {
                        if !child.is_init {
                            *insert_state = DynamicObjectInsertState::Idle;
                            return refuse(
                                shape,
                                "end() called but object entry value was never initialized",
                                child,
                                t,
                                host,
                            );
                        }
                        if let Def::DynamicValue(d) = &t.get(shape).def {
                            let mut ended = DynamicObjectInsertState::Idle;
                            core::mem::swap(&mut ended, insert_state);
                            if let DynamicObjectInsertState::BuildingValue { key } = ended {
                                host.act(
                                    MemOp::InsertEntry {
                                        f: d.insert_object_entry,
                                        object: data,
                                        key,
                                        value: child.data.addr,
                                    },
                                );
                            }
                            child.dealloc_moved(t, host);
                            return Ok(());
                        }
                    }
                },
                _ => {},
            }
        }
        child.dispose(t, host);
        Ok(())
    }

    /// Takes over an ended child in the way that the tracker asks for.
    fn take_over<H: Host>(&mut self, child: Frame, deferred: bool, t: &ShapeTable, host: &mut H) -> (r:
        Result<(), ReflectErrorKind>)
        requires
            t.wf(),
            old(self)@.fits(*t),
            child@.fits(*t),
            old(self)@.is_init ==> entry_ready(old(self)@, child@),
        ensures
            ({
                let a = taken_over(*t, old(self)@, child@, deferred, old(host).view());
                &&& final(self)@ == a.parent
                &&& final(host).view() == a.host
                &&& r == a.result
            }),
    {
        let is_init = self.is_init;
        match &self.tracker {
            Tracker::SmartPointer { .. } => {
                return self.end_pointee(child, deferred, t, host);
            },
            Tracker::List { current_child, .. } => {
                if is_init && current_child.is_some() {
                    return self.end_item(child, t, host);
                }
            },
            Tracker::MapOf { .. } => {
                if is_init {
                    return self.end_entry(child, t, host);
                }
            },
            Tracker::SetOf { current_child } => {
                if is_init && *current_child {
                    self.end_element(child, t, host);
                    return Ok(());
                }
            },
            Tracker::Option { building_inner, .. } => {
                let building: bool = *building_inner;
                return self.end_some(child, building, t, host);
            },
            Tracker::Result { is_ok, building_inner } => {
                let ok: bool = *is_ok;
                let building: bool = *building_inner;
                return self.end_result(child, ok, building, t, host);
            },
            Tracker::Scalar => {
                return self.end_string(child, t, host);
            },
            Tracker::SmartPointerSlice { building_item, .. } => {
                if *building_item {
                    self.end_slice_item(child, t, host);
                    return Ok(());
                }
            },
            Tracker::DynamicValue { .. } => {
                return self.end_dynamic(child, t, host);
            },
            _ => {},
        }
        child.dispose(t, host);
        Ok(())
    }

    /// Ends a child: converts it, reclaims its field, or takes it over.
    pub fn attach<H: Host>(&mut self, child: Frame, deferred: bool, t: &ShapeTable, host: &mut H) -> (r:
        Result<(), ReflectErrorKind>)
        requires
            t.wf(),
            old(self)@.fits(*t),
            child@.fits(*t),
            old(self)@.is_init ==> entry_ready(old(self)@, child@),
        ensures
            ({
                let a = attached(*t, old(self)@, child@, deferred, old(host).view());
                &&& final(self)@ == a.parent
                &&& final(host).view() == a.host
                &&& r == a.result
            }),
    {
        if self.needs_conversion_from(&child, t) {
            return self.convert_from(child, t, host);
        }
        match child.ownership {
            FrameOwnership::Field { field_idx } => self.end_field(child, field_idx, t, host),
            FrameOwnership::BorrowedInPlace => {
                let mut child = child;
                proof {
                    lemma_completed_fits(child@, *t);
                }
                if let Err(kind) = child.require_full_initialization(t, host) {
                    return reject(child, kind, t, host);
                }
                self.take_over(child, deferred, t, host)
            },
            _ => self.take_over(child, deferred, t, host),
        }
    }
}

} // verus!
