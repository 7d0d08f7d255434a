//! Ending the current frame.
use vstd::prelude::*;

use crate::attach::{
    attached, element_ended, entry_ready, lemma_attached_stays, lemma_completed_fits,
    lemma_filled_fits, stays, with_insert_state,
};
use crate::deferred::{disposed, lemma_same_frames_wf, lemma_with_top, PartialOutcome};
use crate::error::{ReflectError, ReflectErrorKind, ReflectErrorView};
use crate::frame::{Frame, FrameOwnership, FrameView};
use crate::memory::{Addr, FnRef, Host, HostView, MemOp, PtrUninit};
use crate::partial::{frame_views, DeferredView, FrameMode, Partial, PartialView};
use crate::path::PathView;
use crate::plan::{FieldPlan, SliceRange, TypePlanCore, TypePlanNodeKind};
use crate::pool::{pool_of, same_frames, Pool};
use crate::shape::{Def, Layout, ShapeRef, ShapeTable};
use crate::stored::{find, inserted, lemma_inserted, StoredView};
use crate::tracker::{
    DynamicObjectInsertState, DynamicValueState, DynamicValueView, MapInsertState, Tracker,
    TrackerView,
};

verus! {

/// What setting a frame aside makes of all frames.
#[verifier::ext_equal]
pub struct PoolOutcome {
    pub pool: Pool,
    pub host: HostView,
    pub result: Result<(), ReflectErrorKind>,
}

impl FrameView {
    /// Operations by which a frame makes way for another one on the same part: one that owns its
    /// memory is disposed of, and of one on memory that the other is on now only what waits is.
    pub open spec fn supersede_ops(self, t: ShapeTable) -> Seq<MemOp> {
        if self.ownership.releases() {
            self.deinit_ops(t) + self.dealloc_ops(t)
        } else {
            self.drop_waiting_ops(t)
        }
    }
}

impl Pool {
    /// The same with another frame on top of the stack.
    pub open spec fn with_top(self, f: FrameView) -> Pool {
        Pool { stored: self.stored, stack: self.stack.update(self.stack.len() - 1, f) }
    }

    /// A frame whose parent is on top of the stack is set aside under a path, unless the parent
    /// dealt with it. It takes the place of a frame that was set aside there before.
    pub open spec fn set_aside(
        self,
        t: ShapeTable,
        path: PathView,
        child: FrameView,
        h: HostView,
    ) -> PoolOutcome {
        let a = parted(t, self.stack.last(), child, h);
        let pool = self.with_top(a.parent);
        PoolOutcome {
            pool: match a.parting {
                Parting::Stored => Pool {
                    stored: inserted(self.stored, path, child),
                    stack: pool.stack,
                },
                _ => pool,
            },
            host: match (a.parting, find(self.stored, path)) {
                (Parting::Stored, Some(i)) => a.host.plus(self.stored[i].frame.supersede_ops(t)),
                _ => a.host,
            },
            result: match a.parting {
                Parting::Failed(kind) => Err(kind),
                _ => Ok(()),
            },
        }
    }
}

/// What becomes of a frame that ends in deferred mode.
pub enum Parting {
    /// It is set aside.
    Stored,
    /// It was dealt with.
    Settled,
    /// It could not be completed.
    Failed(ReflectErrorKind),
}

/// What a frame that ends in deferred mode leaves behind.
#[verifier::ext_equal]
pub struct Parted {
    pub parent: FrameView,
    pub host: HostView,
    pub parting: Parting,
}

/// The parent of a child that is set aside, ready for the next key, value or item.
pub open spec fn advanced(parent: FrameView) -> FrameView {
    let f = match parent.tracker {
        TrackerView::MapOf { insert_state, .. } => with_insert_state(
            parent,
            match insert_state {
                MapInsertState::PushingKey { key_ptr } => MapInsertState::PushingValue {
                    key_ptr,
                    value_ptr: None,
                },
                _ => MapInsertState::Idle,
            },
        ),
        TrackerView::SmartPointerSlice { vtable, current_child, .. } => FrameView {
            tracker: TrackerView::SmartPointerSlice { vtable, building_item: false, current_child },
            ..parent
        },
        _ => parent,
    };
    FrameView { tracker: f.tracker.without_child(), ..parent }
}

/// A finished part of a dynamic value waits in its parent.
pub open spec fn joined(
    t: ShapeTable,
    parent: FrameView,
    child: FrameView,
    state: DynamicValueView,
    h: HostView,
) -> Parted {
    let done = child.completed(t);
    let h1 = h.plus(done.ops);
    match done.result {
        Err(kind) => Parted {
            parent,
            host: disposed(t, done.frame, h1),
            parting: Parting::Failed(kind),
        },
        Ok(_) => Parted {
            parent: FrameView { tracker: TrackerView::DynamicValue { state }, ..parent },
            host: h1,
            parting: Parting::Settled,
        },
    }
}

/// An element of a set ends in deferred mode: it is completed, and goes into the set at once.
pub open spec fn parted_element(
    t: ShapeTable,
    parent: FrameView,
    child: FrameView,
    h: HostView,
) -> Parted {
    let filled = child.filled(t);
    let h1 = h.plus(filled.ops);
    let done = filled.frame.completed(t);
    let h2 = h1.plus(done.ops);
    match (filled.result, done.result) {
        (Err(kind), _) => Parted {
            parent,
            host: disposed(t, filled.frame, h1),
            parting: Parting::Failed(kind),
        },
        (Ok(_), Err(kind)) => Parted {
            parent,
            host: disposed(t, done.frame, h2),
            parting: Parting::Failed(kind),
        },
        (Ok(_), Ok(_)) => {
            let a = element_ended(t, parent, done.frame, h2);
            Parted { parent: a.parent, host: a.host, parting: Parting::Settled }
        },
    }
}

/// A child of a dynamic value ends in deferred mode.
pub open spec fn parted_dynamic(
    t: ShapeTable,
    parent: FrameView,
    state: DynamicValueView,
    child: FrameView,
    h: HostView,
) -> Parted {
    match state {
        DynamicValueView::Object {
            insert_state: DynamicObjectInsertState::BuildingValue { key },
            pending_entries,
        } => joined(
            t,
            parent,
            child,
            DynamicValueView::Object {
                insert_state: DynamicObjectInsertState::Idle,
                pending_entries: pending_entries.push((key, child.data)),
            },
            h,
        ),
        DynamicValueView::Array { building_element: true, pending_elements } => joined(
            t,
            parent,
            child,
            DynamicValueView::Array {
                building_element: false,
                pending_elements: pending_elements.push(child.data),
            },
            h,
        ),
        _ => Parted { parent: advanced(parent), host: h, parting: Parting::Stored },
    }
}

/// A child ends in deferred mode.
///
/// The parent counts a field as initialized, and is ready for the next key, value or item. What
/// cannot be entered again is not set aside: an entry of an existing collection is completed
/// where it is, an element of a set is completed and inserted at once, and a finished part of a
/// dynamic value waits in its parent.
pub open spec fn parted(t: ShapeTable, below: FrameView, child: FrameView, h: HostView) -> Parted {
    let parent = match child.ownership {
        FrameOwnership::Field { field_idx } => below.with_field(t, field_idx),
        _ => below,
    };
    if child.ownership is BorrowedInPlace {
        let done = child.completed(t);
        let h1 = h.plus(done.ops);
        match done.result {
            Ok(_) => Parted { parent, host: h1, parting: Parting::Settled },
            Err(kind) => Parted {
                parent,
                host: disposed(t, done.frame, h1),
                parting: Parting::Failed(kind),
            },
        }
    } else {
        match parent.tracker {
            TrackerView::DynamicValue { state } => parted_dynamic(t, parent, state, child, h),
            TrackerView::SetOf { current_child: true } => if parent.is_init && t.at(
                parent.shape(),
            ).def is SetOf {
                parted_element(t, parent, child, h)
            } else {
                Parted { parent: advanced(parent), host: h, parting: Parting::Stored }
            },
            _ => Parted { parent: advanced(parent), host: h, parting: Parting::Stored },
        }
    }
}

/// The parent of a slice that is a field must be a struct.
pub open spec fn slice_parent_error() -> ReflectErrorKind {
    ReflectErrorKind::InvariantViolation {
        invariant: "SmartPointerSlice field frame parent must be a struct",
    }
}

/// A slice pointer has no place in a frame of this ownership.
pub open spec fn slice_ownership_error() -> ReflectErrorKind {
    ReflectErrorKind::InvariantViolation {
        invariant: "SmartPointerSlice cannot have TrackedBuffer/BorrowedInPlace/External/RopeSlot ownership after conversion",
    }
}

/// A slice pointer must be sized.
pub open spec fn slice_unsized_error(shape: ShapeRef) -> ReflectErrorKind {
    ReflectErrorKind::Unsized {
        shape,
        operation: "SmartPointerSlice conversion requires sized Arc",
    }
}

/// The conversion by which a proxy is turned into its parent: the one that came with the proxy,
/// or that of the field in which the parent lies.
pub open spec fn proxy_conversion(t: ShapeTable, below: Seq<FrameView>, child: FrameView) -> Option<
    FnRef,
> {
    if !child.using_custom_deserialization {
        None
    } else {
        match child.shape_level_proxy {
            Some(p) => Some(p.convert_in),
            None => if below.len() >= 2 {
                match below[below.len() - 2].field(t) {
                    Some(f) => match f.proxy {
                        Some(p) => Some(p.convert_in),
                        None => None,
                    },
                    None => None,
                }
            } else {
                None
            },
        }
    }
}

impl PartialView {
    /// Success.
    pub open spec fn ok(self, h: HostView) -> PartialOutcome {
        PartialOutcome { partial: self, host: h, result: Ok(()) }
    }

    /// An error at the current frame.
    pub open spec fn failing(self, t: ShapeTable, h: HostView, kind: ReflectErrorKind) -> PartialOutcome {
        PartialOutcome { partial: self, host: h, result: Err(self.err(t, kind)) }
    }

    /// The current frame is a slice builder that is not working on an item.
    pub open spec fn at_slice_end(self) -> bool {
        self.top().tracker matches TrackerView::SmartPointerSlice { building_item, .. }
            && !building_item
    }

    /// The items of a slice have ended: the builder is turned into a pointer, which the next
    /// `end` will end. In deferred mode this is left to the end of deferred mode.
    pub open spec fn slice_ended(self, t: ShapeTable, h: HostView) -> PartialOutcome {
        let f = self.top();
        let vtable = f.tracker->SmartPointerSlice_vtable;
        let made = Addr::start(self.next_buffer);
        let h1 = h.after(
            MemOp::SliceConvert {
                f: vtable.convert_fn,
                builder: f.data.addr,
                buf: self.next_buffer,
            },
        );
        let p1 = PartialView { next_buffer: self.next_buffer.wrapping_add(1), ..self };
        if self.deferred is Some {
            self.with_top(
                FrameView {
                    tracker: TrackerView::SmartPointerSlice {
                        vtable,
                        building_item: true,
                        current_child: f.tracker->SmartPointerSlice_current_child,
                    },
                    ..f
                },
            ).ok(h)
        } else {
            match (f.ownership, t.sized(f.shape())) {
                (FrameOwnership::Field { field_idx }, sized) => {
                    let parent = self.stack[self.stack.len() - 2];
                    if !t.is_struct(parent.shape()) {
                        self.failing(t, h, slice_parent_error())
                    } else {
                        let dst = parent.data.addr.field(
                            t.struct_fields(parent.shape())[field_idx as int].offset,
                        );
                        match sized {
                            None => self.failing(t, h, slice_unsized_error(f.shape())),
                            Some(layout) => p1.with_top(
                                f.placed(PtrUninit { addr: dst }, layout),
                            ).ok(
                                h1.after(
                                    MemOp::Copy { src: made, dst, size: layout.size },
                                ).after(MemOp::Dealloc { at: made, layout }),
                            ),
                        }
                    }
                },
                (FrameOwnership::Owned, Some(layout)) => p1.with_top(
                    f.placed(PtrUninit { addr: made }, layout),
                ).ok(h1),
                (FrameOwnership::Owned, None) => self.failing(
                    t,
                    h,
                    slice_unsized_error(f.shape()),
                ),
                _ => self.failing(t, h, slice_ownership_error()),
            }
        }
    }

    /// The field plans for the current frame, where its plan node has them.
    pub open spec fn top_plans(self, plan: TypePlanCore) -> Option<SliceRange> {
        match plan.node_at(self.top().type_plan).kind {
            TypePlanNodeKind::Struct(p) => Some(p.fields),
            TypePlanNodeKind::Enum(p) => match self.top().tracker {
                TrackerView::Enum { variant_idx, .. } => if variant_idx < p.variants.len {
                    Some(plan.variants_in(p.variants)[variant_idx as int].fields)
                } else {
                    None
                },
                _ => None,
            },
            _ => None,
        }
    }

    /// The current frame is completed: by the field plans, or else by defaults and by moving into
    /// place whatever waits.
    pub open spec fn top_completed(self, plan: TypePlanCore, h: HostView) -> PartialOutcome {
        let t = plan.shapes;
        match self.top_plans(plan) {
            Some(range) => {
                let plans = plan.fields_in(range);
                let r = self.top().fill_and_require(plan, plans, range.len, h);
                let p = self.with_top(r.frame);
                match r.result {
                    Ok(_) => p.ok(r.host),
                    Err(kind) => p.failing(t, r.host, kind),
                }
            },
            None => self.top_finished(t, h),
        }
    }

    /// The current frame is popped, and its parent is converted from it or takes it over.
    pub open spec fn handed_over(self, t: ShapeTable, h: HostView) -> PartialOutcome {
        let child = self.top();
        let p = self.popped();
        let parent = p.top();
        match proxy_conversion(t, p.stack, child) {
            Some(f) => {
                let a = parent.from_proxy(t, child, f, h);
                let q = p.with_top(a.frame);
                match a.result {
                    Ok(_) => q.ok(a.host),
                    Err(kind) => q.failing(t, a.host, kind),
                }
            },
            None => {
                let a = attached(t, parent, child, self.deferred is Some, h);
                let q = p.with_top(a.parent);
                match a.result {
                    Ok(_) => q.ok(a.host),
                    Err(kind) => q.failing(t, a.host, kind),
                }
            },
        }
    }

    /// The current frame is popped and set aside.
    pub open spec fn put_aside(self, t: ShapeTable, h: HostView) -> PartialOutcome {
        let path = self.storage_path(t);
        let r = self.popped().pool().set_aside(t, path, self.top(), h);
        let p = PartialView {
            stack: r.pool.stack,
            deferred: Some(
                DeferredView { start_depth: self.deferred->0.start_depth, stored: r.pool.stored },
            ),
            ..self
        };
        PartialOutcome {
            partial: p,
            host: r.host,
            result: match r.result {
                Ok(_) => Ok(()),
                Err(kind) => Err(ReflectErrorView { kind, path }),
            },
        }
    }

    /// The current frame would be set aside if it ended.
    pub open spec fn sets_aside(self, t: ShapeTable) -> bool {
        self.deferred is Some && self.storage_path(t).steps.len() > 0
    }

    /// The current frame ends.
    ///
    /// The items of a slice end first. The root frame never ends, nor do the frames that were
    /// there when deferred mode began. In deferred mode the frame is set aside under the path that
    /// leads to it, if there is one. Otherwise it is completed, and handed to its parent.
    pub open spec fn ended(self, plan: TypePlanCore, h: HostView) -> PartialOutcome {
        let t = plan.shapes;
        if self.at_slice_end() {
            self.slice_ended(t, h)
        } else if self.stack.len() <= 1 {
            self.failing(
                t,
                h,
                ReflectErrorKind::InvariantViolation {
                    invariant: "Partial::end() called with only one frame on the stack",
                },
            )
        } else {
            let c = self.top_completed(plan, h);
            if self.deferred matches Some(d) && self.stack.len() <= d.start_depth {
                self.failing(
                    t,
                    h,
                    ReflectErrorKind::InvariantViolation {
                        invariant: "Partial::end() called but would pop below deferred start depth",
                    },
                )
            } else if self.sets_aside(t) {
                self.put_aside(t, h)
            } else {
                match c.result {
                    Ok(_) => c.partial.handed_over(t, c.host),
                    Err(_) => c,
                }
            }
        }
    }

    /// The current frame would be handed to its parent if it ended: it is not the root, the items
    /// of a slice have not just ended, and it is not there since deferred mode began, nor set
    /// aside, nor a proxy.
    pub open spec fn hands_over(self, t: ShapeTable) -> bool {
        &&& self.stack.len() >= 2
        &&& !self.at_slice_end()
        &&& self.deferred matches Some(d) ==> self.stack.len() > d.start_depth
        &&& !self.sets_aside(t)
        &&& proxy_conversion(t, self.popped().stack, self.top()) is None
    }

    /// A map to which the current frame is handed over keeps the memory of that frame, and has an
    /// entry that waits for a value.
    pub open spec fn endable(self, t: ShapeTable) -> bool {
        self.hands_over(t) ==> {
            let parent = self.stack[self.stack.len() - 2];
            parent.is_init ==> entry_ready(parent, self.top())
        }
    }
}

/// Whether a frame that ended in deferred mode is to be set aside agrees with `parting`.
pub open spec fn parts_as(
    r: Result<Option<Frame>, ReflectErrorKind>,
    parting: Parting,
    child: Frame,
) -> bool {
    match parting {
        Parting::Stored => r == Ok::<Option<Frame>, ReflectErrorKind>(Some(child)),
        Parting::Settled => r == Ok::<Option<Frame>, ReflectErrorKind>(None),
        Parting::Failed(kind) => r == Err::<Option<Frame>, ReflectErrorKind>(kind),
    }
}

impl Frame {
    /// Makes the parent of a child that is set aside ready for the next one.
    fn advance(&mut self)
        ensures
            final(self)@ == advanced(old(self)@),
    {
        match &mut self.tracker {
            Tracker::MapOf { insert_state, .. } => {
                *insert_state = match *insert_state {
                    MapInsertState::PushingKey { key_ptr } => MapInsertState::PushingValue {
                        key_ptr,
                        value_ptr: None,
                    },
                    _ => MapInsertState::Idle,
                };
            },
            Tracker::SmartPointerSlice { building_item, .. } => {
                *building_item = false;
            },
            _ => {},
        }
        self.tracker.clear_current_child();
    }

    /// Makes way for another frame on the same part.
    fn supersede<H: Host>(self, t: &ShapeTable, host: &mut H)
        requires
            t.wf(),
            self@.fits(*t),
        ensures
            final(host).view() == old(host).view().plus(self@.supersede_ops(*t)),
    {
        if self.ownership.needs_dealloc() {
            self.dispose(t, host);
        } else {
            self.drop_waiting(t, host);
        }
    }

    fn part_dynamic<H: Host>(&mut self, child: Frame, t: &ShapeTable, host: &mut H) -> (r: Result<
        Option<Frame>,
        ReflectErrorKind,
    >)
        requires
            t.wf(),
            old(self)@.tracker is DynamicValue,
            child@.fits(*t),
        ensures
            ({
                let a = parted_dynamic(
                    *t,
                    old(self)@,
                    old(self)@.tracker->DynamicValue_state,
                    child@,
                    old(host).view(),
                );
                &&& final(self)@ == a.parent
                &&& final(host).view() == a.host
                &&& parts_as(r, a.parting, child)
            }),
    {
        if let Tracker::DynamicValue { state } = &mut self.tracker {
            match state {
                DynamicValueState::Object { insert_state, pending_entries } => {
                    let building = match insert_state {
                        DynamicObjectInsertState::BuildingValue { .. } => true,
                        DynamicObjectInsertState::Idle => false,
                    };
                    if building {
                        let mut child = child;
                        proof {
                            lemma_completed_fits(child@, *t);
                        }
                        if let Err(kind) = child.require_full_initialization(t, host) {
                            child.dispose(t, host);
                            return Err(kind);
                        }
                        let mut ended = DynamicObjectInsertState::Idle;
                        core::mem::swap(&mut ended, insert_state);
                        if let DynamicObjectInsertState::BuildingValue { key } = ended {
                            pending_entries.push((key, child.data));
                        }
                        return Ok(None);
                    }
                },
                DynamicValueState::Array { building_element, pending_elements } => {
                    if *building_element {
                        let mut child = child;
                        proof {
                            lemma_completed_fits(child@, *t);
                        }
                        if let Err(kind) = child.require_full_initialization(t, host) {
                            child.dispose(t, host);
                            return Err(kind);
                        }
                        pending_elements.push(child.data);
                        *building_element = false;
                        return Ok(None);
                    }
                },
                _ => {},
            }
        }
        self.advance();
        Ok(Some(child))
    }

    /// Ends a child in deferred mode. The child is handed back if it is to be set aside.
    fn part<H: Host>(&mut self, child: Frame, t: &ShapeTable, host: &mut H) -> (r: Result<
        Option<Frame>,
        ReflectErrorKind,
    >)
        requires
            t.wf(),
            old(self)@.fits(*t),
            child@.fits(*t),
        ensures
            ({
                let a = parted(*t, old(self)@, child@, old(host).view());
                &&& final(self)@ == a.parent
                &&& final(host).view() == a.host
                &&& parts_as(r, a.parting, child)
            }),
    {
        if let FrameOwnership::BorrowedInPlace = child.ownership {
            let mut child = child;
            proof {
                lemma_completed_fits(child@, *t);
            }
            return match child.require_full_initialization(t, host) {
                Ok(_) => Ok(None),
                Err(kind) => {
                    child.dispose(t, host);
                    Err(kind)
                },
            };
        }
        if let FrameOwnership::Field { field_idx } = child.ownership {
            self.mark_field_initialized_by_index(t, field_idx);
        }
        match self.tracker {
            Tracker::DynamicValue { .. } => self.part_dynamic(child, t, host),
            Tracker::SetOf { current_child } => {
                let is_set = match &t.get(self.allocated.shape()).def {
                    Def::SetOf(_) => true,
                    _ => false,
                };
                if current_child && self.is_init && is_set {
                    let mut child = child;
                    proof {
                        lemma_filled_fits(child@, *t);
                        lemma_completed_fits(child@.filled(*t).frame, *t);
                    }
                    if let Err(kind) = child.fill_defaults(t, host) {
                        child.dispose(t, host);
                        return Err(kind);
                    }
                    if let Err(kind) = child.require_full_initialization(t, host) {
                        child.dispose(t, host);
                        return Err(kind);
                    }
                    self.end_element(child, t, host);
                    return Ok(None);
                }
                self.advance();
                Ok(Some(child))
            },
            _ => {
                self.advance();
                Ok(Some(child))
            },
        }
    }
}

/// The parent of a frame that ends in deferred mode stays within its plan.
proof fn lemma_parted_stays(plan: TypePlanCore, parent: FrameView, child: FrameView, h: HostView)
    requires
        parent.wf(plan),
    ensures
        stays(plan, parent, parted(plan.shapes, parent, child, h).parent),
{
}

/// The error for a slice that is a field of something other than a struct.
fn slice_without_struct() -> (r: ReflectErrorKind)
    ensures
        r == slice_parent_error(),
{
    ReflectErrorKind::InvariantViolation {
        invariant: "SmartPointerSlice field frame parent must be a struct",
    }
}

/// The error for a slice in a frame that has no place for the pointer.
fn slice_without_place() -> (r: ReflectErrorKind)
    ensures
        r == slice_ownership_error(),
{
    ReflectErrorKind::InvariantViolation {
        invariant: "SmartPointerSlice cannot have TrackedBuffer/BorrowedInPlace/External/RopeSlot ownership after conversion",
    }
}

/// The error for a slice pointer that is not sized.
fn slice_without_size(shape: ShapeRef) -> (r: ReflectErrorKind)
    ensures
        r == slice_unsized_error(shape),
{
    ReflectErrorKind::Unsized {
        shape,
        operation: "SmartPointerSlice conversion requires sized Arc",
    }
}

impl<'facet, const BORROW: bool> Partial<'facet, BORROW> {
    /// Pops the current frame in deferred mode, and sets it aside under the path that leads to
    /// it.
    fn put_aside<H: Host>(&mut self, host: &mut H) -> (r: Result<(), ReflectError>)
        requires
            old(self).wf(),
            old(self)@.deferred is Some,
            old(self)@.stack.len() >= 2,
        ensures
            ({
                let o = old(self)@.put_aside(old(self).shapes(), old(host).view());
                &&& final(self)@ == o.partial
                &&& final(host).view() == o.host
                &&& agrees(r, o.result)
            }),
            final(self).root_plan == old(self).root_plan,
            final(self).wf(),
    {
        let plan = self.root_plan;
        let t = &plan.shapes;
        let ghost p0 = self@;
        let path = self.storage_path();
        if let FrameMode::Deferred { stack, stored_frames, .. } = &mut self.mode {
            let ghost frames = stack@;
            assert(frame_views(frames) == p0.stack);
            let child = match stack.pop() {
                Some(f) => f,
                None => vstd::pervasive::unreached(),
            };
            assert(child@ == p0.top());
            assert(p0.stack[p0.stack.len() - 1].wf(*plan));
            let top: usize = stack.len() - 1;
            assert(stack@[top as int]@ == p0.popped().top());
            assert(p0.stack[p0.stack.len() - 2].wf(*plan));
            let ghost below = p0.popped().top();
            let ghost pool = p0.popped().pool();
            assert(pool_of(*stored_frames, *stack) =~= pool);
            let ghost h0 = host.view();
            let ended = stack[top].part(child, t, host);
            proof {
                lemma_parted_stays(*plan, below, child@, h0);
                lemma_put_aside_wf(p0, *plan, path@, h0);
            }
            assert(frame_views(stack@) =~= pool.with_top(
                parted(*t, below, child@, h0).parent,
            ).stack);
            match ended {
                Ok(Some(child)) => {
                    if let Some(superseded) = stored_frames.insert(path, child) {
                        superseded.supersede(t, host);
                    }
                    Ok(())
                },
                Ok(None) => Ok(()),
                Err(kind) => Err(ReflectError::new(kind, path)),
            }
        } else {
            vstd::pervasive::unreached()
        }
    }
}

/// The result agrees with what was to come out.
pub open spec fn agrees(r: Result<(), ReflectError>, expected: Result<(), ReflectErrorView>) -> bool {
    match expected {
        Ok(_) => r is Ok,
        Err(e) => r matches Err(x) && x@ == e,
    }
}

/// Completing the frame by its field plans keeps it within its plan.
pub proof fn lemma_fill_and_require_wf(
    f: FrameView,
    plan: TypePlanCore,
    plans: Seq<FieldPlan>,
    n: usize,
    h: HostView,
)
    requires
        f.wf(plan),
    ensures
        stays(plan, f, f.fill_and_require(plan, plans, n, h).frame),
{
    reveal(FrameView::fill_and_require);
}

impl<'facet, const BORROW: bool> Partial<'facet, BORROW> {
    /// Ends the items of a slice: turns the builder into the pointer that it builds.
    fn end_slice<H: Host>(&mut self, host: &mut H) -> (r: Result<(), ReflectError>)
        requires
            old(self).wf(),
            old(self)@.at_slice_end(),
        ensures
            ({
                let o = old(self)@.slice_ended(old(self).shapes(), old(host).view());
                &&& final(self)@ == o.partial
                &&& final(host).view() == o.host
                &&& agrees(r, o.result)
            }),
            final(self).root_plan == old(self).root_plan,
            final(self).wf(),
    {
        let plan = self.root_plan;
        let t = &plan.shapes;
        let ghost p0 = self@;
        let top: usize = self.frames().len() - 1;
        assert(p0.stack[top as int] == self.mode.spec_stack()@[top as int]@);
        assert(p0.stack[top as int].wf(*plan) && p0.field_frame_ok(*t, top as int));
        if self.is_deferred() {
            if let Tracker::SmartPointerSlice { building_item, .. } = &mut self.mode.stack_mut()[top].tracker {
                *building_item = true;
            }
            proof {
                lemma_with_top(p0, *plan, p0.slice_ended(*t, host.view()).partial.top());
            }
            assert(self@ =~= p0.slice_ended(*t, host.view()).partial);
            return Ok(());
        }
        assert(t.shape_ok(t.shapes@[p0.top().shape().id as int]));
        let (convert_fn, ownership, shape, builder) = {
            let f = &self.frames()[top];
            let convert_fn = match &f.tracker {
                Tracker::SmartPointerSlice { vtable, .. } => vtable.convert_fn,
                _ => vstd::pervasive::unreached(),
            };
            (convert_fn, f.ownership, f.allocated.shape(), f.data.addr)
        };
        let dst = match ownership {
            FrameOwnership::Field { field_idx } => {
                assert(p0.stack[top - 1] == self.mode.spec_stack()@[top - 1]@);
                assert(p0.stack[top - 1].wf(*plan));
                let parent = &self.frames()[top - 1];
                match t.struct_type(parent.allocated.shape()) {
                    Some(st) => Some(parent.data.addr.field(st.fields[field_idx].offset)),
                    None => {
                        return Err(self.err(slice_without_struct()));
                    },
                }
            },
            FrameOwnership::Owned => None,
            _ => {
                return Err(self.err(slice_without_place()));
            },
        };
        let layout = match t.sized_layout(shape) {
            Some(l) => l,
            None => {
                return Err(self.err(slice_without_size(shape)));
            },
        };
        let buf: u64 = self.next_buffer;
        self.next_buffer = buf.wrapping_add(1);
        proof {
            lemma_same_frames_wf(p0, self@, *plan);
        }
        host.act(MemOp::SliceConvert { f: convert_fn, builder, buf });
        let made = Addr::start(buf);
        match dst {
            Some(dst) => {
                host.act(MemOp::Copy { src: made, dst, size: layout.size });
                host.act(MemOp::Dealloc { at: made, layout });
                self.replace_top(PtrUninit { addr: dst }, layout);
            },
            None => {
                self.replace_top(PtrUninit { addr: made }, layout);
            },
        }
        Ok(())
    }

    /// The current frame now is an initialized value elsewhere.
    fn replace_top(&mut self, data: PtrUninit, layout: Layout)
        requires
            old(self).wf(),
            old(self).shapes().sized(old(self)@.top().shape()) == Some(layout),
        ensures
            final(self)@ == old(self)@.with_top(old(self)@.top().placed(data, layout)),
            final(self).root_plan == old(self).root_plan,
            final(self).wf(),
    {
        let ghost p0 = self@;
        let top: usize = self.frames().len() - 1;
        assert(p0.stack[top as int] == self.mode.spec_stack()@[top as int]@);
        assert(p0.stack[top as int].wf(*self.root_plan));
        assert(self.shapes().shape_ok(self.shapes().shapes@[p0.top().shape().id as int]));
        self.mode.stack_mut()[top].place(data, layout);
        let ghost f1 = p0.top().placed(data, layout);
        proof {
            lemma_with_top(p0, *self.root_plan, f1);
        }
        assert(self@ =~= p0.with_top(f1));
    }

    /// The field plans for the current frame.
    pub fn top_plans(&self) -> (r: Option<SliceRange>)
        requires
            self.wf(),
        ensures
            r == self@.top_plans(*self.root_plan),
            r matches Some(range) ==> range.fits(self.root_plan.field_plans@.len()),
    {
        let plan = self.root_plan;
        let top: usize = self.frames().len() - 1;
        assert(self@.stack[top as int] == self.mode.spec_stack()@[top as int]@);
        assert(self@.stack[top as int].wf(*plan));
        let frame = &self.frames()[top];
        let node = plan.node(frame.type_plan);
        assert(plan.node_ok(plan.nodes@[frame.type_plan.index as int]));
        match &node.kind {
            TypePlanNodeKind::Struct(p) => Some(p.fields),
            TypePlanNodeKind::Enum(p) => match &frame.tracker {
                Tracker::Enum { variant_idx, .. } => {
                    let variants = plan.variants(p.variants);
                    if *variant_idx < variants.len() {
                        assert(variants@[*variant_idx as int] == plan.variant_plans@[p.variants.start
                            + *variant_idx as int]);
                        Some(variants[*variant_idx].fields)
                    } else {
                        None
                    }
                },
                _ => None,
            },
            _ => None,
        }
    }

    /// Completes the current frame before it is popped.
    fn complete_top<H: Host>(&mut self, host: &mut H) -> (r: Result<(), ReflectError>)
        requires
            old(self).wf(),
        ensures
            ({
                let o = old(self)@.top_completed(*old(self).root_plan, old(host).view());
                &&& final(self)@ == o.partial
                &&& final(host).view() == o.host
                &&& agrees(r, o.result)
            }),
            final(self).root_plan == old(self).root_plan,
            final(self).wf(),
    {
        let plan = self.root_plan;
        let ghost p0 = self@;
        let ghost f0 = p0.top();
        let ghost h0 = host.view();
        let top: usize = self.frames().len() - 1;
        assert(f0 == self.mode.spec_stack()@[top as int]@);
        assert(p0.stack[top as int].wf(*plan));
        match self.top_plans() {
            Some(range) => {
                let plans = plan.fields(range);
                assert(plan.plans_ok(plans@)) by {
                    assert forall|i: int| #![trigger plans@[i]] 0 <= i < plans@.len() implies plans@[i]
                        == plan.field_plans@[range.start + i] by {}
                }
                let done = self.mode.stack_mut()[top].fill_and_require_fields(
                    plans,
                    plans.len(),
                    plan,
                    host,
                );
                let ghost f1 = f0.fill_and_require(*plan, plans@, range.len, h0).frame;
                proof {
                    lemma_fill_and_require_wf(f0, *plan, plans@, range.len, h0);
                    lemma_with_top(p0, *plan, f1);
                }
                assert(self@ =~= p0.with_top(f1));
                match done {
                    Ok(_) => Ok(()),
                    Err(kind) => Err(self.err(kind)),
                }
            },
            None => self.finish_top_in_place(host),
        }
    }

    /// The conversion by which an ended proxy is turned into the current frame.
    fn proxy_conversion(&self, child: &Frame) -> (r: Option<FnRef>)
        requires
            self.wf(),
        ensures
            r == proxy_conversion(self.shapes(), self@.stack, child@),
    {
        if !child.using_custom_deserialization {
            return None;
        }
        if let Some(p) = child.shape_level_proxy {
            return Some(p.convert_in);
        }
        match self.parent_field() {
            Some(f) => match f.proxy {
                Some(p) => Some(p.convert_in),
                None => None,
            },
            None => None,
        }
    }

    /// Pops the current frame, and lets its parent be converted from it or take it over.
    fn hand_over<H: Host>(&mut self, host: &mut H) -> (r: Result<(), ReflectError>)
        requires
            old(self).wf(),
            old(self)@.stack.len() >= 2,
            proxy_conversion(old(self).shapes(), old(self)@.popped().stack, old(self)@.top()) is None
                ==> ({
                let parent = old(self)@.stack[old(self)@.stack.len() - 2];
                parent.is_init ==> entry_ready(parent, old(self)@.top())
            }),
        ensures
            ({
                let o = old(self)@.handed_over(old(self).shapes(), old(host).view());
                &&& final(self)@ == o.partial
                &&& final(host).view() == o.host
                &&& agrees(r, o.result)
            }),
            final(self).root_plan == old(self).root_plan,
            final(self).wf(),
    {
        let plan = self.root_plan;
        let t = &plan.shapes;
        let ghost p0 = self@;
        let ghost h0 = host.view();
        let deferred = self.is_deferred();
        assert(p0.stack[p0.stack.len() - 1].wf(*plan));
        assert(p0.stack[p0.stack.len() - 2].wf(*plan));
        let ghost frames = self.mode.spec_stack()@;
        assert(frame_views(frames) == p0.stack);
        let child = match self.mode.stack_mut().pop() {
            Some(f) => f,
            None => vstd::pervasive::unreached(),
        };
        assert(child@ == p0.top());
        let ghost p1 = p0.popped();
        assert(self@ =~= p1);
        proof {
            lemma_popped_wf(p0, *plan);
        }
        let top: usize = self.frames().len() - 1;
        assert(p1.top() == self.mode.spec_stack()@[top as int]@);
        if let Some(f) = self.proxy_conversion(&child) {
            let ghost a = p1.top().from_proxy(*t, child@, f, h0);
            proof {
                lemma_with_top(p1, *plan, a.frame);
            }
            let done = self.mode.stack_mut()[top].convert_proxy(child, f, t, host);
            assert(self@ =~= p1.with_top(a.frame));
            return match done {
                Ok(_) => Ok(()),
                Err(kind) => Err(self.err(kind)),
            };
        }
        let ghost a = attached(*t, p1.top(), child@, deferred, h0);
        proof {
            lemma_attached_stays(*plan, p1.top(), child@, deferred, h0);
            lemma_with_top(p1, *plan, a.parent);
        }
        let done = self.mode.stack_mut()[top].attach(child, deferred, t, host);
        assert(self@ =~= p1.with_top(a.parent));
        match done {
            Ok(_) => Ok(()),
            Err(kind) => Err(self.err(kind)),
        }
    }

    /// Ends the current frame in place. On an error the value is left as it is, to be given up.
    fn end_in_place<H: Host>(&mut self, host: &mut H) -> (r: Result<(), ReflectError>)
        requires
            old(self).wf(),
            old(self)@.endable(old(self).shapes()),
        ensures
            ({
                let o = old(self)@.ended(*old(self).root_plan, old(host).view());
                &&& final(self)@ == o.partial
                &&& final(host).view() == o.host
                &&& agrees(r, o.result)
            }),
            final(self).root_plan == old(self).root_plan,
            final(self).wf(),
    {
        let n: usize = self.frames().len();
        assert(self@.stack[n - 1] == self.mode.spec_stack()@[n - 1]@);
        let slice_end = match &self.frames()[n - 1].tracker {
            Tracker::SmartPointerSlice { building_item, .. } => !*building_item,
            _ => false,
        };
        if slice_end {
            return self.end_slice(host);
        }
        if n <= 1 {
            return Err(
                self.err(
                    ReflectErrorKind::InvariantViolation {
                        invariant: "Partial::end() called with only one frame on the stack",
                    },
                ),
            );
        }
        match self.start_depth() {
            Some(start_depth) => {
                if n <= start_depth {
                    return Err(
                        self.err(
                            ReflectErrorKind::InvariantViolation {
                                invariant: "Partial::end() called but would pop below deferred start depth",
                            },
                        ),
                    );
                }
                if self.storage_path().len() > 0 {
                    return self.put_aside(host);
                }
            },
            None => {},
        }
        proof {
            lemma_top_completed_frames(self@, *self.root_plan, host.view());
        }
        self.complete_top(host)?;
        self.hand_over(host)
    }

    /// Ends the current frame: its parent takes over what was built.
    ///
    /// In strict mode the frame must be complete, except for what has a default. In deferred mode
    /// it is set aside, and can be entered again. On an error everything is given up.
    pub fn end<H: Host>(self, host: &mut H) -> (r: Result<Self, ReflectError>)
        requires
            self.wf(),
            self@.endable(self.shapes()),
        ensures
            self@.ended(*self.root_plan, old(host).view()).returned(
                self.root_plan,
                r,
                final(host).view(),
            ),
    {
        let mut this = self;
        match this.end_in_place(host) {
            Ok(_) => Ok(this),
            Err(e) => {
                this.cancel(host);
                Err(e)
            },
        }
    }
}

proof fn lemma_filled_same(f: FrameView, t: ShapeTable)
    ensures
        f.same_frame(f.filled(t).frame),
{
    reveal(FrameView::filled);
}

proof fn lemma_completed_same(f: FrameView, t: ShapeTable)
    ensures
        f.same_frame(f.completed(t).frame),
{
    reveal(FrameView::completed);
}

proof fn lemma_fill_and_require_same(
    f: FrameView,
    plan: TypePlanCore,
    plans: Seq<FieldPlan>,
    n: usize,
    h: HostView,
)
    ensures
        f.same_frame(f.fill_and_require(plan, plans, n, h).frame),
{
    reveal(FrameView::fill_and_require);
}

/// Completing the current frame leaves the others as they are, and its conversion too.
pub proof fn lemma_top_completed_frames(p: PartialView, plan: TypePlanCore, h: HostView)
    requires
        p.stack.len() > 0,
    ensures
        ({
            let q = p.top_completed(plan, h).partial;
            &&& q.popped() == p.popped()
            &&& q.stack.len() == p.stack.len()
            &&& p.top().same_frame(q.top())
            &&& proxy_conversion(plan.shapes, q.popped().stack, q.top()) == proxy_conversion(
                plan.shapes,
                p.popped().stack,
                p.top(),
            )
        }),
{
    let t = plan.shapes;
    let q = p.top_completed(plan, h).partial;
    match p.top_plans(plan) {
        Some(range) => {
            lemma_fill_and_require_same(p.top(), plan, plan.fields_in(range), range.len, h);
        },
        None => {
            lemma_filled_same(p.top(), t);
            lemma_completed_same(p.top().filled(t).frame, t);
        },
    }
    assert(q.popped().stack =~= p.popped().stack);
}

/// Setting the current frame aside keeps everything in order.
proof fn lemma_put_aside_wf(p: PartialView, plan: TypePlanCore, path: PathView, h: HostView)
    requires
        p.wf(plan),
        p.deferred is Some,
        p.stack.len() >= 2,
        path == p.storage_path(plan.shapes),
    ensures
        p.put_aside(plan.shapes, h).partial.wf(plan),
{
    let t = plan.shapes;
    let child = p.top();
    let below = p.popped().top();
    let q = p.put_aside(t, h).partial;
    assert(p.stack[p.stack.len() - 1].wf(plan));
    assert(p.stack[p.stack.len() - 2].wf(plan));
    lemma_parted_stays(plan, below, child, h);
    lemma_popped_wf(p, plan);
    let s = p.popped();
    assert(same_frames(s.stack, q.stack));
    lemma_inserted(p.deferred->0.stored, path, child);
    let stored = inserted(p.deferred->0.stored, path, child);
    assert forall|i: int| #![trigger stored[i]] 0 <= i < stored.len() implies stored[i].frame.wf(
        plan,
    ) by {
        let old_stored = p.deferred->0.stored;
        if stored[i] != (StoredView { path, frame: child }) {
            let j = choose|j: int| 0 <= j < old_stored.len() && old_stored[j] == stored[i];
            assert(old_stored[j].frame.wf(plan));
        }
    }
    lemma_same_frames_wf(s, q, plan);
}

/// A stack without its top frame is in order, if anything is left of it.
pub proof fn lemma_popped_wf(p: PartialView, plan: TypePlanCore)
    requires
        p.wf(plan),
        p.stack.len() >= 2,
    ensures
        p.popped().wf(plan),
{
    let q = p.popped();
    assert forall|i: int| #![trigger q.stack[i]] 0 <= i < q.stack.len() implies q.stack[i].wf(
        plan,
    ) by {
        assert(p.stack[i].wf(plan));
    }
    assert forall|i: int|
        #![trigger q.field_frame_ok(plan.shapes, i)]
        0 <= i < q.stack.len() implies q.field_frame_ok(plan.shapes, i) by {
        assert(p.field_frame_ok(plan.shapes, i));
    }
    assert forall|i: int|
        #![trigger q.is_suited(plan.shapes, i)]
        0 <= i < q.stack.len() implies q.is_suited(plan.shapes, i) by {
        assert(p.is_suited(plan.shapes, i));
    }
}

} // verus!
