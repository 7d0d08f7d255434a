//! Moving a finished child into its parent.
use vstd::prelude::*;

use crate::error::{Message, ReflectErrorKind, TryFromError};
use crate::finish::{borrow_and_promote_ops, can_borrow_and_promote, takes_string};
use crate::frame::{Frame, FrameOwnership, FrameView, PendingSmartPointerInner};
use crate::iset::ISet;
use crate::memory::{
    ConvertCall, FnRef, Host, HostView, MemOp, PtrUninit, TryFromCall, TryFromOutcome,
};
use crate::path::PathStep;
use crate::plan::TypePlanCore;
use crate::pointer::KnownPointer;
use crate::pool::same_place;
use crate::shape::{Def, ListDef, ShapeTable};
use crate::tracker::{DynamicValueState, DynamicValueView, Tracker, TrackerView};

verus! {

/// A frame after it took over a child or failed to, and the host that its memory belongs to.
#[verifier::ext_equal]
pub struct Absorbed {
    pub frame: FrameView,
    pub host: HostView,
}

/// A frame after it was to be converted from a child, and whether it was.
#[verifier::ext_equal]
pub struct Converted {
    pub frame: FrameView,
    pub host: HostView,
    pub result: Result<(), ReflectErrorKind>,
}

impl Converted {
    /// The frame and the host alone.
    pub open spec fn quietly(self) -> Absorbed {
        Absorbed { frame: self.frame, host: self.host }
    }
}

impl FrameView {
    /// The child was taken over.
    pub open spec fn took(self, h: HostView) -> Absorbed {
        Absorbed { frame: self, host: h }
    }

    /// The child cannot be taken over: it is dropped, and its memory released. The frame stays as it
    /// is, and will be found incomplete.
    pub open spec fn turned_down(self, t: ShapeTable, child: FrameView, h: HostView) -> Absorbed {
        Absorbed { frame: self, host: h.plus(child.staged().discard_ops(t)) }
    }

    /// An operation on the frame failed.
    pub open spec fn failure(self, operation: &'static str) -> ReflectErrorKind {
        ReflectErrorKind::OperationFailed { shape: self.shape(), operation }
    }

    /// An option that took over the value of a child.
    pub open spec fn with_option_inner(self, t: ShapeTable, child: FrameView, h: HostView) -> Absorbed {
        match t.at(self.shape()).def {
            Def::Option(d) => (FrameView {
                tracker: TrackerView::Option { building_inner: false, pending_inner: None },
                is_init: true,
                ..self
            }).took(
                h.after(
                    MemOp::InitSome { f: d.init_some, dst: self.data.addr, src: child.data.addr },
                ).plus(child.dealloc_ops(t)),
            ),
            _ => self.turned_down(t, child, h),
        }
    }

    /// A smart pointer that is complete.
    pub open spec fn pointing(self) -> FrameView {
        FrameView {
            tracker: TrackerView::SmartPointer { building_inner: false, pending_inner: None },
            is_init: true,
            ..self
        }
    }

    /// A smart pointer that was made from the value of a child, if it can be.
    ///
    /// The value is taken over where the pointer can do that; otherwise the pointer borrows it,
    /// is made to own a clone, and the value is dropped. A pointer to `str` is made from a
    /// `String`. A value from which no pointer can be made is dropped, and its memory released.
    pub open spec fn with_pointee(self, t: ShapeTable, child: FrameView, h: HostView) -> Absorbed {
        let dst = self.data.addr;
        let src = child.data.addr;
        match t.at(self.shape()).def {
            Def::Pointer(p) => if p.vtable.new_into_fn is Some {
                self.pointing().took(
                    h.after(MemOp::NewInto { f: p.vtable.new_into_fn->0, dst, src }).plus(
                        child.dealloc_ops(t),
                    ),
                )
            } else if can_borrow_and_promote(t, p, child.shape()) {
                self.pointing().took(
                    h.plus(borrow_and_promote_ops(p, dst, src)).plus(
                        child.staged().discard_ops(t),
                    ),
                )
            } else if p.pointee == Some(t.str_shape) && child.shape() == t.string_shape {
                match p.known {
                    Some(kind) => if takes_string(kind) {
                        self.pointing().took(
                            h.after(MemOp::StringInto { kind, dst, src }).plus(
                                child.dealloc_ops(t),
                            ),
                        )
                    } else {
                        self.turned_down(t, child, h)
                    },
                    None => self.turned_down(t, child, h),
                }
            } else {
                self.turned_down(t, child, h)
            },
            _ => self.turned_down(t, child, h),
        }
    }

    /// A conversion into the value of this frame failed.
    pub open spec fn not_converted(self, child: FrameView, inner: TryFromError) -> ReflectErrorKind {
        ReflectErrorKind::TryFromError { src_shape: child.shape(), dst_shape: self.shape(), inner }
    }

    /// What becomes of a value and of the frame that was to be converted from it by a hook.
    ///
    /// A source that the hook consumed is only released, and one that it did not consume is
    /// dropped first. Where nothing is known of the source it is not touched.
    pub open spec fn after_conversion(
        self,
        t: ShapeTable,
        child: FrameView,
        outcome: TryFromOutcome,
        h: HostView,
    ) -> Converted {
        match outcome {
            TryFromOutcome::Converted => Converted {
                frame: FrameView { tracker: TrackerView::Scalar, is_init: true, ..self },
                host: h.plus(child.dealloc_ops(t)),
                result: Ok(()),
            },
            TryFromOutcome::Unsupported => Converted {
                frame: self,
                host: self.turned_down(t, child, h).host,
                result: Err(self.not_converted(child, TryFromError::UnsupportedSourceType)),
            },
            TryFromOutcome::Failed(message) => Converted {
                frame: self,
                host: h.plus(child.dealloc_ops(t)),
                result: Err(self.not_converted(child, TryFromError::Generic(message))),
            },
            TryFromOutcome::Unknown => Converted {
                frame: self,
                host: h,
                result: Err(self.not_converted(child, TryFromError::UnsupportedSourceType)),
            },
        }
    }

    /// The frame after it was to be converted from the value of a child by the hook `f`.
    pub open spec fn from_inner(
        self,
        t: ShapeTable,
        child: FrameView,
        f: FnRef,
        h: HostView,
    ) -> Converted {
        let call = TryFromCall {
            f,
            dst: self.data.addr,
            src_shape: child.shape(),
            src: child.data.addr,
        };
        self.after_conversion(t, child, h.try_from(call), h.after(MemOp::TryFrom { call }))
    }

    /// A transparent wrapper that was converted from the value of a child, if the hook agrees.
    pub open spec fn with_inner(self, t: ShapeTable, child: FrameView, h: HostView) -> Absorbed {
        match t.at(self.shape()).vtable.spec_try_from() {
            Some(f) => self.from_inner(t, child, f, h).quietly(),
            None => self.turned_down(t, child, h),
        }
    }

    /// A conversion from a proxy failed.
    pub open spec fn not_from_proxy(self, child: FrameView, message: Message) -> ReflectErrorKind {
        ReflectErrorKind::CustomDeserializationError {
            message,
            src_shape: child.shape(),
            dst_shape: self.shape(),
        }
    }

    /// The frame after a proxy was converted into its value by the function `f`. The proxy is
    /// consumed, whatever the function answers.
    pub open spec fn from_proxy(
        self,
        t: ShapeTable,
        child: FrameView,
        f: FnRef,
        h: HostView,
    ) -> Converted {
        let call = ConvertCall { f, src: child.data.addr, dst: self.data.addr };
        let h1 = h.after(MemOp::ConvertIn { call }).plus(child.dealloc_ops(t));
        match h.convert_in(call) {
            Ok(at) => if at == self.data.addr {
                Converted {
                    frame: FrameView { is_init: true, ..self },
                    host: h1,
                    result: Ok(()),
                }
            } else {
                Converted {
                    frame: self,
                    host: h1,
                    result: Err(
                        self.not_from_proxy(
                            child,
                            Message::Fixed("deserialize_with did not return the expected pointer"),
                        ),
                    ),
                }
            },
            Err(message) => Converted {
                frame: self,
                host: h1,
                result: Err(self.not_from_proxy(child, Message::Reported(message))),
            },
        }
    }

    /// A value that was converted from its proxy, if the hook agrees.
    pub open spec fn with_proxy(self, t: ShapeTable, child: FrameView, h: HostView) -> Absorbed {
        match child.shape_level_proxy {
            Some(p) => self.from_proxy(t, child, p.convert_in, h).quietly(),
            None => self.turned_down(t, child, h),
        }
    }

    /// The frame after the value of a child was pushed onto its list, if it can be. An element of
    /// an array is in its place already.
    pub open spec fn with_item(self, t: ShapeTable, child: FrameView, h: HostView) -> Absorbed {
        match t.at(self.shape()).def {
            Def::List(ListDef { push: Some(f), .. }) => self.took(
                h.after(
                    MemOp::ListPush { f, list: self.data.addr, item: child.data.addr },
                ).plus(child.dealloc_ops(t)),
            ),
            _ => if child.ownership is Field {
                self.took(h)
            } else {
                self.turned_down(t, child, h)
            },
        }
    }

    /// The host after the value of a child was pushed onto a slice builder.
    pub open spec fn push_slice_item(self, t: ShapeTable, child: FrameView, h: HostView) -> HostView {
        match self.tracker {
            TrackerView::SmartPointerSlice { vtable, .. } => h.after(
                MemOp::SlicePush {
                    f: vtable.push_fn,
                    builder: self.data.addr,
                    item: child.data.addr,
                },
            ).plus(child.dealloc_ops(t)),
            _ => h,
        }
    }

    /// A map that holds a key which waits for its value.
    pub open spec fn with_key(self, key: PtrUninit) -> FrameView {
        match self.tracker {
            TrackerView::MapOf {
                insert_state,
                pending_entries,
                current_entry_index,
                building_key,
            } => FrameView {
                tracker: TrackerView::MapOf {
                    insert_state,
                    pending_entries: pending_entries.push((key, None)),
                    current_entry_index,
                    building_key,
                },
                ..self
            },
            _ => self,
        }
    }

    /// A map in which a waiting key got its value.
    pub open spec fn with_value(self, entry_idx: int, value: PtrUninit) -> FrameView {
        match self.tracker {
            TrackerView::MapOf {
                insert_state,
                pending_entries,
                current_entry_index,
                building_key,
            } => FrameView {
                tracker: TrackerView::MapOf {
                    insert_state,
                    pending_entries: pending_entries.update(
                        entry_idx,
                        (pending_entries[entry_idx].0, Some(value)),
                    ),
                    current_entry_index,
                    building_key,
                },
                ..self
            },
            _ => self,
        }
    }

    /// A list whose next rope slot counts as finished.
    pub open spec fn with_slot(self) -> FrameView {
        match self.tracker {
            TrackerView::List { current_child, rope: Some(r) } => FrameView {
                tracker: TrackerView::List { current_child, rope: Some(r.marked()) },
                ..self
            },
            _ => self,
        }
    }

    /// The frame with field `idx` counted as initialized.
    pub open spec fn with_field(self, t: ShapeTable, idx: usize) -> FrameView {
        let tracker = if self.tracker is Scalar && t.is_struct(self.shape()) {
            TrackerView::Struct { iset: Set::empty(), current_child: None }
        } else {
            self.tracker
        };
        FrameView { tracker: tracker.with_field(idx), ..self }
    }

    /// The frame with field `idx` counted as not initialized.
    pub open spec fn without_field(self, idx: usize) -> FrameView {
        FrameView { tracker: self.tracker.without_field(idx), ..self }
    }

    /// Nothing waits to be moved into the value.
    pub open spec fn is_clear(self) -> bool {
        match self.tracker {
            TrackerView::SmartPointer { pending_inner, .. } => pending_inner is None,
            TrackerView::Option { pending_inner, .. } => pending_inner is None,
            TrackerView::List { rope, .. } => rope is None,
            TrackerView::MapOf { pending_entries, .. } => pending_entries.len() == 0,
            TrackerView::DynamicValue { state } => match state {
                DynamicValueView::Object { pending_entries, .. } => pending_entries.len() == 0,
                DynamicValueView::Array { pending_elements, .. } => pending_elements.len() == 0,
                _ => true,
            },
            _ => true,
        }
    }

    /// What is in the frame has to make way before it is made from a part as a whole: something
    /// waits to be moved in, which would be forgotten.
    pub open spec fn makes_way(self, step: PathStep) -> bool {
        (step is OptionSome || step is Deref || step is Inner) && !self.is_clear()
    }

    /// The frame after it took over the value of a finished child that was reached by `step`. A
    /// slice builder only takes items.
    pub open spec fn absorbed(
        self,
        t: ShapeTable,
        step: PathStep,
        child: FrameView,
        h: HostView,
    ) -> Absorbed {
        match step {
            PathStep::Field(_) | PathStep::Variant(_) => self.took(h),
            PathStep::Index(_) => if child.ownership is RopeSlot {
                self.with_slot().took(h)
            } else if self.tracker is SmartPointerSlice {
                self.took(self.push_slice_item(t, child, h))
            } else {
                self.with_item(t, child, h)
            },
            _ => if self.tracker is SmartPointerSlice {
                self.turned_down(t, child, h)
            } else if self.makes_way(step) {
                self.deinited().absorbed_whole(t, step, child, h.plus(self.deinit_ops(t)))
            } else {
                self.absorbed_whole(t, step, child, h)
            },
        }
    }

    /// The frame after it took over the only part of its value, or a key or value of its entries.
    pub open spec fn absorbed_whole(
        self,
        t: ShapeTable,
        step: PathStep,
        child: FrameView,
        h: HostView,
    ) -> Absorbed {
        match step {
            PathStep::OptionSome => self.with_option_inner(t, child, h),
            PathStep::Deref => self.with_pointee(t, child, h),
            PathStep::Inner => self.with_inner(t, child, h),
            PathStep::Proxy => self.with_proxy(t, child, h),
            PathStep::MapKey(_) => if self.tracker is MapOf {
                self.with_key(child.data).took(h)
            } else {
                self.turned_down(t, child, h)
            },
            PathStep::MapValue(i) => if self.tracker is MapOf {
                self.with_value(i as int, child.data).took(h)
            } else {
                self.turned_down(t, child, h)
            },
            _ => self.took(h),
        }
    }

    /// Keys and values of a map arrive in order: a key goes behind the entries that are there,
    /// and a value to a key that waits for one.
    pub open spec fn in_order(self, step: PathStep) -> bool {
        match (step, self.tracker) {
            (PathStep::MapKey(i), TrackerView::MapOf { pending_entries, .. }) => i
                == pending_entries.len(),
            (PathStep::MapValue(i), TrackerView::MapOf { pending_entries, .. }) => i
                < pending_entries.len() && pending_entries[i as int].1 is None,
            _ => true,
        }
    }
}

/// A step by which a parent takes over the value of a child.
pub open spec fn is_absorbing(step: PathStep) -> bool {
    !(step is Field) && !(step is Variant)
}

/// The frame is within its plan, in the same place as before.
pub open spec fn stays_within(f: FrameView, plan: TypePlanCore, after: FrameView) -> bool {
    &&& after.wf(plan)
    &&& after.allocated == f.allocated
    &&& after.data == f.data
    &&& after.ownership == f.ownership
    &&& same_place(f, after)
}

proof fn lemma_absorbed_whole_wf(
    f: FrameView,
    plan: TypePlanCore,
    step: PathStep,
    child: FrameView,
    h: HostView,
)
    requires
        plan.wf(),
        f.wf(plan),
        !(f.tracker is SmartPointerSlice),
    ensures
        stays_within(f, plan, f.absorbed_whole(plan.shapes, step, child, h).frame),
{
    assert(plan.node_ok(plan.nodes@[f.type_plan.index as int]));
}

/// A frame that takes over a child stays within its plan.
pub proof fn lemma_absorbed_wf(
    f: FrameView,
    plan: TypePlanCore,
    step: PathStep,
    child: FrameView,
    h: HostView,
)
    requires
        plan.wf(),
        f.wf(plan),
    ensures
        stays_within(f, plan, f.absorbed(plan.shapes, step, child, h).frame),
{
    if !(f.tracker is SmartPointerSlice) {
        let h1 = h.plus(f.deinit_ops(plan.shapes));
        lemma_absorbed_whole_wf(f, plan, step, child, h);
        lemma_absorbed_whole_wf(f.deinited(), plan, step, child, h1);
    }
}

impl Frame {
    /// Releases the memory of a frame that owns it; the value was moved out.
    pub fn dealloc_moved<H: Host>(self, t: &ShapeTable, host: &mut H)
        requires
            self@.allocated.wf(*t),
        ensures
            final(host).view() == old(host).view().plus(self@.dealloc_ops(*t)),
    {
        if self.ownership.needs_dealloc() {
            self.allocated.deallocate(t, self.data, host);
        }
    }

    /// Drops a finished child that cannot be taken over, and releases its memory.
    fn turn_down<H: Host>(&self, child: Frame, t: &ShapeTable, host: &mut H)
        requires
            child@.allocated.wf(*t),
        ensures
            final(host).view() == self@.turned_down(*t, child@, old(host).view()).host,
    {
        PendingSmartPointerInner::from_initialized_frame(child).drop_and_dealloc(t, host);
    }

    /// Counts a field as initialized. A struct of which nothing was tracked starts to be
    /// tracked.
    pub fn mark_field_initialized_by_index(&mut self, t: &ShapeTable, idx: usize)
        requires
            t.has(old(self)@.shape()),
        ensures
            final(self)@ == old(self)@.with_field(*t, idx),
    {
        let is_scalar = match self.tracker {
            Tracker::Scalar => true,
            _ => false,
        };
        if is_scalar && t.struct_type(self.allocated.shape()).is_some() {
            self.tracker = Tracker::Struct { iset: ISet::new(), current_child: None };
        }
        self.tracker.set_field(idx);
    }

    /// Completes an option with the value of its child. A child that cannot be taken over is
    /// dropped, and the option stays as it is.
    pub fn complete_option_frame<H: Host>(&mut self, inner_frame: Frame, t: &ShapeTable, host: &mut H)
        requires
            t.has(old(self)@.shape()),
            inner_frame@.allocated.wf(*t),
        ensures
            ({
                let a = old(self)@.with_option_inner(*t, inner_frame@, old(host).view());
                &&& final(self)@ == a.frame
                &&& final(host).view() == a.host
            }),
    {
        if let Def::Option(d) = &t.get(self.allocated.shape()).def {
            host.act(
                MemOp::InitSome {
                    f: d.init_some,
                    dst: self.data.addr,
                    src: inner_frame.data.addr,
                },
            );
            inner_frame.dealloc_moved(t, host);
            self.tracker = Tracker::Option { building_inner: false, pending_inner: None };
            self.is_init = true;
            return ;
        }
        self.turn_down(inner_frame, t, host);
    }

    /// Completes a smart pointer with the value of its child. A child that cannot be taken over is
    /// dropped, and the pointer stays as it is.
    pub fn complete_smart_pointer_frame<H: Host>(
        &mut self,
        inner_frame: Frame,
        t: &ShapeTable,
        host: &mut H,
    )
        requires
            t.has(old(self)@.shape()),
            inner_frame@.allocated.wf(*t),
        ensures
            ({
                let a = old(self)@.with_pointee(*t, inner_frame@, old(host).view());
                &&& final(self)@ == a.frame
                &&& final(host).view() == a.host
            }),
    {
        let def = match t.get(self.allocated.shape()).def {
            Def::Pointer(def) => def,
            _ => {
                self.turn_down(inner_frame, t, host);
                return ;
            },
        };
        if let Some(f) = def.vtable.new_into_fn {
            host.act(MemOp::NewInto { f, dst: self.data.addr, src: inner_frame.data.addr });
            inner_frame.dealloc_moved(t, host);
            self.tracker = Tracker::SmartPointer { building_inner: false, pending_inner: None };
            self.is_init = true;
            return ;
        }
        if Frame::try_borrow_and_promote_smart_pointer(
            t,
            def,
            self.data,
            inner_frame.allocated.shape(),
            inner_frame.data,
            host,
        ) {
            self.tracker = Tracker::SmartPointer { building_inner: false, pending_inner: None };
            self.is_init = true;
            PendingSmartPointerInner::from_initialized_frame(inner_frame).drop_and_dealloc(t, host);
            return ;
        }
        let is_str = match def.pointee() {
            Some(pointee) => pointee == t.str_shape && inner_frame.allocated.shape()
                == t.string_shape,
            None => false,
        };
        if !is_str {
            self.turn_down(inner_frame, t, host);
            return ;
        }
        match def.known {
            Some(kind) => match kind {
                KnownPointer::Box | KnownPointer::Arc | KnownPointer::Rc | KnownPointer::Cow => {
                    host.act(
                        MemOp::StringInto {
                            kind,
                            dst: self.data.addr,
                            src: inner_frame.data.addr,
                        },
                    );
                    inner_frame.dealloc_moved(t, host);
                    self.tracker = Tracker::SmartPointer {
                        building_inner: false,
                        pending_inner: None,
                    };
                    self.is_init = true;
                },
                _ => {
                    self.turn_down(inner_frame, t, host);
                },
            },
            None => {
                self.turn_down(inner_frame, t, host);
            },
        }
    }

    /// Completes a transparent wrapper by converting the value of its child.
    pub fn complete_inner_frame<H: Host>(&mut self, inner_frame: Frame, t: &ShapeTable, host: &mut H)
        requires
            t.has(old(self)@.shape()),
            inner_frame@.allocated.wf(*t),
        ensures
            ({
                let a = old(self)@.with_inner(*t, inner_frame@, old(host).view());
                &&& final(self)@ == a.frame
                &&& final(host).view() == a.host
            }),
    {
        match t.get(self.allocated.shape()).vtable.try_from_fn() {
            Some(f) => {
                let _ = self.convert_inner(inner_frame, f, t, host);
            },
            None => {
                self.turn_down(inner_frame, t, host);
            },
        }
    }

    /// Converts the value of a child into that of the frame.
    pub fn convert_inner<H: Host>(
        &mut self,
        inner_frame: Frame,
        f: FnRef,
        t: &ShapeTable,
        host: &mut H,
    ) -> (r: Result<(), ReflectErrorKind>)
        requires
            inner_frame@.allocated.wf(*t),
        ensures
            ({
                let a = old(self)@.from_inner(*t, inner_frame@, f, old(host).view());
                &&& final(self)@ == a.frame
                &&& final(host).view() == a.host
                &&& r == a.result
            }),
    {
        let src_shape = inner_frame.allocated.shape();
        let dst_shape = self.allocated.shape();
        let call = TryFromCall {
            f,
            dst: self.data.addr,
            src_shape,
            src: inner_frame.data.addr,
        };
        match host.try_from(call) {
            TryFromOutcome::Converted => {
                inner_frame.dealloc_moved(t, host);
                self.tracker = Tracker::Scalar;
                self.is_init = true;
                Ok(())
            },
            TryFromOutcome::Unsupported => {
                let inner = TryFromError::UnsupportedSourceType;
                self.turn_down(inner_frame, t, host);
                Err(ReflectErrorKind::TryFromError { src_shape, dst_shape, inner })
            },
            TryFromOutcome::Failed(message) => {
                inner_frame.dealloc_moved(t, host);
                let inner = TryFromError::Generic(message);
                Err(ReflectErrorKind::TryFromError { src_shape, dst_shape, inner })
            },
            TryFromOutcome::Unknown => {
                let inner = TryFromError::UnsupportedSourceType;
                Err(ReflectErrorKind::TryFromError { src_shape, dst_shape, inner })
            },
        }
    }

    /// Converts a proxy into the value of the frame.
    pub fn convert_proxy<H: Host>(
        &mut self,
        proxy_frame: Frame,
        f: FnRef,
        t: &ShapeTable,
        host: &mut H,
    ) -> (r: Result<(), ReflectErrorKind>)
        requires
            proxy_frame@.allocated.wf(*t),
        ensures
            ({
                let a = old(self)@.from_proxy(*t, proxy_frame@, f, old(host).view());
                &&& final(self)@ == a.frame
                &&& final(host).view() == a.host
                &&& r == a.result
            }),
    {
        let dst = self.data.addr;
        let dst_shape = self.allocated.shape();
        let src_shape = proxy_frame.allocated.shape();
        let outcome = host.convert_in(ConvertCall { f, src: proxy_frame.data.addr, dst });
        proxy_frame.dealloc_moved(t, host);
        let message = match outcome {
            Ok(at) => {
                if at == dst {
                    self.is_init = true;
                    return Ok(());
                }
                Message::Fixed("deserialize_with did not return the expected pointer")
            },
            Err(message) => Message::Reported(message),
        };
        Err(ReflectErrorKind::CustomDeserializationError { message, src_shape, dst_shape })
    }

    /// Completes a value by converting its proxy.
    pub fn complete_proxy_frame<H: Host>(&mut self, proxy_frame: Frame, t: &ShapeTable, host: &mut H)
        requires
            proxy_frame@.allocated.wf(*t),
        ensures
            ({
                let a = old(self)@.with_proxy(*t, proxy_frame@, old(host).view());
                &&& final(self)@ == a.frame
                &&& final(host).view() == a.host
            }),
    {
        match proxy_frame.shape_level_proxy {
            Some(proxy) => {
                let _ = self.convert_proxy(proxy_frame, proxy.convert_in, t, host);
            },
            None => {
                self.turn_down(proxy_frame, t, host);
            },
        }
    }

    /// Pushes the value of an element frame onto a list.
    pub fn complete_list_item_frame<H: Host>(&self, element_frame: Frame, t: &ShapeTable, host: &mut H)
        requires
            t.has(self@.shape()),
            element_frame@.allocated.wf(*t),
        ensures
            ({
                let a = self@.with_item(*t, element_frame@, old(host).view());
                &&& self@ == a.frame
                &&& final(host).view() == a.host
            }),
    {
        if let Def::List(d) = &t.get(self.allocated.shape()).def {
            if let Some(f) = d.push {
                host.act(
                    MemOp::ListPush {
                        f,
                        list: self.data.addr,
                        item: element_frame.data.addr,
                    },
                );
                element_frame.dealloc_moved(t, host);
                return ;
            }
        }
        if let FrameOwnership::Field { .. } = element_frame.ownership {
            return ;
        }
        self.turn_down(element_frame, t, host);
    }

    /// Pushes the value of an element frame onto a slice builder. Tells whether the parent is
    /// one.
    pub fn complete_smart_pointer_slice_item_frame<H: Host>(
        &self,
        element_frame: Frame,
        t: &ShapeTable,
        host: &mut H,
    ) -> (r: bool)
        requires
            element_frame@.allocated.wf(*t),
        ensures
            r == self@.tracker is SmartPointerSlice,
            final(host).view() == self@.push_slice_item(*t, element_frame@, old(host).view()),
    {
        if let Tracker::SmartPointerSlice { vtable, .. } = &self.tracker {
            host.act(
                MemOp::SlicePush {
                    f: vtable.push_fn,
                    builder: self.data.addr,
                    item: element_frame.data.addr,
                },
            );
            element_frame.dealloc_moved(t, host);
            return true;
        }
        false
    }

    /// Lets the map take over the buffer of a key, which then waits for its value.
    pub fn complete_map_key_frame(&mut self, entry_idx: u32, key_frame: Frame)
        requires
            old(self)@.in_order(PathStep::MapKey(entry_idx)),
        ensures
            final(self)@ == old(self)@.with_key(key_frame@.data),
    {
        if let Tracker::MapOf { pending_entries, .. } = &mut self.tracker {
            pending_entries.push((key_frame.data, None));
        }
    }

    /// Lets the map take over the buffer of a value, which completes a waiting entry.
    pub fn complete_map_value_frame(&mut self, entry_idx: u32, value_frame: Frame)
        requires
            old(self)@.in_order(PathStep::MapValue(entry_idx)),
        ensures
            final(self)@ == old(self)@.with_value(entry_idx as int, value_frame@.data),
    {
        if let Tracker::MapOf { pending_entries, .. } = &mut self.tracker {
            let idx: usize = entry_idx as usize;
            let key = pending_entries[idx].0;
            pending_entries.set(idx, (key, Some(value_frame.data)));
        }
    }

    /// Whether nothing waits to be moved into the value.
    fn has_nothing_waiting(&self) -> (r: bool)
        ensures
            r == self@.is_clear(),
    {
        match &self.tracker {
            Tracker::SmartPointer { pending_inner, .. } => pending_inner.is_none(),
            Tracker::Option { pending_inner, .. } => pending_inner.is_none(),
            Tracker::List { rope, .. } => rope.is_none(),
            Tracker::MapOf { pending_entries, .. } => pending_entries.len() == 0,
            Tracker::DynamicValue { state } => match state {
                DynamicValueState::Object { pending_entries, .. } => pending_entries.len() == 0,
                DynamicValueState::Array { pending_elements, .. } => pending_elements.len() == 0,
                _ => true,
            },
            _ => true,
        }
    }

    /// Takes over the value of a finished child that was reached by `step`. One that cannot be
    /// taken over is dropped.
    pub fn absorb<H: Host>(&mut self, step: PathStep, child: Frame, t: &ShapeTable, host: &mut H)
        requires
            t.wf(),
            old(self)@.fits(*t),
            child@.allocated.wf(*t),
            is_absorbing(step),
            old(self)@.in_order(step),
        ensures
            ({
                let a = old(self)@.absorbed(*t, step, child@, old(host).view());
                &&& final(self)@ == a.frame
                &&& final(host).view() == a.host
            }),
    {
        if let Tracker::SmartPointerSlice { .. } = self.tracker {
            match step {
                PathStep::Index(_) => {},
                _ => {
                    self.turn_down(child, t, host);
                    return ;
                },
            }
        }
        let whole = match step {
            PathStep::OptionSome | PathStep::Deref | PathStep::Inner => true,
            _ => false,
        };
        if whole && !self.has_nothing_waiting() {
            self.deinit(t, host);
        }
        match step {
            PathStep::OptionSome => self.complete_option_frame(child, t, host),
            PathStep::Deref => self.complete_smart_pointer_frame(child, t, host),
            PathStep::Inner => self.complete_inner_frame(child, t, host),
            PathStep::Proxy => self.complete_proxy_frame(child, t, host),
            PathStep::Index(_) => {
                if let FrameOwnership::RopeSlot = child.ownership {
                    if let Tracker::List { rope: Some(rope), .. } = &mut self.tracker {
                        rope.mark_last_initialized();
                    }
                    return ;
                }
                if let Tracker::SmartPointerSlice { .. } = self.tracker {
                    self.complete_smart_pointer_slice_item_frame(child, t, host);
                    return ;
                }
                self.complete_list_item_frame(child, t, host)
            },
            PathStep::MapKey(entry_idx) => {
                if let Tracker::MapOf { .. } = self.tracker {
                    self.complete_map_key_frame(entry_idx, child);
                    return ;
                }
                self.turn_down(child, t, host);
            },
            PathStep::MapValue(entry_idx) => {
                if let Tracker::MapOf { .. } = self.tracker {
                    self.complete_map_value_frame(entry_idx, child);
                    return ;
                }
                self.turn_down(child, t, host);
            },
            _ => {},
        }
    }
}

} // verus!
