//! Entering what a smart pointer points to.
use vstd::prelude::*;

use crate::deferred::{lemma_same_frames_wf, lemma_with_top, PartialOutcome};
use crate::end::agrees;
use crate::error::{ReflectError, ReflectErrorKind};
use crate::frame::{AllocatedShape, Frame, FrameOwnership, FrameView};
use crate::memory::{Addr, Host, HostView, MemOp, PtrUninit};
use crate::partial::{
    alloc_for_layout, alloc_ops, frame_views, DeferredView, FrameMode, Partial, PartialView,
};
use crate::plan::TypePlanCore;
use crate::pointer::SliceBuilderVTable;
use crate::pool::lemma_pool_without;
use crate::shape::{Def, Layout, SequenceType, ShapeRef, ShapeTable, Type};
use crate::stored::find;
use crate::tracker::{Tracker, TrackerView};

verus! {

impl PartialView {
    /// The current frame is a smart pointer whose pointee was set aside; this is where.
    pub open spec fn stored_pointee(self, t: ShapeTable) -> Option<int> {
        match self.deferred {
            Some(d) => if self.top().tracker matches TrackerView::SmartPointer {
                building_inner: true,
                ..
            } {
                find(d.stored, self.derived_path(t))
            } else {
                None
            },
            None => None,
        }
    }

    /// The current frame as a smart pointer whose pointee is being built.
    pub open spec fn building_pointee(self) -> PartialView {
        self.with_top(
            FrameView {
                tracker: TrackerView::SmartPointer { building_inner: true, pending_inner: None },
                ..self.top()
            },
        )
    }

    /// The pointee that was set aside is entered again, with everything that is known of it.
    pub open spec fn pointee_resumed(self, i: int) -> PartialView {
        let d = self.deferred->0;
        let f = d.stored[i].frame;
        PartialView {
            deferred: Some(DeferredView { stored: d.stored.remove(i), ..d }),
            ..self.building_pointee()
        }.pushed(FrameView { tracker: f.tracker.without_child(), ..f })
    }

    /// A new pointee is entered, in memory of its own.
    pub open spec fn pointee_allocated(
        self,
        plan: TypePlanCore,
        shape: ShapeRef,
        h: HostView,
    ) -> PartialOutcome {
        let t = plan.shapes;
        let layout = t.sized(shape)->0;
        PartialView {
            next_buffer: self.next_buffer.wrapping_add(1),
            ..self.building_pointee()
        }.pushed(
            Frame::spec_new(
                t,
                PtrUninit { addr: Addr::start(self.next_buffer) },
                AllocatedShape { shape, allocated_size: layout.size },
                FrameOwnership::Owned,
                plan.pointer_inner(self.top().type_plan)->0,
            ),
        ).ok(h.plus(alloc_ops(layout, self.next_buffer)))
    }

    /// The current frame becomes a slice builder. Memory that the frame owns is released, and the
    /// builder takes its place.
    pub open spec fn slice_begun(
        self,
        t: ShapeTable,
        vtable: SliceBuilderVTable,
        h: HostView,
    ) -> PartialOutcome {
        let f = self.top();
        PartialView { next_buffer: self.next_buffer.wrapping_add(1), ..self }.with_top(
            FrameView {
                data: PtrUninit { addr: Addr::start(self.next_buffer) },
                tracker: TrackerView::SmartPointerSlice {
                    vtable,
                    building_item: false,
                    current_child: None,
                },
                ..f.unallocated()
            },
        ).ok(
            h.after(MemOp::SliceNew { f: vtable.new_fn, buf: self.next_buffer }).plus(
                f.dealloc_ops(t),
            ),
        )
    }

    /// What the current frame points to is entered.
    ///
    /// A pointee that was set aside is entered again. Otherwise whatever the pointer held is
    /// dropped. A sized pointee gets memory of its own; for `str` a `String` is built; for a slice
    /// the frame becomes a builder of the slice.
    pub open spec fn smart_ptr_begun(self, plan: TypePlanCore, h: HostView) -> PartialOutcome {
        let t = plan.shapes;
        let f = self.top();
        match t.at(f.shape()).def {
            Def::Pointer(p) => if !p.is_constructible() {
                self.failing(
                    t,
                    h,
                    ReflectErrorKind::OperationFailed {
                        shape: f.shape(),
                        operation: "push_smart_ptr can only be called on compatible types",
                    },
                )
            } else {
                match p.pointee {
                    None => self.failing(
                        t,
                        h,
                        ReflectErrorKind::OperationFailed {
                            shape: f.shape(),
                            operation: "Smart pointer must have a pointee shape",
                        },
                    ),
                    Some(pointee) => {
                        let room = self.room_made(t, h);
                        let p1 = room.partial;
                        let h1 = room.host;
                        match self.stored_pointee(t) {
                            Some(i) => p1.pointee_resumed(i).ok(h1),
                            None => if t.sized(pointee) is Some {
                                p1.pointee_allocated(plan, pointee, h1)
                            } else if pointee == t.str_shape {
                                p1.pointee_allocated(plan, t.string_shape, h1)
                            } else if t.at(pointee).ty matches Type::Sequence(
                                SequenceType::Slice(_),
                            ) {
                                match p.vtable.slice_builder_vtable {
                                    Some(vtable) => p1.slice_begun(t, vtable, h1),
                                    None => p1.failing(
                                        t,
                                        h1,
                                        ReflectErrorKind::OperationFailed {
                                            shape: f.shape(),
                                            operation: "smart pointer does not support slice building",
                                        },
                                    ),
                                }
                            } else {
                                p1.failing(
                                    t,
                                    h1,
                                    ReflectErrorKind::OperationFailed {
                                        shape: f.shape(),
                                        operation: "push_smart_ptr can only be called on pointers to supported pointee types",
                                    },
                                )
                            },
                        }
                    },
                }
            },
            _ => self.failing(
                t,
                h,
                ReflectErrorKind::OperationFailed {
                    shape: f.shape(),
                    operation: "push_smart_ptr can only be called on compatible types",
                },
            ),
        }
    }

    /// What the current frame points to can be entered.
    pub open spec fn is_enterable(self, t: ShapeTable) -> bool {
        t.at(self.top().shape()).def matches Def::Pointer(p) && p.is_constructible() && p.pointee is Some
    }

    /// A pointee that was set aside, and is entered again, fits above the current frame.
    pub open spec fn resumable(self, t: ShapeTable) -> bool {
        self.is_enterable(t) ==> (self.stored_pointee(t) matches Some(i) ==> (
        self.deferred->0.stored[i].frame.ownership matches FrameOwnership::Field { field_idx } ==> (
        t.is_struct(self.top().shape()) ==> field_idx < t.struct_fields(self.top().shape()).len())))
    }
}

/// A frame that fits can be pushed.
pub proof fn lemma_pushed_wf(p: PartialView, plan: TypePlanCore, f: FrameView)
    requires
        p.wf(plan),
        f.wf(plan),
        f.ownership matches FrameOwnership::Field { field_idx } ==> (plan.shapes.is_struct(
            p.top().shape(),
        ) ==> field_idx < plan.shapes.struct_fields(p.top().shape()).len()),
        p.top().suits(plan.shapes, f),
    ensures
        p.pushed(f).wf(plan),
{
    let q = p.pushed(f);
    assert forall|i: int| #![trigger q.stack[i]] 0 <= i < q.stack.len() implies q.stack[i].wf(
        plan,
    ) by {
        if i < p.stack.len() {
            assert(p.stack[i].wf(plan));
        }
    }
    assert forall|i: int|
        #![trigger q.field_frame_ok(plan.shapes, i)]
        0 <= i < q.stack.len() implies q.field_frame_ok(plan.shapes, i) by {
        if i < p.stack.len() {
            assert(p.field_frame_ok(plan.shapes, i));
        }
    }
    assert forall|i: int|
        #![trigger q.is_suited(plan.shapes, i)]
        0 <= i < q.stack.len() implies q.is_suited(plan.shapes, i) by {
        if i < p.stack.len() {
            assert(p.is_suited(plan.shapes, i));
        }
    }
}

impl<'facet, const BORROW: bool> Partial<'facet, BORROW> {
    /// Makes the current frame a smart pointer whose pointee is being built.
    fn build_pointee(&mut self)
        requires
            old(self).wf(),
            !(old(self)@.top().tracker is SmartPointerSlice),
            old(self).shapes().at(old(self)@.top().shape()).def is Pointer,
        ensures
            final(self)@ == old(self)@.building_pointee(),
            final(self).root_plan == old(self).root_plan,
            final(self).wf(),
    {
        let ghost p0 = self@;
        let top: usize = self.frames().len() - 1;
        assert(p0.top() == self.mode.spec_stack()@[top as int]@);
        assert(p0.stack[top as int].wf(*self.root_plan));
        assert(self.root_plan.node_ok(self.root_plan.nodes@[p0.top().type_plan.index as int]));
        self.mode.stack_mut()[top].tracker = Tracker::SmartPointer {
            building_inner: true,
            pending_inner: None,
        };
        proof {
            lemma_with_top(p0, *self.root_plan, p0.building_pointee().top());
        }
        assert(self@ =~= p0.building_pointee());
    }

    /// Enters a new pointee of a shape, in memory of its own.
    fn enter_pointee<H: Host>(&mut self, shape: ShapeRef, layout: Layout, host: &mut H)
        requires
            old(self).wf(),
            !(old(self)@.top().tracker is SmartPointerSlice),
            old(self).shapes().at(old(self)@.top().shape()).def is Pointer,
            old(self).shapes().has(shape),
            old(self).shapes().sized(shape) == Some(layout),
            old(self).root_plan.pointer_inner(old(self)@.top().type_plan) matches Some(inner)
                && old(self).root_plan.has_node(inner) && old(self).root_plan.node_at(inner).shape
                == shape,
        ensures
            ({
                let o = old(self)@.pointee_allocated(
                    *old(self).root_plan,
                    shape,
                    old(host).view(),
                );
                &&& final(self)@ == o.partial
                &&& final(host).view() == o.host
            }),
            final(self).root_plan == old(self).root_plan,
            final(self).wf(),
    {
        let plan = self.root_plan;
        let t = &plan.shapes;
        self.build_pointee();
        let ghost p1 = self@;
        let top: usize = self.frames().len() - 1;
        assert(p1.top() == self.mode.spec_stack()@[top as int]@);
        assert(p1.stack[top as int].wf(*plan));
        let buf: u64 = self.next_buffer;
        self.next_buffer = buf.wrapping_add(1);
        let data = alloc_for_layout(layout, buf, host);
        let inner = match plan.pointer_inner_node_id(self.frames()[top].type_plan) {
            Some(id) => id,
            None => vstd::pervasive::unreached(),
        };
        let frame = Frame::new(
            t,
            data,
            AllocatedShape::new(shape, layout.size),
            FrameOwnership::Owned,
            inner,
        );
        assert(plan.shapes.shape_ok(plan.shapes.shapes@[shape.id as int]));
        let ghost p2 = self@;
        proof {
            lemma_same_frames_wf(p1, p2, *plan);
            lemma_pushed_wf(p2, *plan, frame@);
        }
        let ghost f = frame@;
        self.mode.stack_mut().push(frame);
        assert(self@ =~= p2.pushed(f));
    }

    /// Turns the current frame into a slice builder.
    fn enter_slice<H: Host>(&mut self, vtable: SliceBuilderVTable, host: &mut H)
        requires
            old(self).wf(),
            old(self).shapes().builds_slices(old(self)@.top().shape()),
        ensures
            ({
                let o = old(self)@.slice_begun(old(self).shapes(), vtable, old(host).view());
                &&& final(self)@ == o.partial
                &&& final(host).view() == o.host
            }),
            final(self).root_plan == old(self).root_plan,
            final(self).wf(),
    {
        let plan = self.root_plan;
        let t = &plan.shapes;
        let ghost p0 = self@;
        let ghost h0 = host.view();
        let top: usize = self.frames().len() - 1;
        assert(p0.top() == self.mode.spec_stack()@[top as int]@);
        assert(p0.stack[top as int].wf(*plan));
        let buf: u64 = self.next_buffer;
        self.next_buffer = buf.wrapping_add(1);
        let ghost p1 = self@;
        host.act(MemOp::SliceNew { f: vtable.new_fn, buf });
        let frame = &mut self.mode.stack_mut()[top];
        frame.give_back_memory(t, host);
        frame.data = PtrUninit { addr: Addr::start(buf) };
        frame.tracker = Tracker::SmartPointerSlice {
            vtable,
            building_item: false,
            current_child: None,
        };
        assert(plan.node_ok(plan.nodes@[p0.top().type_plan.index as int]));
        let ghost f = p0.slice_begun(*t, vtable, h0).partial.top();
        proof {
            lemma_same_frames_wf(p0, p1, *plan);
            lemma_with_top(p1, *plan, f);
        }
        assert(self@ =~= p1.with_top(f));
    }

    /// Enters a pointee that was set aside.
    fn resume_pointee(&mut self, i: usize)
        requires
            old(self).wf(),
            !(old(self)@.top().tracker is SmartPointerSlice),
            old(self).shapes().at(old(self)@.top().shape()).def is Pointer,
            old(self)@.deferred matches Some(d) && i < d.stored.len(),
            old(self)@.deferred->0.stored[i as int].frame.ownership matches FrameOwnership::Field {
                field_idx,
            } ==> (old(self).shapes().is_struct(old(self)@.top().shape()) ==> field_idx < old(
                self,
            ).shapes().struct_fields(old(self)@.top().shape()).len()),
        ensures
            final(self)@ == old(self)@.pointee_resumed(i as int),
            final(self).root_plan == old(self).root_plan,
            final(self).wf(),
    {
        let ghost plan = *self.root_plan;
        let ghost p0 = self@;
        self.build_pointee();
        let ghost p1 = self@;
        let ghost stored = p0.deferred->0.stored;
        proof {
            lemma_pool_without(p1.pool(), plan, i as int);
        }
        if let FrameMode::Deferred { stack, stored_frames, .. } = &mut self.mode {
            let entry = stored_frames.remove_at(i);
            let mut frame = entry.frame;
            frame.tracker.clear_current_child();
            let ghost f = FrameView {
                tracker: stored[i as int].frame.tracker.without_child(),
                ..stored[i as int].frame
            };
            assert(frame@ == f);
            let ghost p2 = PartialView {
                deferred: Some(
                    DeferredView {
                        start_depth: p0.deferred->0.start_depth,
                        stored: stored.remove(i as int),
                    },
                ),
                ..p1
            };
            proof {
                lemma_same_frames_wf(p1, p2, plan);
                lemma_pushed_wf(p2, plan, f);
            }
            stack.push(frame);
            assert(frame_views(stack@) =~= p2.pushed(f).stack);
        }
        assert(self@ =~= p0.pointee_resumed(i as int));
    }

    fn begin_smart_ptr_in_place<H: Host>(&mut self, host: &mut H) -> (r: Result<(), ReflectError>)
        requires
            old(self).wf(),
            old(self)@.resumable(old(self).shapes()),
        ensures
            ({
                let o = old(self)@.smart_ptr_begun(*old(self).root_plan, old(host).view());
                &&& final(self)@ == o.partial
                &&& final(host).view() == o.host
                &&& agrees(r, o.result)
            }),
            final(self).root_plan == old(self).root_plan,
            final(self).wf(),
    {
        let plan = self.root_plan;
        let t = &plan.shapes;
        let ghost p0 = self@;
        let top: usize = self.frames().len() - 1;
        assert(p0.top() == self.mode.spec_stack()@[top as int]@);
        assert(p0.stack[top as int].wf(*plan));
        let shape = self.frames()[top].allocated.shape();
        let ghost node_id = p0.top().type_plan;
        assert(plan.node_ok(plan.nodes@[node_id.index as int]));
        assert(plan.shapes.shape_ok(plan.shapes.shapes@[shape.id as int]));
        let def = match t.get(shape).def {
            Def::Pointer(def) => {
                if def.constructible_from_pointee() {
                    Some(def)
                } else {
                    None
                }
            },
            _ => None,
        };
        let def = match def {
            Some(def) => def,
            None => {
                return Err(
                    self.err(
                        ReflectErrorKind::OperationFailed {
                            shape,
                            operation: "push_smart_ptr can only be called on compatible types",
                        },
                    ),
                );
            },
        };
        let pointee = match def.pointee() {
            Some(p) => p,
            None => {
                return Err(
                    self.err(
                        ReflectErrorKind::OperationFailed {
                            shape,
                            operation: "Smart pointer must have a pointee shape",
                        },
                    ),
                );
            },
        };
        let building = match self.frames()[top].tracker {
            Tracker::SmartPointer { building_inner, .. } => building_inner,
            _ => false,
        };
        let stored = if building {
            let path = self.derive_path();
            match &self.mode {
                FrameMode::Deferred { stored_frames, .. } => stored_frames.find(&path),
                FrameMode::Strict { .. } => None,
            }
        } else {
            None
        };
        self.prepare_for_reinitialization(host);
        if let Some(i) = stored {
            self.resume_pointee(i);
            return Ok(());
        }
        if let Some(layout) = t.sized_layout(pointee) {
            self.enter_pointee(pointee, layout, host);
            return Ok(());
        }
        if pointee == t.str_shape {
            let layout = match t.sized_layout(t.string_shape) {
                Some(l) => l,
                None => vstd::pervasive::unreached(),
            };
            self.enter_pointee(t.string_shape, layout, host);
            return Ok(());
        }
        if let Type::Sequence(SequenceType::Slice(_)) = &t.get(pointee).ty {
            match def.vtable.slice_builder_vtable {
                Some(vtable) => {
                    self.enter_slice(vtable, host);
                    Ok(())
                },
                None => Err(
                    self.err(
                        ReflectErrorKind::OperationFailed {
                            shape,
                            operation: "smart pointer does not support slice building",
                        },
                    ),
                ),
            }
        } else {
            Err(
                self.err(
                    ReflectErrorKind::OperationFailed {
                        shape,
                        operation: "push_smart_ptr can only be called on pointers to supported pointee types",
                    },
                ),
            )
        }
    }

    /// Enters what the smart pointer in the current frame points to (`Box<T>`, `Arc<T>`, ...).
    ///
    /// On an error everything is given up.
    pub fn begin_smart_ptr<H: Host>(self, host: &mut H) -> (r: Result<Self, ReflectError>)
        requires
            self.wf(),
            self@.resumable(self.shapes()),
        ensures
            self@.smart_ptr_begun(*self.root_plan, old(host).view()).returned(
                self.root_plan,
                r,
                final(host).view(),
            ),
    {
        let mut this = self;
        match this.begin_smart_ptr_in_place(host) {
            Ok(_) => Ok(this),
            Err(e) => {
                this.cancel(host);
                Err(e)
            },
        }
    }
}

} // verus!
