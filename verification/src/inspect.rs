//! Looking at a value under construction.
use vstd::prelude::*;

use crate::deferred::{lemma_completed_wf, lemma_with_top};
use crate::frame::Frame;
use crate::memory::{Host, PtrConst};
use crate::partial::{frame_views, innermost_field, Partial, PartialState, PartialView};
use crate::path::Path;
use crate::plan::{
    DeserStrategy, EnumPlan, FieldPlan, NodeId, ProxyNodes, StructPlan, TypePlanCore, TypePlanNode,
    TypePlanNodeKind,
};
use crate::shape::{Field, ShapeRef};
use crate::tracker::Tracker;

verus! {

impl PartialView {
    /// The current frame of a value that can still be modified.
    pub open spec fn active_top(self) -> Option<crate::frame::FrameView> {
        if self.state is Active && self.stack.len() > 0 {
            Some(self.top())
        } else {
            None
        }
    }
}

impl<'facet, const BORROW: bool> Partial<'facet, BORROW> {
    /// Applies a function that consumes the value and hands it back, so that calls can be
    /// chained.
    pub fn with<F, E>(self, f: F) -> (r: Result<Self, E>) where F: FnOnce(Self) -> Result<Self, E>
        requires
            call_requires(f, (self,)),
        ensures
            call_ensures(f, (self,), r),
    {
        f(self)
    }

    /// Whether the value can still be modified.
    pub fn is_active(&self) -> (r: bool)
        ensures
            r == (self@.state == PartialState::Active),
    {
        self.state == PartialState::Active
    }

    /// Number of frames. It starts out as one.
    pub fn frame_count(&self) -> (n: usize)
        ensures
            n == self@.stack.len(),
    {
        self.frames().len()
    }

    /// The current frame, if the value can still be modified.
    fn active_frame(&self) -> (r: Option<&Frame>)
        ensures
            r is Some == self@.active_top() is Some,
            r matches Some(f) ==> self@.active_top() == Some(f@),
    {
        if self.state != PartialState::Active {
            return None;
        }
        let frames = self.frames();
        let n: usize = frames.len();
        if n == 0 {
            return None;
        }
        assert(self@.stack[n - 1] == frames@[n - 1]@);
        Some(&frames[n - 1])
    }

    /// Shape of the current frame.
    pub fn shape(&self) -> (r: ShapeRef)
        requires
            self@.state == PartialState::Active,
            self@.stack.len() > 0,
        ensures
            r == self@.top().shape(),
    {
        match self.active_frame() {
            Some(f) => f.allocated.shape(),
            None => vstd::pervasive::unreached(),
        }
    }

    /// Shape of the current frame, if there is one and the value can still be modified.
    pub fn try_shape(&self) -> (r: Option<ShapeRef>)
        ensures
            r == match self@.active_top() {
                Some(f) => Some(f.shape()),
                None => None,
            },
    {
        match self.active_frame() {
            Some(f) => Some(f.allocated.shape()),
            None => None,
        }
    }

    /// The plan.
    pub fn type_plan_core(&self) -> (r: &'facet TypePlanCore)
        ensures
            r == self.root_plan,
    {
        self.root_plan
    }

    /// The plan for the struct in the current frame.
    pub fn struct_plan(&self) -> (r: Option<&'facet StructPlan>)
        requires
            self.wf(),
        ensures
            match self@.active_top() {
                Some(f) => {
                    let kind = self.root_plan.resolved(self.root_plan.node_at(f.type_plan)).kind;
                    &&& r is Some == kind is Struct
                    &&& r matches Some(p) ==> kind == TypePlanNodeKind::Struct(*p)
                },
                None => r is None,
            },
    {
        match self.active_frame() {
            Some(f) => {
                assert(self@.stack[self@.stack.len() - 1].wf(*self.root_plan));
                self.root_plan.struct_plan_by_id(f.type_plan)
            },
            None => None,
        }
    }

    /// The plan for the enum in the current frame.
    pub fn enum_plan(&self) -> (r: Option<&'facet EnumPlan>)
        requires
            self.wf(),
        ensures
            match self@.active_top() {
                Some(f) => {
                    let kind = self.root_plan.resolved(self.root_plan.node_at(f.type_plan)).kind;
                    &&& r is Some == kind is Enum
                    &&& r matches Some(p) ==> kind == TypePlanNodeKind::Enum(*p)
                },
                None => r is None,
            },
    {
        match self.active_frame() {
            Some(f) => {
                assert(self@.stack[self@.stack.len() - 1].wf(*self.root_plan));
                self.root_plan.enum_plan_by_id(f.type_plan)
            },
            None => None,
        }
    }

    /// The field plans for the current frame: those of the struct, or of the chosen variant.
    pub fn field_plans(&self) -> (r: Option<&'facet [FieldPlan]>)
        requires
            self.wf(),
        ensures
            match self@.top_plans(*self.root_plan) {
                Some(range) => r matches Some(p) && p@ == self.root_plan.fields_in(range),
                None => r is None,
            },
    {
        match self.top_plans() {
            Some(range) => Some(self.root_plan.fields(range)),
            None => None,
        }
    }

    /// The plan node of the current frame.
    pub fn plan_node(&self) -> (r: Option<&'facet TypePlanNode>)
        requires
            self.wf(),
        ensures
            match self@.active_top() {
                Some(f) => r matches Some(n) && *n == self.root_plan.node_at(f.type_plan),
                None => r is None,
            },
    {
        match self.active_frame() {
            Some(f) => {
                assert(self@.stack[self@.stack.len() - 1].wf(*self.root_plan));
                Some(self.root_plan.node(f.type_plan))
            },
            None => None,
        }
    }

    /// The number of the plan node of the current frame.
    pub fn plan_node_id(&self) -> (r: Option<NodeId>)
        ensures
            r == match self@.active_top() {
                Some(f) => Some(f.type_plan),
                None => None,
            },
    {
        match self.active_frame() {
            Some(f) => Some(f.type_plan),
            None => None,
        }
    }

    /// The node that says everything about the type of the current frame.
    fn resolved_node(&self) -> (r: Option<&'facet TypePlanNode>)
        requires
            self.wf(),
        ensures
            match self@.active_top() {
                Some(f) => r matches Some(n) && *n == self.root_plan.resolved(
                    self.root_plan.node_at(f.type_plan),
                ),
                None => r is None,
            },
    {
        match self.plan_node_id() {
            Some(id) => {
                assert(self@.stack[self@.stack.len() - 1].wf(*self.root_plan));
                assert(self.root_plan.node_ok(self.root_plan.nodes@[id.index as int]));
                Some(self.root_plan.resolve_backref(self.root_plan.node(id)))
            },
            None => None,
        }
    }

    /// How a deserializer is to go about the type of the current frame. For a recursive type this
    /// is said at the node that it refers back to.
    pub fn deser_strategy(&self) -> (r: Option<&'facet DeserStrategy>)
        requires
            self.wf(),
        ensures
            match self@.active_top() {
                Some(f) => r matches Some(s) && *s == self.root_plan.resolved(
                    self.root_plan.node_at(f.type_plan),
                ).strategy,
                None => r is None,
            },
    {
        match self.resolved_node() {
            Some(n) => Some(&n.strategy),
            None => None,
        }
    }

    /// The plan nodes for the proxies of the type of the current frame.
    pub fn proxy_nodes(&self) -> (r: Option<&'facet ProxyNodes>)
        requires
            self.wf(),
        ensures
            match self@.active_top() {
                Some(f) => r matches Some(p) && *p == self.root_plan.resolved(
                    self.root_plan.node_at(f.type_plan),
                ).proxies,
                None => r is None,
            },
    {
        match self.resolved_node() {
            Some(n) => Some(&n.proxies),
            None => None,
        }
    }

    /// Whether the current frame is a slice builder.
    pub fn is_building_smart_ptr_slice(&self) -> (r: bool)
        ensures
            r == (self@.active_top() matches Some(f) && f.tracker is SmartPointerSlice),
    {
        match self.active_frame() {
            Some(f) => match f.tracker {
                Tracker::SmartPointerSlice { .. } => true,
                _ => false,
            },
            None => false,
        }
    }

    /// The path in deferred mode.
    pub fn current_path(&self) -> (r: Option<Path>)
        ensures
            match self@.deferred {
                Some(_) => r matches Some(p) && p@ == self@.derived_path(self.shapes()),
                None => r is None,
            },
    {
        if self.is_deferred() {
            Some(self.derive_path())
        } else {
            None
        }
    }

    /// The field that the parent of the current frame points into.
    pub fn parent_field(&self) -> (r: Option<&Field>)
        requires
            self.wf(),
        ensures
            ({
                let n = self@.stack.len();
                let f = if n >= 2 {
                    self@.stack[n - 2].field(self.shapes())
                } else {
                    None
                };
                &&& r is Some == f is Some
                &&& r matches Some(x) ==> f == Some(*x)
            }),
    {
        let frames = self.frames();
        let n: usize = frames.len();
        if n < 2 {
            return None;
        }
        assert(self@.stack[n - 2] == frames@[n - 2]@);
        assert(self@.stack[n - 2].wf(*self.root_plan));
        frames[n - 2].get_field(&self.root_plan.shapes)
    }

    /// The field that the current frame points into.
    pub fn current_field(&self) -> (r: Option<&Field>)
        requires
            self.wf(),
        ensures
            r is Some == self@.top().field(self.shapes()) is Some,
            r matches Some(x) ==> self@.top().field(self.shapes()) == Some(*x),
    {
        let frames = self.frames();
        let n: usize = frames.len();
        assert(self@.stack[n - 1] == frames@[n - 1]@);
        assert(self@.stack[n - 1].wf(*self.root_plan));
        frames[n - 1].get_field(&self.root_plan.shapes)
    }

    /// The field that the innermost frame points into which points into a field.
    pub fn nearest_field(&self) -> (r: Option<&Field>)
        requires
            self.wf(),
        ensures
            ({
                let f = innermost_field(self.shapes(), self@.stack, self@.stack.len());
                &&& r is Some == f is Some
                &&& r matches Some(x) ==> f == Some(*x)
            }),
    {
        let frames = self.frames();
        let mut n: usize = frames.len();
        while n > 0
            invariant
                self.wf(),
                n <= self@.stack.len(),
                frame_views(frames@) == self@.stack,
                innermost_field(self.shapes(), self@.stack, n as nat) == innermost_field(
                    self.shapes(),
                    self@.stack,
                    self@.stack.len(),
                ),
            decreases n,
        {
            n = n - 1;
            assert(self@.stack[n as int] == frames@[n as int]@);
            assert(self@.stack[n as int].wf(*self.root_plan));
            let field = frames[n].get_field(&self.root_plan.shapes);
            if field.is_some() {
                return field;
            }
        }
        None
    }

    /// Where the value of the current frame is, initialized or not.
    pub fn data_ptr(&self) -> (r: Option<PtrConst>)
        ensures
            r == match self@.active_top() {
                Some(f) => Some(PtrConst { addr: f.data.addr }),
                None => None,
            },
    {
        match self.active_frame() {
            Some(f) => Some(f.data.assume_init().as_const()),
            None => None,
        }
    }

    /// Where the value of the current frame is, if it is fully initialized. Whatever waits to be
    /// moved into it is moved first.
    pub fn initialized_data_ptr<H: Host>(&mut self, host: &mut H) -> (r: Option<PtrConst>)
        requires
            old(self).wf(),
        ensures
            match old(self)@.active_top() {
                Some(f) => {
                    let done = f.completed(old(self).shapes());
                    &&& final(self)@ == old(self)@.with_top(done.frame)
                    &&& final(host).view() == old(host).view().plus(done.ops)
                    &&& r == (if done.result is Ok {
                        Some(PtrConst { addr: f.data.addr })
                    } else {
                        None
                    })
                },
                None => {
                    &&& final(self)@ == old(self)@
                    &&& final(host).view() == old(host).view()
                    &&& r is None
                },
            },
            final(self).root_plan == old(self).root_plan,
            final(self).wf(),
    {
        if self.state != PartialState::Active {
            return None;
        }
        let plan = self.root_plan;
        let ghost p0 = self@;
        let ghost f0 = p0.top();
        let top: usize = self.frames().len() - 1;
        assert(f0 == self.mode.spec_stack()@[top as int]@);
        assert(p0.stack[top as int].wf(*plan));
        let frame = &mut self.mode.stack_mut()[top];
        let data = frame.data;
        let done = frame.require_full_initialization(&plan.shapes, host);
        proof {
            lemma_completed_wf(f0, *plan);
            lemma_with_top(p0, *plan, f0.completed(plan.shapes).frame);
        }
        assert(self@ =~= p0.with_top(f0.completed(plan.shapes).frame));
        match done {
            Ok(_) => Some(data.assume_init().as_const()),
            Err(_) => None,
        }
    }

    /// Where the value of the current frame is, if it is fully initialized and of this shape.
    pub fn read_as<H: Host>(&mut self, shape: ShapeRef, host: &mut H) -> (r: Option<PtrConst>)
        requires
            old(self).wf(),
        ensures
            match old(self)@.active_top() {
                Some(f) => {
                    let done = f.completed(old(self).shapes());
                    &&& final(self)@ == old(self)@.with_top(done.frame)
                    &&& final(host).view() == old(host).view().plus(done.ops)
                    &&& r == (if done.result is Ok && f.shape() == shape {
                        Some(PtrConst { addr: f.data.addr })
                    } else {
                        None
                    })
                },
                None => {
                    &&& final(self)@ == old(self)@
                    &&& final(host).view() == old(host).view()
                    &&& r is None
                },
            },
            final(self).root_plan == old(self).root_plan,
            final(self).wf(),
    {
        let matches_shape = match self.try_shape() {
            Some(s) => s == shape,
            None => false,
        };
        let ptr = self.initialized_data_ptr(host);
        if matches_shape {
            ptr
        } else {
            None
        }
    }
}

} // verus!
