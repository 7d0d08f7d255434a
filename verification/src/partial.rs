//! Values under construction.
//!
//! A [`Partial`] keeps a stack of frames. The first frame is the value itself; each further one
//! is a part of the value of the frame below it. In strict mode a frame is complete when it is
//! popped. In deferred mode frames are set aside when they are popped, so that they can be
//! entered again, and everything is completed at the end.
//!
//! Every buffer has exactly one authority that will drop its value and release it: the frame
//! that owns it, or a slot of the parent's tracker in which the finished value waits. Authority
//! moves from a frame to such a slot when the frame is consumed, and is never held twice.
use vstd::prelude::*;

use crate::error::{ReflectError, ReflectErrorKind, ReflectErrorView};
use crate::frame::{AllocatedShape, Frame, FrameOwnership, FrameView};
use crate::memory::{Addr, Host, MemOp, PtrUninit};
use crate::path::{Path, PathStep, PathView};
use crate::plan::{NodeId, TypePlanCore};
use crate::shape::{Field, Layout, SequenceType, ShapeRef, ShapeTable, Type, UserType};
use crate::stored::{all_fit, ascending, StoredFrames, StoredView};
use crate::tracker::{Tracker, TrackerView};

verus! {

/// State of a value under construction.
#[derive(Clone, Copy, PartialEq, Eq, Structural, Debug)]
pub enum PartialState {
    /// It can be modified.
    Active,
    /// It was built, and cannot be used any more.
    Built,
}

/// How frames are managed.
#[derive(Debug)]
pub enum FrameMode {
    /// Frames are complete when they are popped.
    Strict { stack: Vec<Frame> },
    /// Frames are set aside when they are popped, and can be entered again.
    Deferred {
        stack: Vec<Frame>,
        /// Number of frames when deferred mode began.
        start_depth: usize,
        /// Frames that were set aside, by path.
        stored_frames: StoredFrames,
    },
}

/// Frames as the contracts see them.
pub open spec fn frame_views(frames: Seq<Frame>) -> Seq<FrameView> {
    Seq::new(frames.len(), |i: int| frames[i]@)
}

impl FrameMode {
    /// The stack of frames.
    pub open spec fn spec_stack(self) -> Vec<Frame> {
        match self {
            FrameMode::Strict { stack } => stack,
            FrameMode::Deferred { stack, .. } => stack,
        }
    }

    /// The same mode with another stack.
    pub open spec fn with_stack(self, stack: Vec<Frame>) -> FrameMode {
        match self {
            FrameMode::Strict { .. } => FrameMode::Strict { stack },
            FrameMode::Deferred { start_depth, stored_frames, .. } => FrameMode::Deferred {
                stack,
                start_depth,
                stored_frames,
            },
        }
    }

    /// What deferred mode keeps besides the stack.
    pub open spec fn deferred(self) -> Option<DeferredView> {
        match self {
            FrameMode::Strict { .. } => None,
            FrameMode::Deferred { start_depth, stored_frames, .. } => Some(
                DeferredView { start_depth, stored: stored_frames@ },
            ),
        }
    }

    /// The stack of frames.
    pub fn stack(&self) -> (r: &Vec<Frame>)
        ensures
            *r == self.spec_stack(),
    {
        match self {
            FrameMode::Strict { stack } => stack,
            FrameMode::Deferred { stack, .. } => stack,
        }
    }

    /// The stack of frames, to be changed.
    pub fn stack_mut(&mut self) -> (r: &mut Vec<Frame>)
        ensures
            *r == old(self).spec_stack(),
            *final(self) == old(self).with_stack(*final(r)),
    {
        match self {
            FrameMode::Strict { stack } => stack,
            FrameMode::Deferred { stack, .. } => stack,
        }
    }

    /// Whether frames are set aside when they are popped.
    pub fn is_deferred(&self) -> (r: bool)
        ensures
            r == self.deferred() is Some,
    {
        match self {
            FrameMode::Strict { .. } => false,
            FrameMode::Deferred { .. } => true,
        }
    }

    /// Number of frames when deferred mode began.
    pub fn start_depth(&self) -> (r: Option<usize>)
        ensures
            r == match self.deferred() {
                Some(d) => Some(d.start_depth),
                None => None,
            },
    {
        match self {
            FrameMode::Strict { .. } => None,
            FrameMode::Deferred { start_depth, .. } => Some(*start_depth),
        }
    }
}

/// A value under construction, whose memory is kept by a host.
#[derive(Debug)]
pub struct Partial<'facet, const BORROW: bool> {
    /// The frames.
    pub mode: FrameMode,
    /// Whether the value can still be modified.
    pub state: PartialState,
    /// The plan for the type of the root.
    pub root_plan: &'facet TypePlanCore,
    /// Number of the next buffer that will be made.
    pub next_buffer: u64,
}

/// What deferred mode keeps, as the contracts see it.
#[verifier::ext_equal]
pub struct DeferredView {
    pub start_depth: usize,
    pub stored: Seq<StoredView>,
}

/// A value under construction as the contracts see it.
#[verifier::ext_equal]
pub struct PartialView {
    pub stack: Seq<FrameView>,
    pub deferred: Option<DeferredView>,
    pub state: PartialState,
    pub next_buffer: u64,
}

impl<'facet, const BORROW: bool> View for Partial<'facet, BORROW> {
    type V = PartialView;

    open spec fn view(&self) -> PartialView {
        PartialView {
            stack: frame_views(self.mode.spec_stack()@),
            deferred: self.mode.deferred(),
            state: self.state,
            next_buffer: self.next_buffer,
        }
    }
}

/// A path index. Indices beyond 32 bits are cut off.
pub open spec fn step_index(idx: usize) -> u32 {
    idx as u32
}

fn exec_step_index(idx: usize) -> (r: u32)
    ensures
        r == step_index(idx),
{
    #[verifier::truncate]
    (idx as u32)
}

/// The step into the part that a frame is working on, by which stored frames are found again.
pub open spec fn navigation(f: FrameView) -> Option<PathStep> {
    match f.tracker {
        TrackerView::Struct { current_child: Some(idx), .. } => Some(
            PathStep::Field(step_index(idx)),
        ),
        TrackerView::Enum { current_child: Some(idx), .. } => Some(
            PathStep::Field(step_index(idx)),
        ),
        TrackerView::List { current_child: Some(idx), .. } => Some(
            PathStep::Index(step_index(idx)),
        ),
        TrackerView::Array { current_child: Some(idx), .. } => Some(
            PathStep::Index(step_index(idx)),
        ),
        TrackerView::SmartPointerSlice { current_child: Some(idx), .. } => Some(
            PathStep::Index(step_index(idx)),
        ),
        TrackerView::Option { building_inner: true, .. } => Some(PathStep::OptionSome),
        TrackerView::SmartPointer { building_inner: true, .. } => Some(PathStep::Deref),
        TrackerView::Inner { building_inner: true } => Some(PathStep::Inner),
        TrackerView::MapOf { current_entry_index: Some(idx), building_key, .. } => Some(
            if building_key {
                PathStep::MapKey(step_index(idx))
            } else {
                PathStep::MapValue(step_index(idx))
            },
        ),
        _ => None,
    }
}

/// A step, if there is one.
pub open spec fn optional_step(step: Option<PathStep>) -> Seq<PathStep> {
    match step {
        Some(s) => seq![s],
        None => Seq::empty(),
    }
}

/// Steps that the first `n` frames contribute; a frame that holds a proxy is one step further.
pub open spec fn navigation_steps(frames: Seq<FrameView>, n: nat) -> Seq<PathStep>
    decreases n,
{
    if n == 0 {
        Seq::empty()
    } else {
        navigation_steps(frames, (n - 1) as nat) + optional_step(navigation(frames[n - 1])) + (if n
            < frames.len() && frames[n as int].using_custom_deserialization {
            seq![PathStep::Proxy]
        } else {
            Seq::empty()
        })
    }
}

/// Steps by which a frame shows in the path of an error.
pub open spec fn shown_steps(t: ShapeTable, f: FrameView) -> Seq<PathStep> {
    match t.at(f.shape()).ty {
        Type::User(UserType::Struct(_)) => match f.tracker {
            TrackerView::Struct { current_child: Some(idx), .. } => seq![
                PathStep::Field(step_index(idx)),
            ],
            _ => Seq::empty(),
        },
        Type::User(UserType::Enum(_)) => match f.tracker {
            TrackerView::Enum { variant_idx, current_child, .. } => seq![
                PathStep::Variant(step_index(variant_idx)),
            ] + optional_step(
                match current_child {
                    Some(idx) => Some(PathStep::Field(step_index(idx))),
                    None => None,
                },
            ),
            _ => Seq::empty(),
        },
        Type::User(UserType::Opaque) => match f.tracker {
            TrackerView::List { current_child: Some(idx), .. } => seq![
                PathStep::Index(step_index(idx)),
            ],
            _ => Seq::empty(),
        },
        Type::Sequence(SequenceType::Array(_)) => match f.tracker {
            TrackerView::Array { current_child: Some(idx), .. } => seq![
                PathStep::Index(step_index(idx)),
            ],
            _ => Seq::empty(),
        },
        Type::Pointer => seq![PathStep::Deref],
        _ => Seq::empty(),
    }
}

/// Steps by which the first `n` frames show in the path of an error.
pub open spec fn shown_path(t: ShapeTable, frames: Seq<FrameView>, n: nat) -> Seq<PathStep>
    decreases n,
{
    if n == 0 {
        Seq::empty()
    } else {
        shown_path(t, frames, (n - 1) as nat) + shown_steps(t, frames[n - 1])
    }
}

/// The innermost of the first `n` frames that points into a field, with that field.
pub open spec fn innermost_field(t: ShapeTable, frames: Seq<FrameView>, n: nat) -> Option<Field>
    decreases n,
{
    if n == 0 {
        None
    } else {
        match frames[n - 1].field(t) {
            Some(f) => Some(f),
            None => innermost_field(t, frames, (n - 1) as nat),
        }
    }
}

impl PartialView {
    /// The current frame.
    pub open spec fn top(self) -> FrameView {
        self.stack.last()
    }

    /// The same with another current frame.
    pub open spec fn with_top(self, f: FrameView) -> PartialView {
        PartialView { stack: self.stack.update(self.stack.len() - 1, f), ..self }
    }

    /// The same with one more frame.
    pub open spec fn pushed(self, f: FrameView) -> PartialView {
        PartialView { stack: self.stack.push(f), ..self }
    }

    /// The same without the current frame.
    pub open spec fn popped(self) -> PartialView {
        PartialView { stack: self.stack.drop_last(), ..self }
    }

    /// A frame on a field has a parent, and the field is there if the parent is a struct.
    pub open spec fn field_frame_ok(self, t: ShapeTable, i: int) -> bool {
        self.stack[i].ownership matches FrameOwnership::Field { field_idx } ==> {
            &&& i > 0
            &&& t.is_struct(self.stack[i - 1].shape()) ==> field_idx < t.struct_fields(
                self.stack[i - 1].shape(),
            ).len()
        }
    }

    /// A frame is what the one below it asks for.
    pub open spec fn is_suited(self, t: ShapeTable, i: int) -> bool {
        i > 0 ==> self.stack[i - 1].suits(t, self.stack[i])
    }

    /// All frames fit the plan and one another.
    pub open spec fn wf(self, plan: TypePlanCore) -> bool {
        &&& self.stack.len() > 0
        &&& forall|i: int|
            #![trigger self.stack[i]]
            0 <= i < self.stack.len() ==> self.stack[i].wf(plan)
        &&& forall|i: int|
            #![trigger self.field_frame_ok(plan.shapes, i)]
            0 <= i < self.stack.len() ==> self.field_frame_ok(plan.shapes, i)
        &&& forall|i: int|
            #![trigger self.is_suited(plan.shapes, i)]
            0 <= i < self.stack.len() ==> self.is_suited(plan.shapes, i)
        &&& self.deferred matches Some(d) ==> ascending(d.stored) && all_fit(d.stored, plan)
    }

    /// The root shape.
    pub open spec fn root(self, t: ShapeTable) -> ShapeRef {
        if self.stack.len() > 0 {
            self.stack[0].shape()
        } else {
            t.unit_shape
        }
    }

    /// Where the current frame is, as errors report it.
    pub open spec fn path(self, t: ShapeTable) -> PathView {
        PathView { shape: self.root(t), steps: shown_path(t, self.stack, self.stack.len()) }
    }

    /// Where a part of the current frame would be set aside.
    pub open spec fn derived_path(self, t: ShapeTable) -> PathView {
        PathView { shape: self.root(t), steps: navigation_steps(self.stack, self.stack.len()) }
    }

    /// Where the current frame would be set aside.
    pub open spec fn storage_path(self, t: ShapeTable) -> PathView {
        PathView {
            shape: self.root(t),
            steps: navigation_steps(self.stack, (self.stack.len() - 1) as nat),
        }
    }

    /// The error that is reported for what went wrong at the current frame.
    pub open spec fn err(self, t: ShapeTable, kind: ReflectErrorKind) -> ReflectErrorView {
        ReflectErrorView { kind, path: self.path(t) }
    }
}

/// Operations that allocate a buffer; nothing is allocated for an empty one.
pub open spec fn alloc_ops(layout: Layout, buf: u64) -> Seq<MemOp> {
    if layout.size > 0 {
        seq![MemOp::Alloc { buf, layout }]
    } else {
        Seq::empty()
    }
}

/// Allocates a buffer; nothing is allocated for an empty one.
pub fn alloc_for_layout<H: Host>(layout: Layout, buf: u64, host: &mut H) -> (p: PtrUninit)
    ensures
        p.addr == Addr::start(buf),
        final(host).view() == old(host).view().plus(alloc_ops(layout, buf)),
{
    if layout.size > 0 {
        host.act(MemOp::Alloc { buf, layout });
    }
    PtrUninit { addr: Addr::start(buf) }
}

impl<'facet, const BORROW: bool> Partial<'facet, BORROW> {
    /// The plan fits together, and the frames fit the plan.
    pub open spec fn wf(self) -> bool {
        &&& self.root_plan.wf()
        &&& self@.wf(*self.root_plan)
    }

    /// What is known of all types.
    pub open spec fn shapes(self) -> ShapeTable {
        self.root_plan.shapes
    }

    /// A value of the type of plan node `root`, in memory that is allocated for it.
    pub fn alloc_shape<H: Host>(root_plan: &'facet TypePlanCore, root: NodeId, host: &mut H) -> (r: Result<
        Self,
        ReflectError,
    >)
        requires
            root_plan.wf(),
            root_plan.has_node(root),
        ensures
            ({
                let t = root_plan.shapes;
                let shape = root_plan.node_at(root).shape;
                match t.sized(shape) {
                    Some(layout) => {
                        &&& r matches Ok(p)
                        &&& p.wf()
                        &&& p.root_plan == root_plan
                        &&& p@ == (PartialView {
                            stack: seq![
                                Frame::spec_new(
                                    t,
                                    PtrUninit { addr: Addr::start(0) },
                                    AllocatedShape { shape, allocated_size: layout.size },
                                    FrameOwnership::Owned,
                                    root,
                                ),
                            ],
                            deferred: None,
                            state: PartialState::Active,
                            next_buffer: 1,
                        })
                        &&& final(host).view() == old(host).view().plus(alloc_ops(layout, 0))
                    },
                    None => {
                        &&& r matches Err(e)
                        &&& e@ == (ReflectErrorView {
                            kind: ReflectErrorKind::Unsized { shape, operation: "alloc_shape" },
                            path: PathView { shape, steps: Seq::empty() },
                        })
                        &&& final(host).view() == old(host).view()
                    },
                }
            }),
    {
        let shape = root_plan.node(root).shape;
        let layout = match root_plan.shapes.sized_layout(shape) {
            Some(l) => l,
            None => {
                return Err(
                    ReflectError::new(
                        ReflectErrorKind::Unsized { shape, operation: "alloc_shape" },
                        Path::new(shape),
                    ),
                );
            },
        };
        let data = alloc_for_layout(layout, 0, host);
        let frame = Frame::new(
            &root_plan.shapes,
            data,
            AllocatedShape::new(shape, layout.size),
            FrameOwnership::Owned,
            root,
        );
        let mut stack: Vec<Frame> = Vec::new();
        stack.push(frame);
        Ok(
            Partial {
                mode: FrameMode::Strict { stack },
                state: PartialState::Active,
                root_plan,
                next_buffer: 1,
            },
        )
    }

    /// A value of the type of plan node `root`, in memory that the caller keeps.
    pub fn from_raw_with_shape(root_plan: &'facet TypePlanCore, root: NodeId, data: PtrUninit) -> (r:
        Result<Self, ReflectError>)
        requires
            root_plan.wf(),
            root_plan.has_node(root),
        ensures
            ({
                let t = root_plan.shapes;
                let shape = root_plan.node_at(root).shape;
                match t.sized(shape) {
                    Some(layout) => {
                        &&& r matches Ok(p)
                        &&& p.wf()
                        &&& p.root_plan == root_plan
                        &&& p@ == (PartialView {
                            stack: seq![
                                Frame::spec_new(
                                    t,
                                    data,
                                    AllocatedShape { shape, allocated_size: layout.size },
                                    FrameOwnership::External,
                                    root,
                                ),
                            ],
                            deferred: None,
                            state: PartialState::Active,
                            next_buffer: data.addr.buf.wrapping_add(1),
                        })
                    },
                    None => {
                        &&& r matches Err(e)
                        &&& e@ == (ReflectErrorView {
                            kind: ReflectErrorKind::Unsized {
                                shape,
                                operation: "from_raw_with_shape",
                            },
                            path: PathView { shape, steps: Seq::empty() },
                        })
                    },
                }
            }),
    {
        let shape = root_plan.node(root).shape;
        let layout = match root_plan.shapes.sized_layout(shape) {
            Some(l) => l,
            None => {
                return Err(
                    ReflectError::new(
                        ReflectErrorKind::Unsized { shape, operation: "from_raw_with_shape" },
                        Path::new(shape),
                    ),
                );
            },
        };
        let frame = Frame::new(
            &root_plan.shapes,
            data,
            AllocatedShape::new(shape, layout.size),
            FrameOwnership::External,
            root,
        );
        let mut stack: Vec<Frame> = Vec::new();
        stack.push(frame);
        Ok(
            Partial {
                mode: FrameMode::Strict { stack },
                state: PartialState::Active,
                root_plan,
                next_buffer: data.addr.buf.wrapping_add(1),
            },
        )
    }

    /// The frames.
    pub fn frames(&self) -> (r: &Vec<Frame>)
        ensures
            *r == self.mode.spec_stack(),
            frame_views(r@) == self@.stack,
    {
        self.mode.stack()
    }

    /// Whether deferred mode is on.
    pub fn is_deferred(&self) -> (r: bool)
        ensures
            r == self@.deferred is Some,
    {
        self.mode.is_deferred()
    }

    /// Number of frames when deferred mode began.
    pub fn start_depth(&self) -> (r: Option<usize>)
        ensures
            r == match self@.deferred {
                Some(d) => Some(d.start_depth),
                None => None,
            },
    {
        self.mode.start_depth()
    }

    /// The root shape of the frames, which anchors paths.
    fn path_root(&self) -> (r: ShapeRef)
        ensures
            r == self@.root(self.shapes()),
    {
        let frames = self.frames();
        if frames.len() > 0 {
            assert(self@.stack[0] == frames@[0]@);
            frames[0].allocated.shape()
        } else {
            self.root_plan.shapes.unit_shape
        }
    }

    /// The path that the first `n` frames describe, by which stored frames are found.
    fn navigation_path(&self, n: usize) -> (p: Path)
        requires
            n <= self@.stack.len(),
        ensures
            p@ == (PathView {
                shape: self@.root(self.shapes()),
                steps: navigation_steps(self@.stack, n as nat),
            }),
    {
        let frames = self.frames();
        let mut path = Path::new(self.path_root());
        let mut i: usize = 0;
        while i < n
            invariant
                i <= n <= self@.stack.len(),
                frame_views(frames@) == self@.stack,
                path@.shape == self@.root(self.shapes()),
                path@.steps == navigation_steps(self@.stack, i as nat),
            decreases n - i,
        {
            assert(self@.stack[i as int] == frames@[i as int]@);
            if let Some(step) = frames[i].navigation() {
                path.push(step);
            }
            if i + 1 < frames.len() {
                assert(self@.stack[i + 1] == frames@[i + 1]@);
                if frames[i + 1].using_custom_deserialization {
                    path.push(PathStep::Proxy);
                }
            }
            i = i + 1;
            assert(path@.steps =~= navigation_steps(self@.stack, i as nat));
        }
        path
    }

    /// The path that leads to the part which the current frame is working on.
    ///
    /// A frame for that part would be set aside under this path.
    pub fn derive_path(&self) -> (p: Path)
        ensures
            p@ == self@.derived_path(self.shapes()),
    {
        self.navigation_path(self.frames().len())
    }

    /// The path under which the current frame would be set aside.
    pub fn storage_path(&self) -> (p: Path)
        requires
            self@.stack.len() > 0,
        ensures
            p@ == self@.storage_path(self.shapes()),
    {
        self.navigation_path(self.frames().len() - 1)
    }

    /// The path to the current frame, as errors report it.
    pub fn path(&self) -> (p: Path)
        requires
            self@.stack.len() > 0,
            forall|i: int|
                #![trigger self@.stack[i]]
                0 <= i < self@.stack.len() ==> self@.stack[i].fits(self.shapes()),
        ensures
            p@ == self@.path(self.shapes()),
    {
        let frames = self.frames();
        let mut path = Path::new(self.path_root());
        let mut i: usize = 0;
        while i < frames.len()
            invariant
                i <= self@.stack.len(),
                frames@.len() == self@.stack.len(),
                frame_views(frames@) == self@.stack,
                forall|k: int|
                    #![trigger self@.stack[k]]
                    0 <= k < self@.stack.len() ==> self@.stack[k].fits(self.shapes()),
                path@.shape == self@.root(self.shapes()),
                path@.steps == shown_path(self.shapes(), self@.stack, i as nat),
            decreases self@.stack.len() - i,
        {
            assert(self@.stack[i as int] == frames@[i as int]@);
            frames[i].show_in(&self.root_plan.shapes, &mut path);
            i = i + 1;
        }
        path
    }

    /// The root shape.
    pub fn root_shape(&self) -> (r: ShapeRef)
        requires
            self@.stack.len() > 0,
        ensures
            r == self@.stack[0].shape(),
    {
        let frames = self.frames();
        assert(self@.stack[0] == frames@[0]@);
        frames[0].allocated.shape()
    }

    /// An error at the current frame.
    pub fn err(&self, kind: ReflectErrorKind) -> (e: ReflectError)
        requires
            self@.stack.len() > 0,
            forall|i: int|
                #![trigger self@.stack[i]]
                0 <= i < self@.stack.len() ==> self@.stack[i].fits(self.shapes()),
        ensures
            e@ == self@.err(self.shapes(), kind),
    {
        ReflectError::new(kind, self.path())
    }
}

impl Frame {
    /// The step into the part that the frame is working on, by which stored frames are found.
    pub fn navigation(&self) -> (r: Option<PathStep>)
        ensures
            r == navigation(self@),
    {
        match &self.tracker {
            Tracker::Struct { current_child: Some(idx), .. } => Some(
                PathStep::Field(exec_step_index(*idx)),
            ),
            Tracker::Enum { current_child: Some(idx), .. } => Some(
                PathStep::Field(exec_step_index(*idx)),
            ),
            Tracker::List { current_child: Some(idx), .. } => Some(
                PathStep::Index(exec_step_index(*idx)),
            ),
            Tracker::Array { current_child: Some(idx), .. } => Some(
                PathStep::Index(exec_step_index(*idx)),
            ),
            Tracker::SmartPointerSlice { current_child: Some(idx), .. } => Some(
                PathStep::Index(exec_step_index(*idx)),
            ),
            Tracker::Option { building_inner: true, .. } => Some(PathStep::OptionSome),
            Tracker::SmartPointer { building_inner: true, .. } => Some(PathStep::Deref),
            Tracker::Inner { building_inner: true } => Some(PathStep::Inner),
            Tracker::MapOf { current_entry_index: Some(idx), building_key, .. } => {
                if *building_key {
                    Some(PathStep::MapKey(exec_step_index(*idx)))
                } else {
                    Some(PathStep::MapValue(exec_step_index(*idx)))
                }
            },
            _ => None,
        }
    }

    /// Adds the steps by which the frame shows in the path of an error.
    pub fn show_in(&self, t: &ShapeTable, path: &mut Path)
        requires
            t.has(self@.shape()),
        ensures
            final(path)@ == (PathView {
                shape: old(path)@.shape,
                steps: old(path)@.steps + shown_steps(*t, self@),
            }),
    {
        match &t.get(self.allocated.shape()).ty {
            Type::User(user) => match user {
                UserType::Struct(_) => {
                    if let Tracker::Struct { current_child: Some(idx), .. } = &self.tracker {
                        path.push(PathStep::Field(exec_step_index(*idx)));
                    }
                },
                UserType::Enum(_) => {
                    if let Tracker::Enum { variant_idx, current_child, .. } = &self.tracker {
                        path.push(PathStep::Variant(exec_step_index(*variant_idx)));
                        if let Some(idx) = current_child {
                            path.push(PathStep::Field(exec_step_index(*idx)));
                        }
                    }
                },
                UserType::Opaque => {
                    if let Tracker::List { current_child: Some(idx), .. } = &self.tracker {
                        path.push(PathStep::Index(exec_step_index(*idx)));
                    }
                },
                _ => {},
            },
            Type::Sequence(SequenceType::Array(_)) => {
                if let Tracker::Array { current_child: Some(idx), .. } = &self.tracker {
                    path.push(PathStep::Index(exec_step_index(*idx)));
                }
            },
            Type::Pointer => {
                path.push(PathStep::Deref);
            },
            _ => {},
        }
    }
}

} // verus!
