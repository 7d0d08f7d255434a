//! Deferred mode: frames are set aside when they end, and are completed together at the end.
use vstd::prelude::*;

use crate::absorb::{is_absorbing, lemma_absorbed_wf};
use crate::cancel::{lemma_pool_at, PoolHost};
use crate::error::{ReflectError, ReflectErrorKind, ReflectErrorView};
use crate::frame::{Frame, FrameOwnership, FrameView};
use crate::memory::{Addr, Host, HostView, MemOp, PtrUninit};
use crate::partial::{
    alloc_for_layout, alloc_ops, frame_views, DeferredView, FrameMode, Partial, PartialView,
};
use crate::path::{Path, PathStep, PathView};
use crate::plan::TypePlanCore;
use crate::pool::{
    frame_mut, lemma_pool_with, lemma_pool_without, place_of, pool_of, same_frames, same_place,
    Place, Pool,
};
use crate::shape::{Def, Layout, ShapeTable};
use crate::stored::{deepest, StoredFrame, StoredFrames};
use crate::tracker::{Tracker, TrackerView};

verus! {

/// What an operation makes of a value under construction, before it is given up on an error.
#[verifier::ext_equal]
pub struct PartialOutcome {
    pub partial: PartialView,
    pub host: HostView,
    pub result: Result<(), ReflectErrorView>,
}

impl PartialOutcome {
    /// What is handed back: the value on success, and on an error the error, after the value was
    /// given up.
    pub open spec fn returned<'facet, const BORROW: bool>(
        self,
        plan: &'facet TypePlanCore,
        r: Result<Partial<'facet, BORROW>, ReflectError>,
        host: HostView,
    ) -> bool {
        match self.result {
            Ok(_) => {
                &&& r matches Ok(p)
                &&& p@ == self.partial
                &&& p.root_plan == plan
                &&& p.wf()
                &&& host == self.host
            },
            Err(e) => {
                &&& r matches Err(x)
                &&& x@ == e
                &&& host == self.partial.cancelled(plan.shapes, self.host)
            },
        }
    }
}

/// The pool after the parent of the frame at `path` gave up its claim to that frame, which is a
/// field or an element.
pub open spec fn parent_clears(pool: Pool, path: PathView) -> Pool {
    let at = pool.place(path.parent());
    if path.steps.len() == 0 || at is Nowhere {
        pool
    } else {
        match path.steps.last() {
            PathStep::Field(idx) => pool.with(at, pool.at(at).without_field(idx as usize)),
            PathStep::Index(idx) => pool.with(at, pool.at(at).without_field(idx as usize)),
            _ => pool,
        }
    }
}

/// The host after what is initialized in a frame was dropped and its memory released.
pub open spec fn disposed(t: ShapeTable, frame: FrameView, h: HostView) -> HostView {
    h.plus(frame.deinit_ops(t)).plus(frame.deinited().dealloc_ops(t))
}

/// Disposes of the deepest stored frame, after its parent gave up its claim.
pub open spec fn cleanup_step(t: ShapeTable, w: PoolHost) -> PoolHost {
    let i = deepest(w.pool.stored, w.pool.stored.len()) as int;
    let e = w.pool.stored[i];
    PoolHost {
        pool: parent_clears(w.pool.without(i), e.path),
        host: disposed(t, e.frame, w.host),
    }
}

/// Disposes of `n` stored frames, the deepest first.
pub open spec fn cleanup(t: ShapeTable, w: PoolHost, n: nat) -> PoolHost
    decreases n,
{
    if n == 0 {
        w
    } else {
        cleanup_step(t, cleanup(t, w, (n - 1) as nat))
    }
}

/// How far completing the stored frames has come.
#[verifier::ext_equal]
pub struct Walk {
    pub pool: Pool,
    pub host: HostView,
    pub next_buffer: u64,
    /// What went wrong; nothing follows it.
    pub failed: Option<ReflectErrorKind>,
}

/// A stored frame that was taken out, with the state in which it is completed.
#[verifier::ext_equal]
pub struct Taken {
    pub frame: FrameView,
    pub host: HostView,
    pub next_buffer: u64,
    pub result: Result<(), ReflectErrorKind>,
}

/// A slice builder was turned into the pointer that it builds, and the pointer went to its place.
///
/// Where there is no place for the pointer, it is dropped, and the value is not initialized. A
/// builder of something that is not sized is left to be freed.
pub open spec fn slice_finished(
    t: ShapeTable,
    pool: Pool,
    path: PathView,
    frame: FrameView,
    h: HostView,
    next_buffer: u64,
) -> Taken {
    match frame.tracker {
        TrackerView::SmartPointerSlice { vtable, .. } => match t.sized(frame.shape()) {
            Some(layout) => {
                let made = Addr::start(next_buffer);
                let next1 = next_buffer.wrapping_add(1);
                let h1 = h.after(
                    MemOp::SliceConvert {
                        f: vtable.convert_fn,
                        builder: frame.data.addr,
                        buf: next_buffer,
                    },
                );
                let at = pool.place(path.parent());
                match frame.ownership {
                    FrameOwnership::Field { field_idx } => if !(at is Nowhere) && t.is_struct(
                        pool.at(at).shape(),
                    ) {
                        let field = t.struct_fields(pool.at(at).shape())[field_idx as int];
                        let dst = pool.at(at).data.addr.field(field.offset);
                        Taken {
                            frame: frame.placed(PtrUninit { addr: dst }, layout),
                            host: h1.after(
                                MemOp::Copy { src: made, dst, size: layout.size },
                            ).after(MemOp::Dealloc { at: made, layout }),
                            next_buffer: next1,
                            result: Ok(()),
                        }
                    } else {
                        slice_unplaced(t, frame, h1, next_buffer, layout)
                    },
                    FrameOwnership::Owned => {
                        let dst = Addr::start(next1);
                        Taken {
                            frame: frame.placed(PtrUninit { addr: dst }, layout),
                            host: h1.plus(alloc_ops(layout, next1)).after(
                                MemOp::Copy { src: made, dst, size: layout.size },
                            ).after(MemOp::Dealloc { at: made, layout }),
                            next_buffer: next1.wrapping_add(1),
                            result: Ok(()),
                        }
                    },
                    _ => slice_unplaced(t, frame, h1, next_buffer, layout),
                }
            },
            None => Taken { frame, host: h, next_buffer, result: Err(frame.uninitialized()) },
        },
        _ => Taken { frame, host: h, next_buffer, result: Ok(()) },
    }
}

/// A pointer in buffer `made` that was made by a slice builder has no place: it is dropped. Its
/// memory becomes that of a frame that owns its memory, and is released otherwise.
pub open spec fn slice_unplaced(
    t: ShapeTable,
    frame: FrameView,
    h: HostView,
    made: u64,
    layout: Layout,
) -> Taken {
    let data = PtrUninit { addr: Addr::start(made) };
    let dropped = h.plus(t.drop_ops(frame.shape(), data.addr));
    Taken {
        frame: if frame.ownership.releases() {
            frame.deinited().housed(data, layout)
        } else {
            frame.deinited()
        },
        host: if frame.ownership.releases() {
            dropped
        } else {
            dropped.after(MemOp::Dealloc { at: data.addr, layout })
        },
        next_buffer: made.wrapping_add(1),
        result: Err(frame.uninitialized()),
    }
}

/// A stored frame could not be completed: it and all other stored frames are disposed of.
pub open spec fn abandoned(
    t: ShapeTable,
    pool: Pool,
    path: PathView,
    frame: FrameView,
    h: HostView,
) -> PoolHost {
    let w = PoolHost { pool: parent_clears(pool, path), host: disposed(t, frame, h) };
    cleanup(t, w, w.pool.stored.len())
}

/// A stored frame is complete: its parent takes it over, or counts the field as initialized.
pub open spec fn consumed(
    t: ShapeTable,
    pool: Pool,
    path: PathView,
    frame: FrameView,
    h: HostView,
) -> PoolHost {
    let at = pool.place(path.parent());
    let released = h.plus(frame.dealloc_ops(t));
    if path.steps.len() == 0 || at is Nowhere {
        PoolHost { pool, host: released }
    } else {
        let step = path.steps.last();
        let parent = pool.at(at);
        if is_absorbing(step) {
            let r = parent.absorbed(t, step, frame, h);
            PoolHost { pool: pool.with(at, r.frame), host: r.host }
        } else {
            PoolHost {
                pool: match step {
                    PathStep::Field(idx) => pool.with(at, parent.with_field(t, idx as usize)),
                    _ => pool,
                },
                host: released,
            }
        }
    }
}

/// Completes the deepest stored frame.
///
/// A slice is converted first. If anything goes wrong, all stored frames are disposed of.
pub open spec fn walk_step(t: ShapeTable, w: Walk) -> Walk {
    let i = deepest(w.pool.stored, w.pool.stored.len()) as int;
    let e = w.pool.stored[i];
    let pool = w.pool.without(i);
    let a = slice_finished(t, pool, e.path, e.frame, w.host, w.next_buffer);
    let filled = a.frame.filled(t);
    let h1 = a.host.plus(filled.ops);
    let done = filled.frame.completed(t);
    let h2 = h1.plus(done.ops);
    let (after, failed) = match (a.result, filled.result, done.result) {
        (Err(kind), _, _) => (abandoned(t, pool, e.path, a.frame, a.host), Some(kind)),
        (_, Err(kind), _) => (abandoned(t, pool, e.path, filled.frame, h1), Some(kind)),
        (_, _, Err(kind)) => (abandoned(t, pool, e.path, done.frame, h2), Some(kind)),
        _ => (consumed(t, pool, e.path, done.frame, h2), None),
    };
    Walk { pool: after.pool, host: after.host, next_buffer: a.next_buffer, failed }
}

/// Completes up to `n` stored frames, the deepest first, and of equally deep ones the first by
/// path.
pub open spec fn walk(t: ShapeTable, w: Walk, n: nat) -> Walk
    decreases n,
{
    if n == 0 {
        w
    } else {
        let q = walk(t, w, (n - 1) as nat);
        if q.failed is Some {
            q
        } else {
            walk_step(t, q)
        }
    }
}

/// A key or value that a map will keep owns its memory, and is of the right shape.
pub open spec fn is_owed(t: ShapeTable, parent: FrameView, step: PathStep, child: FrameView) -> bool {
    match (step, parent.tracker, t.at(parent.shape()).def) {
        (PathStep::MapKey(_), TrackerView::MapOf { .. }, Def::MapOf(d)) => child.owns(d.k),
        (PathStep::MapValue(_), TrackerView::MapOf { .. }, Def::MapOf(d)) => child.owns(d.v),
        _ => true,
    }
}

/// A complete frame can be handed to its parent: map keys and values are what the map keeps and
/// arrive in order, and a frame that is not taken over does not own the memory of an initialized
/// value.
pub open spec fn consumable(t: ShapeTable, pool: Pool, path: PathView, frame: FrameView) -> bool {
    let at = pool.place(path.parent());
    if path.steps.len() > 0 && !(at is Nowhere) && is_absorbing(path.steps.last()) {
        &&& pool.at(at).in_order(path.steps.last())
        &&& is_owed(t, pool.at(at), path.steps.last(), frame)
    } else {
        frame.ownership.releases() ==> !frame.is_init
    }
}

/// The deepest stored frame can be dealt with.
///
/// The builder of a slice that is a field has a parent path, and the field is there if the
/// parent is a struct. A complete frame can be handed to its parent.
pub open spec fn step_ready(t: ShapeTable, w: Walk) -> bool {
    let i = deepest(w.pool.stored, w.pool.stored.len()) as int;
    let e = w.pool.stored[i];
    let pool = w.pool.without(i);
    let at = pool.place(e.path.parent());
    let a = slice_finished(t, pool, e.path, e.frame, w.host, w.next_buffer);
    let filled = a.frame.filled(t);
    let done = filled.frame.completed(t);
    &&& e.frame.tracker is SmartPointerSlice ==> (e.frame.ownership matches FrameOwnership::Field {
        field_idx,
    } ==> {
        &&& e.path.steps.len() > 0
        &&& !(at is Nowhere) && t.is_struct(pool.at(at).shape()) ==> field_idx < t.struct_fields(
            pool.at(at).shape(),
        ).len()
    })
    &&& a.result is Ok && filled.result is Ok && done.result is Ok ==> consumable(
        t,
        pool,
        e.path,
        done.frame,
    )
}

/// Each stored frame can be dealt with when its turn comes.
pub open spec fn walk_ready(t: ShapeTable, w: Walk) -> bool {
    forall|n: nat|
        #![trigger walk(t, w, n)]
        n < w.pool.stored.len() && walk(t, w, n).failed is None ==> step_ready(t, walk(t, w, n))
}

impl PartialView {
    /// Where completing the stored frames starts.
    pub open spec fn walk_start(self, h: HostView) -> Walk {
        Walk { pool: self.pool(), host: h, next_buffer: self.next_buffer, failed: None }
    }

    /// Each stored frame can be dealt with when its turn comes.
    pub open spec fn finishable(self, t: ShapeTable, h: HostView) -> bool {
        self.deferred is Some ==> walk_ready(t, self.walk_start(h))
    }

    /// Leaves deferred mode: the stored frames are completed, the deepest first, and then the
    /// current frame.
    pub open spec fn finished(self, t: ShapeTable, h: HostView) -> PartialOutcome {
        match self.deferred {
            None => PartialOutcome {
                partial: self,
                host: h,
                result: Err(
                    self.err(
                        t,
                        ReflectErrorKind::InvariantViolation {
                            invariant: "finish_deferred() called but deferred mode is not enabled",
                        },
                    ),
                ),
            },
            Some(d) => {
                let w = walk(t, self.walk_start(h), d.stored.len());
                let p = PartialView {
                    stack: w.pool.stack,
                    deferred: None,
                    next_buffer: w.next_buffer,
                    ..self
                };
                match w.failed {
                    Some(kind) => PartialOutcome {
                        partial: p,
                        host: w.host,
                        result: Err(p.err(t, kind)),
                    },
                    None => p.top_finished(t, w.host),
                }
            },
        }
    }

    /// Completes the current frame.
    pub open spec fn top_finished(self, t: ShapeTable, h: HostView) -> PartialOutcome {
        let filled = self.top().filled(t);
        let p1 = self.with_top(filled.frame);
        let h1 = h.plus(filled.ops);
        match filled.result {
            Err(kind) => PartialOutcome { partial: p1, host: h1, result: Err(p1.err(t, kind)) },
            Ok(_) => {
                let done = filled.frame.completed(t);
                let p2 = p1.with_top(done.frame);
                let h2 = h1.plus(done.ops);
                match done.result {
                    Err(kind) => PartialOutcome {
                        partial: p2,
                        host: h2,
                        result: Err(p2.err(t, kind)),
                    },
                    Ok(_) => PartialOutcome { partial: p2, host: h2, result: Ok(()) },
                }
            },
        }
    }

    /// Enters deferred mode.
    pub open spec fn deferring(self, t: ShapeTable, h: HostView) -> PartialOutcome {
        match self.deferred {
            Some(_) => PartialOutcome {
                partial: self,
                host: h,
                result: Err(
                    self.err(
                        t,
                        ReflectErrorKind::InvariantViolation {
                            invariant: "begin_deferred() called but already in deferred mode",
                        },
                    ),
                ),
            },
            None => PartialOutcome {
                partial: PartialView {
                    deferred: Some(
                        DeferredView {
                            start_depth: self.stack.len() as usize,
                            stored: Seq::empty(),
                        },
                    ),
                    ..self
                },
                host: h,
                result: Ok(()),
            },
        }
    }
}

/// Filling in defaults keeps a frame within its plan.
pub proof fn lemma_filled_wf(f: FrameView, plan: TypePlanCore)
    requires
        f.wf(plan),
    ensures
        f.filled(plan.shapes).frame.wf(plan),
        f.same_frame(f.filled(plan.shapes).frame),
{
    reveal(FrameView::filled);
}

/// Completing keeps a frame within its plan.
pub proof fn lemma_completed_wf(f: FrameView, plan: TypePlanCore)
    requires
        f.wf(plan),
    ensures
        f.completed(plan.shapes).frame.wf(plan),
        f.same_frame(f.completed(plan.shapes).frame),
{
    reveal(FrameView::completed);
}

/// Taking a claim from a parent keeps all frames in order.
pub proof fn lemma_parent_clears(pool: Pool, plan: TypePlanCore, path: PathView)
    requires
        pool.wf(plan),
        pool.place(path.parent()) is Nowhere || pool.has(pool.place(path.parent())),
    ensures
        parent_clears(pool, path).wf(plan),
        parent_clears(pool, path).stored.len() == pool.stored.len(),
        same_frames(pool.stack, parent_clears(pool, path).stack),
{
    let at = pool.place(path.parent());
    if path.steps.len() > 0 && !(at is Nowhere) {
        match path.steps.last() {
            PathStep::Field(idx) => {
                lemma_pool_at(pool, plan, at);
                lemma_pool_with(pool, plan, at, pool.at(at).without_field(idx as usize));
            },
            PathStep::Index(idx) => {
                lemma_pool_at(pool, plan, at);
                lemma_pool_with(pool, plan, at, pool.at(at).without_field(idx as usize));
            },
            _ => {},
        }
    }
}

/// Once something went wrong, nothing follows.
proof fn lemma_walk_stops(t: ShapeTable, w: Walk, i: nat, n: nat)
    requires
        i <= n,
        walk(t, w, i).failed is Some,
    ensures
        walk(t, w, n) == walk(t, w, i),
    decreases n - i,
{
    if i < n {
        lemma_walk_stops(t, w, i, (n - 1) as nat);
    }
}

/// Takes the claim to the frame at `path` from its parent, wherever that is kept.
pub fn clear_parent_iset_for_path(path: &Path, stack: &mut Vec<Frame>, stored: &mut StoredFrames)
    ensures
        pool_of(*final(stored), *final(stack)) == parent_clears(
            pool_of(*old(stored), *old(stack)),
            path@,
        ),
        pool_of(*old(stored), *old(stack)).place(path@.parent()) is Nowhere || pool_of(
            *old(stored),
            *old(stack),
        ).has(pool_of(*old(stored), *old(stack)).place(path@.parent())),
{
    let at = place_of(stored, stack, &path.parent());
    let part: Option<u32> = match path.last() {
        Some(PathStep::Field(idx)) => Some(idx),
        Some(PathStep::Index(idx)) => Some(idx),
        _ => None,
    };
    if let Some(idx) = part {
        match at {
            Place::Nowhere => {},
            _ => {
                frame_mut(stored, stack, at).tracker.unset_field(idx as usize);
            },
        }
    }
}

impl Frame {
    /// Drops what is initialized, and releases the memory if the frame owns it.
    pub fn dispose<H: Host>(self, t: &ShapeTable, host: &mut H)
        requires
            t.wf(),
            self@.fits(*t),
        ensures
            final(host).view() == disposed(*t, self@, old(host).view()),
    {
        let mut this = self;
        this.deinit(t, host);
        this.dealloc(t, host);
    }
}

/// Disposes of all stored frames, the deepest first. Parents give up their claims first, so that
/// nothing is dropped twice.
pub fn cleanup_stored_frames_on_error<H: Host>(
    stored: &mut StoredFrames,
    stack: &mut Vec<Frame>,
    plan: &TypePlanCore,
    host: &mut H,
)
    requires
        plan.wf(),
        pool_of(*old(stored), *old(stack)).wf(*plan),
    ensures
        ({
            let w = PoolHost { pool: pool_of(*old(stored), *old(stack)), host: old(host).view() };
            let done = cleanup(plan.shapes, w, w.pool.stored.len());
            &&& pool_of(*final(stored), *final(stack)) == done.pool
            &&& final(host).view() == done.host
            &&& done.pool.wf(*plan)
        }),
        same_frames(frame_views(old(stack)@), frame_views(final(stack)@)),
{
    let ghost w = PoolHost { pool: pool_of(*stored, *stack), host: host.view() };
    let ghost mut n: nat = 0;
    while stored.len() > 0
        invariant
            plan.wf(),
            w == (PoolHost { pool: pool_of(*old(stored), *old(stack)), host: old(host).view() }),
            n + stored@.len() == w.pool.stored.len(),
            pool_of(*stored, *stack) == cleanup(plan.shapes, w, n).pool,
            host.view() == cleanup(plan.shapes, w, n).host,
            pool_of(*stored, *stack).wf(*plan),
            same_frames(frame_views(old(stack)@), frame_views(stack@)),
        decreases stored@.len(),
    {
        let ghost before = pool_of(*stored, *stack);
        let i: usize = stored.deepest();
        proof {
            lemma_pool_without(before, *plan, i as int);
        }
        let StoredFrame { path, frame } = stored.remove_at(i);
        assert(pool_of(*stored, *stack) == before.without(i as int));
        clear_parent_iset_for_path(&path, stack, stored);
        proof {
            lemma_parent_clears(before.without(i as int), *plan, path@);
        }
        frame.dispose(&plan.shapes, host);
        proof {
            n = n + 1;
        }
    }
}

fn finish_slice<H: Host>(
    frame: &mut Frame,
    path: &Path,
    stored: &StoredFrames,
    stack: &Vec<Frame>,
    t: &ShapeTable,
    next_buffer: &mut u64,
    host: &mut H,
) -> (r: Result<(), ReflectErrorKind>)
    requires
        t.wf(),
        t.has(old(frame)@.shape()),
        forall|at: Place|
            #![trigger pool_of(*stored, *stack).at(at)]
            pool_of(*stored, *stack).has(at) ==> t.has(pool_of(*stored, *stack).at(at).shape()),
        old(frame)@.tracker is SmartPointerSlice ==> (old(
            frame,
        )@.ownership matches FrameOwnership::Field { field_idx } ==> {
            let pool = pool_of(*stored, *stack);
            let at = pool.place(path@.parent());
            !(at is Nowhere) && t.is_struct(pool.at(at).shape()) ==> field_idx < t.struct_fields(
                pool.at(at).shape(),
            ).len()
        }),
    ensures
        ({
            let taken = slice_finished(
                *t,
                pool_of(*stored, *stack),
                path@,
                old(frame)@,
                old(host).view(),
                *old(next_buffer),
            );
            &&& final(frame)@ == taken.frame
            &&& final(host).view() == taken.host
            &&& *final(next_buffer) == taken.next_buffer
            &&& r == taken.result
        }),
{
    let convert_fn = match &frame.tracker {
        Tracker::SmartPointerSlice { vtable, .. } => vtable.convert_fn,
        _ => {
            return Ok(());
        },
    };
    let shape = frame.allocated.shape();
    let layout = match t.sized_layout(shape) {
        Some(l) => l,
        None => {
            return Err(ReflectErrorKind::UninitializedValue { shape });
        },
    };
    let buf: u64 = *next_buffer;
    *next_buffer = buf.wrapping_add(1);
    host.act(MemOp::SliceConvert { f: convert_fn, builder: frame.data.addr, buf });
    let made = Addr::start(buf);
    let place = match frame.ownership {
        FrameOwnership::Field { field_idx } => {
            let at = place_of(stored, stack, &path.parent());
            let parent = match at {
                Place::Stored(i) => {
                    assert(pool_of(*stored, *stack).at(at) == stored.entries@[i as int].frame@);
                    Some(&stored.entries[i].frame)
                },
                Place::Stack(k) => {
                    assert(pool_of(*stored, *stack).at(at) == stack@[k as int]@);
                    Some(&stack[k])
                },
                Place::Nowhere => None,
            };
            match parent {
                Some(parent) => match t.struct_type(parent.allocated.shape()) {
                    Some(st) => Some(parent.data.field_uninit(st.fields[field_idx].offset)),
                    None => None,
                },
                None => None,
            }
        },
        FrameOwnership::Owned => {
            let buf2: u64 = *next_buffer;
            *next_buffer = buf2.wrapping_add(1);
            Some(alloc_for_layout(layout, buf2, host))
        },
        _ => None,
    };
    match place {
        Some(place) => {
            host.act(MemOp::Copy { src: made, dst: place.addr, size: layout.size });
            host.act(MemOp::Dealloc { at: made, layout });
            frame.place(place, layout);
            Ok(())
        },
        None => {
            t.call_drop_in_place(shape, made, host);
            frame.tracker = Tracker::Scalar;
            frame.is_init = false;
            if frame.ownership.needs_dealloc() {
                frame.house(PtrUninit { addr: made }, layout);
            } else {
                host.act(MemOp::Dealloc { at: made, layout });
            }
            Err(ReflectErrorKind::UninitializedValue { shape })
        },
    }
}

fn abandon<H: Host>(
    frame: Frame,
    path: &Path,
    stored: &mut StoredFrames,
    stack: &mut Vec<Frame>,
    plan: &TypePlanCore,
    host: &mut H,
)
    requires
        plan.wf(),
        pool_of(*old(stored), *old(stack)).wf(*plan),
        frame@.wf(*plan),
    ensures
        ({
            let w = abandoned(
                plan.shapes,
                pool_of(*old(stored), *old(stack)),
                path@,
                frame@,
                old(host).view(),
            );
            &&& pool_of(*final(stored), *final(stack)) == w.pool
            &&& final(host).view() == w.host
            &&& w.pool.wf(*plan)
        }),
        same_frames(frame_views(old(stack)@), frame_views(final(stack)@)),
{
    let ghost before = pool_of(*stored, *stack);
    clear_parent_iset_for_path(path, stack, stored);
    proof {
        lemma_parent_clears(before, *plan, path@);
    }
    frame.dispose(&plan.shapes, host);
    cleanup_stored_frames_on_error(stored, stack, plan, host);
}

fn consume<H: Host>(
    frame: Frame,
    path: &Path,
    stored: &mut StoredFrames,
    stack: &mut Vec<Frame>,
    plan: &TypePlanCore,
    host: &mut H,
)
    requires
        plan.wf(),
        pool_of(*old(stored), *old(stack)).wf(*plan),
        frame@.wf(*plan),
        consumable(plan.shapes, pool_of(*old(stored), *old(stack)), path@, frame@),
    ensures
        ({
            let w = consumed(
                plan.shapes,
                pool_of(*old(stored), *old(stack)),
                path@,
                frame@,
                old(host).view(),
            );
            &&& pool_of(*final(stored), *final(stack)) == w.pool
            &&& final(host).view() == w.host
            &&& w.pool.wf(*plan)
            &&& w.pool.stored.len() == old(stored)@.len()
        }),
        same_frames(frame_views(old(stack)@), frame_views(final(stack)@)),
{
    let t = &plan.shapes;
    let ghost before = pool_of(*stored, *stack);
    let at = place_of(stored, stack, &path.parent());
    let nowhere = match at {
        Place::Nowhere => true,
        _ => false,
    };
    if let Some(step) = path.last() {
        if !nowhere {
            proof {
                lemma_pool_at(before, *plan, at);
            }
            match step {
                PathStep::Field(idx) => {
                    frame_mut(stored, stack, at).mark_field_initialized_by_index(t, idx as usize);
                    proof {
                        lemma_pool_with(
                            before,
                            *plan,
                            at,
                            before.at(at).with_field(*t, idx as usize),
                        );
                    }
                },
                PathStep::Variant(_) => {},
                _ => {
                    proof {
                        lemma_absorbed_wf(before.at(at), *plan, step, frame@, host.view());
                        lemma_pool_with(
                            before,
                            *plan,
                            at,
                            before.at(at).absorbed(*t, step, frame@, host.view()).frame,
                        );
                    }
                    frame_mut(stored, stack, at).absorb(step, frame, t, host);
                    return ;
                },
            }
        }
    }
    frame.dealloc(t, host);
}

/// Completes the deepest stored frame, and tells what went wrong.
fn finish_deepest<H: Host>(
    stored: &mut StoredFrames,
    stack: &mut Vec<Frame>,
    plan: &TypePlanCore,
    next_buffer: &mut u64,
    host: &mut H,
) -> (r: Option<ReflectErrorKind>)
    requires
        plan.wf(),
        pool_of(*old(stored), *old(stack)).wf(*plan),
        old(stored)@.len() > 0,
        step_ready(
            plan.shapes,
            (Walk {
                pool: pool_of(*old(stored), *old(stack)),
                host: old(host).view(),
                next_buffer: *old(next_buffer),
                failed: None,
            }),
        ),
    ensures
        ({
            let w = walk_step(
                plan.shapes,
                (Walk {
                    pool: pool_of(*old(stored), *old(stack)),
                    host: old(host).view(),
                    next_buffer: *old(next_buffer),
                    failed: None,
                }),
            );
            &&& pool_of(*final(stored), *final(stack)) == w.pool
            &&& final(host).view() == w.host
            &&& *final(next_buffer) == w.next_buffer
            &&& r == w.failed
            &&& w.pool.wf(*plan)
            &&& r is None ==> w.pool.stored.len() == old(stored)@.len() - 1
        }),
        same_frames(frame_views(old(stack)@), frame_views(final(stack)@)),
{
    let t = &plan.shapes;
    let ghost before = pool_of(*stored, *stack);
    let i: usize = stored.deepest();
    proof {
        lemma_pool_without(before, *plan, i as int);
    }
    let StoredFrame { path, frame } = stored.remove_at(i);
    let mut frame = frame;
    let ghost pool = pool_of(*stored, *stack);
    assert(pool == before.without(i as int));
    assert forall|at: Place| #![trigger pool.at(at)] pool.has(at) implies t.has(
        pool.at(at).shape(),
    ) by {
        lemma_pool_at(pool, *plan, at);
    }
    assert(t.shape_ok(t.shapes@[frame@.shape().id as int]));
    if let Err(kind) = finish_slice(&mut frame, &path, stored, stack, t, next_buffer, host) {
        abandon(frame, &path, stored, stack, plan, host);
        return Some(kind);
    }
    let ghost a = frame@;
    if let Err(kind) = frame.fill_defaults(t, host) {
        proof {
            lemma_filled_wf(a, *plan);
        }
        abandon(frame, &path, stored, stack, plan, host);
        return Some(kind);
    }
    proof {
        lemma_filled_wf(a, *plan);
        lemma_completed_wf(frame@, *plan);
    }
    if let Err(kind) = frame.require_full_initialization(t, host) {
        abandon(frame, &path, stored, stack, plan, host);
        return Some(kind);
    }
    consume(frame, &path, stored, stack, plan, host);
    None
}

impl<'facet, const BORROW: bool> Partial<'facet, BORROW> {
    /// Enters deferred mode.
    ///
    /// From now on frames that end are set aside and can be entered again.
    /// [`Partial::finish_deferred`] completes them all. Deferred mode cannot be entered twice.
    pub fn begin_deferred<H: Host>(self, host: &mut H) -> (r: Result<Self, ReflectError>)
        requires
            self.wf(),
        ensures
            self@.deferring(self.shapes(), old(host).view()).returned(
                self.root_plan,
                r,
                final(host).view(),
            ),
    {
        match self.mode {
            FrameMode::Strict { stack } => {
                let start_depth: usize = stack.len();
                let p: Partial<'facet, BORROW> = Partial {
                    mode: FrameMode::Deferred {
                        stack,
                        start_depth,
                        stored_frames: StoredFrames::new(),
                    },
                    state: self.state,
                    root_plan: self.root_plan,
                    next_buffer: self.next_buffer,
                };
                proof {
                    lemma_same_frames_wf(self@, p@, *self.root_plan);
                }
                Ok(p)
            },
            _ => {
                let e = self.err(
                    ReflectErrorKind::InvariantViolation {
                        invariant: "begin_deferred() called but already in deferred mode",
                    },
                );
                self.cancel(host);
                Err(e)
            },
        }
    }

    /// Leaves deferred mode: completes all stored frames, the deepest first, and then the
    /// current frame.
    ///
    /// A finished frame is handed to its parent only after it was found complete. The first
    /// frame that cannot be completed ends it, and everything is given up.
    pub fn finish_deferred<H: Host>(self, host: &mut H) -> (r: Result<Self, ReflectError>)
        requires
            self.wf(),
            self@.finishable(self.shapes(), old(host).view()),
        ensures
            self@.finished(self.shapes(), old(host).view()).returned(
                self.root_plan,
                r,
                final(host).view(),
            ),
    {
        let plan = self.root_plan;
        let state = self.state;
        match self.mode {
            FrameMode::Deferred { stack, stored_frames, .. } => {
                let mut stack = stack;
                let mut stored = stored_frames;
                let mut next_buffer: u64 = self.next_buffer;
                let ghost start = self@.walk_start(host.view());
                let ghost mut n: nat = 0;
                while stored.len() > 0
                    invariant
                        plan.wf(),
                        start == self@.walk_start(old(host).view()),
                        self@.wf(*plan),
                        self@.deferred is Some,
                        plan == self.root_plan,
                        state == self@.state,
                        walk_ready(plan.shapes, start),
                        n + stored@.len() == start.pool.stored.len(),
                        walk(plan.shapes, start, n) == (Walk {
                            pool: pool_of(stored, stack),
                            host: host.view(),
                            next_buffer,
                            failed: None,
                        }),
                        pool_of(stored, stack).wf(*plan),
                        same_frames(self@.stack, frame_views(stack@)),
                    decreases stored@.len(),
                {
                    if let Some(kind) = finish_deepest(
                        &mut stored,
                        &mut stack,
                        plan,
                        &mut next_buffer,
                        host,
                    ) {
                        proof {
                            lemma_walk_stops(
                                plan.shapes,
                                start,
                                n + 1,
                                start.pool.stored.len(),
                            );
                        }
                        let p: Partial<'facet, BORROW> = Partial {
                            mode: FrameMode::Strict { stack },
                            state,
                            root_plan: plan,
                            next_buffer,
                        };
                        let e = p.err(kind);
                        p.cancel(host);
                        return Err(e);
                    }
                    proof {
                        n = n + 1;
                    }
                }
                let mut p: Partial<'facet, BORROW> = Partial {
                    mode: FrameMode::Strict { stack },
                    state,
                    root_plan: plan,
                    next_buffer,
                };
                proof {
                    lemma_same_frames_wf(self@, p@, *plan);
                }
                match p.finish_top_in_place(host) {
                    Ok(_) => Ok(p),
                    Err(e) => {
                        p.cancel(host);
                        Err(e)
                    },
                }
            },
            _ => {
                let e = self.err(
                    ReflectErrorKind::InvariantViolation {
                        invariant: "finish_deferred() called but deferred mode is not enabled",
                    },
                );
                self.cancel(host);
                Err(e)
            },
        }
    }

    /// Completes the current frame. On an error the value is left as it is, to be given up.
    pub fn finish_top_in_place<H: Host>(&mut self, host: &mut H) -> (r: Result<(), ReflectError>)
        requires
            old(self).wf(),
        ensures
            ({
                let o = old(self)@.top_finished(old(self).shapes(), old(host).view());
                &&& final(self)@ == o.partial
                &&& final(host).view() == o.host
                &&& match o.result {
                    Ok(_) => r is Ok,
                    Err(e) => r matches Err(x) && x@ == e,
                }
            }),
            final(self).root_plan == old(self).root_plan,
            final(self).wf(),
    {
        let plan = self.root_plan;
        let t = &plan.shapes;
        let ghost p0 = self@;
        let ghost f0 = p0.top();
        let top: usize = self.frames().len() - 1;
        assert(f0 == self.mode.spec_stack()@[top as int]@);
        assert(p0.stack[top as int].wf(*plan));
        let filled = self.mode.stack_mut()[top].fill_defaults(t, host);
        proof {
            lemma_filled_wf(f0, *plan);
            lemma_with_top(p0, *plan, f0.filled(*t).frame);
        }
        assert(self@ =~= p0.with_top(f0.filled(*t).frame));
        if let Err(kind) = filled {
            return Err(self.err(kind));
        }
        let ghost p1 = self@;
        let ghost f1 = p1.top();
        assert(f1 == self.mode.spec_stack()@[top as int]@);
        let done = self.mode.stack_mut()[top].require_full_initialization(t, host);
        proof {
            lemma_completed_wf(f1, *plan);
            lemma_with_top(p1, *plan, f1.completed(*t).frame);
        }
        assert(self@ =~= p1.with_top(f1.completed(*t).frame));
        match done {
            Ok(_) => Ok(()),
            Err(kind) => Err(self.err(kind)),
        }
    }
}

/// A stack with the same shapes and ownership, all of whose frames fit, is in order.
pub proof fn lemma_same_frames_wf(p: PartialView, q: PartialView, plan: TypePlanCore)
    requires
        p.wf(plan),
        same_frames(p.stack, q.stack),
        q.pool().wf(plan),
    ensures
        q.wf(plan),
{
    assert forall|i: int| #![trigger q.stack[i]] 0 <= i < q.stack.len() implies q.stack[i].wf(
        plan,
    ) by {
        assert(q.pool().stack[i].wf(plan));
    }
    assert forall|i: int|
        #![trigger q.field_frame_ok(plan.shapes, i)]
        0 <= i < q.stack.len() implies q.field_frame_ok(plan.shapes, i) by {
        assert(p.field_frame_ok(plan.shapes, i));
        assert(p.stack[i].ownership == q.stack[i].ownership);
        if i > 0 {
            assert(p.stack[i - 1].shape() == q.stack[i - 1].shape());
        }
    }
    assert forall|i: int|
        #![trigger q.is_suited(plan.shapes, i)]
        0 <= i < q.stack.len() implies q.is_suited(plan.shapes, i) by {
        assert(p.is_suited(plan.shapes, i));
        assert(same_place(p.stack[i], q.stack[i]));
        if i > 0 {
            assert(same_place(p.stack[i - 1], q.stack[i - 1]));
        }
    }
}

/// Replacing the current frame by one of the same shape and ownership keeps the stack in order.
pub proof fn lemma_with_top(p: PartialView, plan: TypePlanCore, f: FrameView)
    requires
        p.wf(plan),
        f.wf(plan),
        f.shape() == p.top().shape(),
        f.ownership == p.top().ownership,
    ensures
        p.with_top(f).wf(plan),
{
    let q = p.with_top(f);
    assert forall|i: int|
        #![trigger q.field_frame_ok(plan.shapes, i)]
        0 <= i < q.stack.len() implies q.field_frame_ok(plan.shapes, i) by {
        assert(p.field_frame_ok(plan.shapes, i));
    }
    assert forall|i: int|
        #![trigger q.is_suited(plan.shapes, i)]
        0 <= i < q.stack.len() implies q.is_suited(plan.shapes, i) by {
        assert(p.is_suited(plan.shapes, i));
    }
}

} // verus!
