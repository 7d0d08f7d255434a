//! Giving up: everything that was built so far is dropped, and all memory is released.
use vstd::prelude::*;

use crate::deferred::{clear_parent_iset_for_path, lemma_parent_clears, parent_clears};
use crate::frame::{Frame, FrameOwnership, FrameView};
use crate::memory::{Host, HostView};
use crate::partial::{frame_views, FrameMode, Partial, PartialView};
use crate::plan::TypePlanCore;
use crate::pool::{lemma_pool_without, pool_of, Place, Pool};
use crate::shape::ShapeTable;
use crate::stored::{deepest, StoredFrame, StoredFrames};

verus! {

/// All frames, and the host that their memory belongs to.
#[verifier::ext_equal]
pub struct PoolHost {
    pub pool: Pool,
    pub host: HostView,
}

impl FrameView {
    /// The host after the frame was given up.
    pub open spec fn given_up(self, t: ShapeTable, h: HostView) -> HostView {
        h.plus(self.cancel_ops(t)).plus(self.deinited().dealloc_ops(t))
    }
}

/// Gives up the deepest stored frame, after its parent gave up its claim.
pub open spec fn cancel_stored_step(t: ShapeTable, w: PoolHost) -> PoolHost {
    let i = deepest(w.pool.stored, w.pool.stored.len()) as int;
    let e = w.pool.stored[i];
    PoolHost {
        pool: parent_clears(w.pool.without(i), e.path),
        host: e.frame.given_up(t, w.host),
    }
}

/// Gives up `n` stored frames, the deepest first.
pub open spec fn cancel_stored(t: ShapeTable, w: PoolHost, n: nat) -> PoolHost
    decreases n,
{
    if n == 0 {
        w
    } else {
        cancel_stored_step(t, cancel_stored(t, w, (n - 1) as nat))
    }
}

/// The stack without its top frame. A frame on a field leaves it to the parent as not
/// initialized.
pub open spec fn without_top(stack: Seq<FrameView>) -> Seq<FrameView> {
    let rest = stack.drop_last();
    match stack.last().ownership {
        FrameOwnership::Field { field_idx } => if rest.len() > 0 {
            rest.update(rest.len() - 1, rest.last().without_field(field_idx))
        } else {
            rest
        },
        _ => rest,
    }
}

/// Gives up the frames of a stack, from the top.
pub open spec fn cancel_stack(t: ShapeTable, stack: Seq<FrameView>, h: HostView) -> HostView
    decreases stack.len(),
{
    if stack.len() == 0 {
        h
    } else {
        cancel_stack(t, without_top(stack), stack.last().given_up(t, h))
    }
}

impl PartialView {
    /// All frames.
    pub open spec fn pool(self) -> Pool {
        Pool {
            stored: match self.deferred {
                Some(d) => d.stored,
                None => Seq::empty(),
            },
            stack: self.stack,
        }
    }

    /// The host after the value was given up: first the stored frames, the deepest first, then
    /// the stack from the top.
    pub open spec fn cancelled(self, t: ShapeTable, h: HostView) -> HostView {
        let pool = self.pool();
        let w = cancel_stored(t, PoolHost { pool, host: h }, pool.stored.len());
        cancel_stack(t, w.pool.stack, w.host)
    }
}

/// The frame at a place fits the plan.
pub proof fn lemma_pool_at(pool: Pool, plan: TypePlanCore, at: Place)
    requires
        pool.wf(plan),
        pool.has(at),
    ensures
        pool.at(at).wf(plan),
{
    match at {
        Place::Stored(i) => {
            assert(pool.stored[i as int].frame.wf(plan));
        },
        _ => {},
    }
}

impl Frame {
    /// Drops what is initialized, and releases the memory if the frame owns it.
    pub fn give_up<H: Host>(self, t: &ShapeTable, host: &mut H)
        requires
            t.wf(),
            self@.fits(*t),
        ensures
            final(host).view() == self@.given_up(*t, old(host).view()),
    {
        let mut this = self;
        this.deinit_for_cancellation(t, host);
        this.dealloc(t, host);
    }
}

fn give_up_stored<H: Host>(
    stored: &mut StoredFrames,
    stack: &mut Vec<Frame>,
    plan: &TypePlanCore,
    host: &mut H,
)
    requires
        plan.wf(),
        pool_of(*old(stored), *old(stack)).wf(*plan),
    ensures
        ({
            let w = PoolHost { pool: pool_of(*old(stored), *old(stack)), host: old(host).view() };
            let done = cancel_stored(plan.shapes, w, w.pool.stored.len());
            &&& pool_of(*final(stored), *final(stack)) == done.pool
            &&& final(host).view() == done.host
            &&& done.pool.wf(*plan)
            &&& done.pool.stack.len() == old(stack)@.len()
        }),
{
    let ghost w = PoolHost { pool: pool_of(*stored, *stack), host: host.view() };
    let ghost total = w.pool.stored.len();
    let ghost mut n: nat = 0;
    while stored.len() > 0
        invariant
            plan.wf(),
            w == (PoolHost { pool: pool_of(*old(stored), *old(stack)), host: old(host).view() }),
            total == w.pool.stored.len(),
            n + stored@.len() == total,
            pool_of(*stored, *stack) == cancel_stored(plan.shapes, w, n).pool,
            host.view() == cancel_stored(plan.shapes, w, n).host,
            pool_of(*stored, *stack).wf(*plan),
            stack@.len() == old(stack)@.len(),
        decreases stored@.len(),
    {
        let ghost before = pool_of(*stored, *stack);
        let i: usize = stored.deepest();
        proof {
            lemma_pool_without(before, *plan, i as int);
        }
        let StoredFrame { path, frame } = stored.remove_at(i);
        assert(pool_of(*stored, *stack) == before.without(i as int));
        clear_parent_iset_for_path(&path, stack, stored);
        proof {
            lemma_parent_clears(before.without(i as int), *plan, path@);
        }
        frame.give_up(&plan.shapes, host);
        proof {
            n = n + 1;
        }
    }
}

fn give_up_stack<H: Host>(stack: &mut Vec<Frame>, t: &ShapeTable, host: &mut H)
    requires
        t.wf(),
        forall|i: int| #![trigger old(stack)@[i]] 0 <= i < old(stack)@.len() ==> old(stack)@[i]@.fits(*t),
    ensures
        final(stack)@.len() == 0,
        final(host).view() == cancel_stack(*t, frame_views(old(stack)@), old(host).view()),
{
    while stack.len() > 0
        invariant
            t.wf(),
            forall|i: int| #![trigger stack@[i]] 0 <= i < stack@.len() ==> stack@[i]@.fits(*t),
            cancel_stack(*t, frame_views(stack@), host.view()) == cancel_stack(
                *t,
                frame_views(old(stack)@),
                old(host).view(),
            ),
        decreases stack@.len(),
    {
        let ghost before = stack@;
        let frame = match stack.pop() {
            Some(f) => f,
            None => vstd::pervasive::unreached(),
        };
        assert(frame_views(before).last() == frame@);
        assert(frame_views(stack@) =~= frame_views(before).drop_last());
        let n: usize = stack.len();
        if let FrameOwnership::Field { field_idx } = frame.ownership {
            if n > 0 {
                let ghost rest = frame_views(stack@);
                assert(rest.last() == stack@[n - 1]@);
                stack[n - 1].tracker.unset_field(field_idx);
                assert(frame_views(stack@) =~= rest.update(n - 1, rest.last().without_field(field_idx)));
            }
        }
        assert(frame_views(stack@) =~= without_top(frame_views(before)));
        frame.give_up(t, host);
    }
}

impl<'facet, const BORROW: bool> Partial<'facet, BORROW> {
    /// Gives the value up. Whatever is initialized is dropped exactly once, children before
    /// their parents, and all memory that the frames own is released.
    pub fn cancel<H: Host>(self, host: &mut H)
        requires
            self.root_plan.wf(),
            self@.pool().wf(*self.root_plan),
        ensures
            final(host).view() == self@.cancelled(self.shapes(), old(host).view()),
    {
        let plan = self.root_plan;
        match self.mode {
            FrameMode::Deferred { stack, stored_frames, .. } => {
                let mut stack = stack;
                let mut stored = stored_frames;
                give_up_stored(&mut stored, &mut stack, plan, host);
                assert forall|i: int| #![trigger stack@[i]] 0 <= i < stack@.len() implies stack@[i]@.fits(
                    plan.shapes,
                ) by {
                    assert(frame_views(stack@)[i].wf(*plan));
                }
                give_up_stack(&mut stack, &plan.shapes, host);
            },
            FrameMode::Strict { stack } => {
                let mut stack = stack;
                assert forall|i: int| #![trigger stack@[i]] 0 <= i < stack@.len() implies stack@[i]@.fits(
                    plan.shapes,
                ) by {
                    assert(self@.pool().stack[i].wf(*plan));
                }
                give_up_stack(&mut stack, &plan.shapes, host);
            },
        }
    }
}

} // verus!
