//! All frames of a value under construction: those on the stack and those set aside.
use vstd::prelude::*;

use crate::frame::{Frame, FrameView};
use crate::partial::frame_views;
use crate::path::{Path, PathView};
use crate::plan::TypePlanCore;
use crate::stored::{all_fit, ascending, find, StoredFrames, StoredView};

verus! {

/// Where a frame is kept.
#[derive(Clone, Copy, PartialEq, Eq, Structural, Debug)]
pub enum Place {
    /// Among the frames that were set aside.
    Stored(usize),
    /// On the stack.
    Stack(usize),
    /// There is no such frame.
    Nowhere,
}

/// The frames on the stack and those set aside.
#[verifier::ext_equal]
pub struct Pool {
    pub stored: Seq<StoredView>,
    pub stack: Seq<FrameView>,
}

impl Pool {
    /// Where the frame at a path is kept: set aside under that path, or else on the stack, as
    /// deep as the path has steps.
    pub open spec fn place(self, path: PathView) -> Place {
        match find(self.stored, path) {
            Some(i) => Place::Stored(i as usize),
            None => if path.steps.len() < self.stack.len() {
                Place::Stack(path.steps.len() as usize)
            } else {
                Place::Nowhere
            },
        }
    }

    /// There is a frame at this place.
    pub open spec fn has(self, at: Place) -> bool {
        match at {
            Place::Stored(i) => i < self.stored.len(),
            Place::Stack(k) => k < self.stack.len(),
            Place::Nowhere => false,
        }
    }

    /// The frame at this place.
    pub open spec fn at(self, at: Place) -> FrameView {
        match at {
            Place::Stored(i) => self.stored[i as int].frame,
            Place::Stack(k) => self.stack[k as int],
            Place::Nowhere => arbitrary(),
        }
    }

    /// The same with another frame at this place.
    pub open spec fn with(self, at: Place, frame: FrameView) -> Pool {
        match at {
            Place::Stored(i) => Pool {
                stored: self.stored.update(
                    i as int,
                    StoredView { path: self.stored[i as int].path, frame },
                ),
                stack: self.stack,
            },
            Place::Stack(k) => Pool {
                stored: self.stored,
                stack: self.stack.update(k as int, frame),
            },
            Place::Nowhere => self,
        }
    }

    /// All frames fit the plan, and the paths of stored frames ascend.
    pub open spec fn wf(self, plan: TypePlanCore) -> bool {
        &&& ascending(self.stored)
        &&& all_fit(self.stored, plan)
        &&& forall|i: int|
            #![trigger self.stack[i]]
            0 <= i < self.stack.len() ==> self.stack[i].wf(plan)
    }

    /// There are no more frames than can be numbered.
    pub open spec fn is_countable(self) -> bool {
        self.stored.len() <= usize::MAX && self.stack.len() <= usize::MAX
    }

    /// The pool without the stored frame at a position.
    pub open spec fn without(self, i: int) -> Pool {
        Pool { stored: self.stored.remove(i), stack: self.stack }
    }
}

/// Two states of a frame have the same shape and ownership, and the later one asks for nothing new.
pub open spec fn same_place(a: FrameView, b: FrameView) -> bool {
    &&& b.shape() == a.shape()
    &&& b.ownership == a.ownership
    &&& b.asking() == a.asking() || b.asking() is Nothing
}

/// Two stacks have the same frames as far as shapes, ownership and what they ask for go.
pub open spec fn same_frames(a: Seq<FrameView>, b: Seq<FrameView>) -> bool {
    &&& a.len() == b.len()
    &&& forall|i: int|
        #![trigger b[i]]
        0 <= i < a.len() ==> same_place(a[i], b[i])
}

/// The frames as the contracts see them.
pub open spec fn pool_of(stored: StoredFrames, stack: Vec<Frame>) -> Pool {
    Pool { stored: stored@, stack: frame_views(stack@) }
}

/// Replacing a frame by one that fits keeps the pool in order.
pub proof fn lemma_pool_with(p: Pool, plan: TypePlanCore, at: Place, frame: FrameView)
    requires
        p.wf(plan),
        p.has(at),
        frame.wf(plan),
    ensures
        p.with(at, frame).wf(plan),
        p.with(at, frame).stored.len() == p.stored.len(),
        same_place(p.at(at), frame) ==> same_frames(p.stack, p.with(at, frame).stack),
{
    let q = p.with(at, frame);
    match at {
        Place::Stored(k) => {
            assert forall|i: int, j: int|
                #![trigger q.stored[i], q.stored[j]]
                0 <= i < j < q.stored.len() implies q.stored[i].path.before(q.stored[j].path) by {
                assert(p.stored[i].path.before(p.stored[j].path));
            }
        },
        Place::Stack(k) => {},
        Place::Nowhere => {},
    }
}

/// Taking a stored frame out keeps the pool in order.
pub proof fn lemma_pool_without(p: Pool, plan: TypePlanCore, i: int)
    requires
        p.wf(plan),
        0 <= i < p.stored.len(),
    ensures
        p.without(i).wf(plan),
        p.stored[i].frame.wf(plan),
{
    let q = p.without(i);
    assert forall|a: int, b: int|
        #![trigger q.stored[a], q.stored[b]]
        0 <= a < b < q.stored.len() implies q.stored[a].path.before(q.stored[b].path) by {
        let a0 = if a < i { a } else { a + 1 };
        let b0 = if b < i { b } else { b + 1 };
        assert(p.stored[a0].path.before(p.stored[b0].path));
    }
    assert forall|a: int|
        #![trigger q.stored[a]]
        0 <= a < q.stored.len() implies q.stored[a].frame.wf(plan) by {
        let a0 = if a < i { a } else { a + 1 };
        assert(p.stored[a0].frame.wf(plan));
    }
}

/// Where the frame at a path is kept.
pub fn place_of(stored: &StoredFrames, stack: &Vec<Frame>, path: &Path) -> (r: Place)
    ensures
        r == pool_of(*stored, *stack).place(path@),
        r is Nowhere || pool_of(*stored, *stack).has(r),
{
    match stored.find(path) {
        Some(i) => Place::Stored(i),
        None => {
            if path.len() < stack.len() {
                Place::Stack(path.len())
            } else {
                Place::Nowhere
            }
        },
    }
}

/// The frame at a place, to be changed.
pub fn frame_mut<'a>(stored: &'a mut StoredFrames, stack: &'a mut Vec<Frame>, at: Place) -> (r:
    &'a mut Frame)
    requires
        pool_of(*old(stored), *old(stack)).has(at),
    ensures
        r@ == pool_of(*old(stored), *old(stack)).at(at),
        pool_of(*final(stored), *final(stack)) == pool_of(*old(stored), *old(stack)).with(
            at,
            final(r)@,
        ),
{
    match at {
        Place::Stored(i) => &mut stored.entries[i].frame,
        Place::Stack(k) => &mut stack[k],
        Place::Nowhere => vstd::pervasive::unreached(),
    }
}

} // verus!
