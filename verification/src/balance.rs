//! That every buffer and every rope has exactly one authority that will release it.
//!
//! A value is in balance with its host for a buffer if as many frames and slots claim the buffer as
//! it was made more often than released. A new value is in balance, and every operation keeps the
//! balance, whether it succeeds or not. No buffer is made twice: each is made under the next number,
//! as long as there are numbers left. So a buffer that was made has one authority until it is
//! released, and giving the value up releases all that is left. The same holds for the ropes of
//! lists, which are not made here. Only a conversion hook that does not say what became of its source
//! takes the buffer of the source out of the balance: that buffer is then never released, but nothing
//! is released twice.
use vstd::prelude::*;

use crate::absorb::{is_absorbing, lemma_absorbed_wf};
use crate::accounting::{
    accounts_if, attachment_is_accounted, is_unaccounted, lemma_attached_net, lemma_completed_net,
    lemma_disposed_net, lemma_fill_and_require_net, lemma_filled_net, lemma_from_proxy_net,
    lemma_given_up_net, lemma_map_takes_over, lemma_slot_net, lemma_turned_down_net,
    lemma_with_inner_net, lemma_with_pointee_net,
};
use crate::attach::{attached, entry_ready, lemma_filled_fits};
use crate::authority::{
    frames_of, lemma_deinit_net, lemma_total_insert, lemma_total_not_negative, lemma_total_push,
    lemma_total_remove, lemma_total_update, lemma_waiting_net, still_free, total, value_claims,
};
use crate::cancel::{cancel_stack, cancel_stored, lemma_pool_at, without_top, PoolHost};
use crate::deferred::{
    abandoned, cleanup, consumable, consumed, disposed, is_owed, lemma_completed_wf,
    lemma_filled_wf, lemma_with_top, parent_clears, slice_finished, step_ready, walk, walk_ready,
    walk_step, Walk,
};
use crate::end::{
    advanced, lemma_fill_and_require_wf, lemma_top_completed_frames, parted, proxy_conversion,
};
use crate::finish::full_entries;
use crate::frame::{entry_values, AllocatedShape, Frame, FrameOwnership, FrameView};
use crate::memory::{Addr, HostView, PtrUninit};
use crate::net::{lemma_made_by_number, net, Resource};
use crate::partial::{alloc_ops, PartialState, PartialView};
use crate::path::{PathStep, PathView};
use crate::plan::{NodeId, TypePlanCore};
use crate::pool::{lemma_pool_with, lemma_pool_without, Place, Pool};
use crate::shape::{ArrayType, Layout, SequenceType, ShapeRef, ShapeTable, Type, UserType};
use crate::smart_ptr::lemma_pushed_wf;
use crate::stored::{deepest, find, inserted, lemma_deepest, lower_bound, StoredView};
use crate::tracker::{DynamicObjectInsertState, DynamicValueView, TrackerView};

verus! {

broadcast use crate::net::group_net;

impl PartialView {
    /// The resource is claimed exactly as often as it was made and not released.
    pub open spec fn is_balanced(self, t: ShapeTable, h: HostView, b: Resource) -> bool {
        self.balance(t, h, b) == 0
    }

    /// The resource is not claimed too often: a buffer no more often than it was made and not
    /// released, a rope once if it was not released, and a number once if it was not used up.
    pub open spec fn is_within(self, t: ShapeTable, h: HostView, b: Resource) -> bool {
        self.balance(t, h, b) <= if b is Buffer {
            0int
        } else {
            1
        }
    }
}

/// A place that is found is there.
proof fn lemma_place_is_there(p: Pool, path: PathView)
    requires
        p.is_countable(),
    ensures
        p.place(path) is Nowhere || p.has(p.place(path)),
{
}

/// Replacing a frame replaces its claims.
proof fn lemma_pool_with_claims(p: Pool, t: ShapeTable, at: Place, f: FrameView, b: Resource)
    requires
        p.has(at),
    ensures
        p.with(at, f).claims(t, b) == p.claims(t, b) - p.at(at).claims(t, b) + f.claims(t, b),
        p.with(at, f).stored.len() == p.stored.len(),
        p.with(at, f).stack.len() == p.stack.len(),
{
    match at {
        Place::Stored(i) => {
            assert(frames_of(p.with(at, f).stored) =~= frames_of(p.stored).update(i as int, f));
            lemma_total_update(t, frames_of(p.stored), i as int, f, b);
        },
        Place::Stack(k) => {
            lemma_total_update(t, p.stack, k as int, f, b);
        },
        Place::Nowhere => {},
    }
}

/// A stored frame that is taken out takes its claims along.
proof fn lemma_pool_without_claims(p: Pool, t: ShapeTable, i: int, b: Resource)
    requires
        0 <= i < p.stored.len(),
    ensures
        p.without(i).claims(t, b) == p.claims(t, b) - p.stored[i].frame.claims(t, b),
{
    assert(frames_of(p.without(i).stored) =~= frames_of(p.stored).remove(i));
    lemma_total_remove(t, frames_of(p.stored), i, b);
}

/// A parent that gives up its claim to a field keeps its claims.
proof fn lemma_parent_clears_claims(p: Pool, t: ShapeTable, path: PathView, b: Resource)
    requires
        p.is_countable(),
    ensures
        parent_clears(p, path).claims(t, b) == p.claims(t, b),
        parent_clears(p, path).stored.len() == p.stored.len(),
        parent_clears(p, path).stack.len() == p.stack.len(),
{
    let at = p.place(path.parent());
    lemma_place_is_there(p, path.parent());
    if path.steps.len() > 0 && !(at is Nowhere) {
        let f = p.at(at);
        match path.steps.last() {
            PathStep::Field(idx) => {
                lemma_pool_with_claims(p, t, at, f.without_field(idx as usize), b);
            },
            PathStep::Index(idx) => {
                lemma_pool_with_claims(p, t, at, f.without_field(idx as usize), b);
            },
            _ => {},
        }
    }
}

proof fn lemma_cancel_stored_claims(t: ShapeTable, w: PoolHost, n: nat, b: Resource)
    requires
        n <= w.pool.stored.len(),
        w.pool.is_countable(),
    ensures
        ({
            let q = cancel_stored(t, w, n);
            &&& q.pool.claims(t, b) + net(q.host.trace, b) == w.pool.claims(t, b) + net(
                w.host.trace,
                b,
            )
            &&& q.pool.stored.len() == w.pool.stored.len() - n
            &&& q.pool.stack.len() == w.pool.stack.len()
        }),
    decreases n,
{
    if n > 0 {
        lemma_cancel_stored_claims(t, w, (n - 1) as nat, b);
        let q = cancel_stored(t, w, (n - 1) as nat);
        let i = deepest(q.pool.stored, q.pool.stored.len()) as int;
        lemma_deepest(q.pool.stored, q.pool.stored.len());
        let e = q.pool.stored[i];
        lemma_pool_without_claims(q.pool, t, i, b);
        lemma_parent_clears_claims(q.pool.without(i), t, e.path, b);
        lemma_given_up_net(e.frame, t, q.host, b);
    }
}

proof fn lemma_cancel_stack_claims(t: ShapeTable, stack: Seq<FrameView>, h: HostView, b: Resource)
    ensures
        net(cancel_stack(t, stack, h).trace, b) == total(t, stack, b) + net(h.trace, b),
    decreases stack.len(),
{
    if stack.len() > 0 {
        let top = stack.last();
        let rest = stack.drop_last();
        lemma_given_up_net(top, t, h, b);
        match top.ownership {
            FrameOwnership::Field { field_idx } => {
                if rest.len() > 0 {
                    lemma_total_update(
                        t,
                        rest,
                        rest.len() - 1,
                        rest.last().without_field(field_idx),
                        b,
                    );
                }
            },
            _ => {},
        }
        lemma_cancel_stack_claims(t, without_top(stack), top.given_up(t, h), b);
    }
}

/// Giving a value up releases every resource exactly as often as it was claimed, and makes no
/// buffer. So of a value in balance every buffer was released as often as it was made, and nothing
/// is left.
pub proof fn law_giving_up_releases_all_claims(p: PartialView, t: ShapeTable, h: HostView, b: Resource)
    requires
        p.pool().is_countable(),
    ensures
        !(b is Number) ==> net(p.cancelled(t, h).trace, b) == p.balance(t, h, b),
        b is Number ==> net(p.cancelled(t, h).trace, b) == net(h.trace, b),
        p.is_balanced(t, h, b) ==> net(p.cancelled(t, h).trace, b) == 0,
{
    let pool = p.pool();
    let w = PoolHost { pool, host: h };
    let n = pool.stored.len();
    lemma_cancel_stored_claims(t, w, n, b);
    let q = cancel_stored(t, w, n);
    assert(frames_of(q.pool.stored) =~= Seq::<FrameView>::empty());
    lemma_cancel_stack_claims(t, q.pool.stack, q.host, b);
    lemma_total_not_negative(t, p.stack, b);
    lemma_total_not_negative(t, frames_of(pool.stored), b);
    match b {
        Resource::Number(n) => {
            lemma_made_by_number(h.trace, n);
        },
        _ => {},
    }
}

/// A value that was just allocated claims the one buffer that was made for it, and no other; the
/// number of that buffer is used up. So if the host did nothing before, all is in balance.
pub proof fn law_new_value_claims_its_buffer(
    plan: TypePlanCore,
    root: NodeId,
    layout: Layout,
    h: HostView,
    b: Resource,
)
    requires
        plan.shapes.sized(plan.node_at(root).shape) == Some(layout),
    ensures
        ({
            let t = plan.shapes;
            let f = Frame::spec_new(
                t,
                PtrUninit { addr: Addr::start(0) },
                AllocatedShape {
                    shape: plan.node_at(root).shape,
                    allocated_size: layout.size,
                },
                FrameOwnership::Owned,
                root,
            );
            let p = PartialView {
                stack: seq![f],
                deferred: None,
                state: PartialState::Active,
                next_buffer: 1,
            };
            let h1 = h.plus(alloc_ops(layout, 0));
            &&& !(b is Number) ==> p.balance(t, h1, b) == net(h.trace, b)
            &&& b is Number ==> p.balance(t, h1, b) <= 1 + net(h.trace, b)
            &&& net(h.trace, b) == 0 ==> p.is_within(t, h1, b) && (b is Number || p.is_balanced(
                t,
                h1,
                b,
            ))
        }),
{
    let t = plan.shapes;
    let f = Frame::spec_new(
        t,
        PtrUninit { addr: Addr::start(0) },
        AllocatedShape { shape: plan.node_at(root).shape, allocated_size: layout.size },
        FrameOwnership::Owned,
        root,
    );
    lemma_total_push(t, Seq::<FrameView>::empty(), f, b);
    assert(frames_of(Seq::<StoredView>::empty()) =~= Seq::<FrameView>::empty());
}

/// A number that is within its bounds was given to one buffer at most, and none from the next one on
/// was given to any.
pub proof fn law_buffers_are_made_once(p: PartialView, t: ShapeTable, h: HostView, n: u64)
    requires
        p.is_within(t, h, Resource::Number(n)),
    ensures
        net(h.trace, Resource::Number(n)) <= 1,
        n >= p.next_buffer ==> net(h.trace, Resource::Number(n)) == 0,
        n >= p.next_buffer ==> net(h.trace, Resource::Buffer(n)) >= 0,
{
    lemma_made_by_number(h.trace, n);
    lemma_total_not_negative(t, p.stack, Resource::Number(n));
    lemma_total_not_negative(t, frames_of(p.pool().stored), Resource::Number(n));
}

/// In balance, a buffer that was made and not released is claimed by exactly one frame or slot, and
/// one that was released, or never made, by none. As long as the bounds are kept, no buffer is claimed
/// twice, and none that was released is claimed at all.
pub proof fn law_balance_means_one_authority(p: PartialView, t: ShapeTable, h: HostView, n: u64)
    requires
        p.is_within(t, h, Resource::Buffer(n)),
        p.is_within(t, h, Resource::Number(n)),
    ensures
        ({
            let b = Resource::Buffer(n);
            &&& net(h.trace, b) == 0 || net(h.trace, b) == -1
            &&& 0 <= p.pool().claims(t, b) <= 1
            &&& net(h.trace, b) == 0 ==> p.pool().claims(t, b) == 0
            &&& p.is_balanced(t, h, b) && net(h.trace, b) == -1 ==> p.pool().claims(t, b) == 1
        }),
{
    lemma_made_by_number(h.trace, n);
    law_buffers_are_made_once(p, t, h, n);
    lemma_total_not_negative(t, p.stack, Resource::Buffer(n));
    lemma_total_not_negative(t, frames_of(p.pool().stored), Resource::Buffer(n));
}

/// A rope within its bounds was released once at most, and is claimed by one list at most, and by
/// none once it was released.
pub proof fn law_rope_has_one_authority(p: PartialView, t: ShapeTable, h: HostView, n: u64)
    requires
        p.is_within(t, h, Resource::Rope(n)),
    ensures
        ({
            let b = Resource::Rope(n);
            &&& 0 <= net(h.trace, b) <= 1
            &&& 0 <= p.pool().claims(t, b) <= 1
            &&& net(h.trace, b) == 1 ==> p.pool().claims(t, b) == 0
        }),
{
    lemma_made_by_number(h.trace, n);
    lemma_total_not_negative(t, p.stack, Resource::Rope(n));
    lemma_total_not_negative(t, frames_of(p.pool().stored), Resource::Rope(n));
}

proof fn lemma_with_top_claims(p: PartialView, t: ShapeTable, f: FrameView, h: HostView, b: Resource)
    requires
        p.stack.len() > 0,
    ensures
        p.with_top(f).balance(t, h, b) == p.balance(t, h, b) - p.top().claims(t, b) + f.claims(t, b),
{
    lemma_total_update(t, p.stack, p.stack.len() - 1, f, b);
}

proof fn lemma_popped_claims(p: PartialView, t: ShapeTable, h: HostView, b: Resource)
    requires
        p.stack.len() > 0,
    ensures
        p.popped().balance(t, h, b) == p.balance(t, h, b) - p.top().claims(t, b),
{
}

/// Entering deferred mode keeps the balance of every resource, or changes nothing.
pub proof fn law_begin_deferred_keeps_authority(p: PartialView, t: ShapeTable, h: HostView, b: Resource)
    ensures
        p.deferring(t, h).partial.balance(t, p.deferring(t, h).host, b) == p.balance(t, h, b),
{
}

/// Choosing a variant keeps the balance of every resource.
pub proof fn law_select_variant_keeps_authority(
    p: PartialView,
    t: ShapeTable,
    variant_idx: usize,
    h: HostView,
    b: Resource,
)
    requires
        p.stack.len() > 0,
        p.may_select(variant_idx),
    ensures
        ({
            let o = p.variant_selected(t, variant_idx, h);
            o.partial.balance(t, o.host, b) == p.balance(t, h, b)
        }),
{
    let o = p.variant_selected(t, variant_idx, h);
    lemma_with_top_claims(p, t, o.partial.top(), o.host, b);
}

/// Making room for another value in the current frame keeps the balance of every resource: what waited
/// was released, and so was a slice builder, in the place of which the frame has memory again. A new
/// buffer gets a number that was not used before, as long as there are any.
pub proof fn law_reinitialization_keeps_authority(
    p: PartialView,
    plan: TypePlanCore,
    h: HostView,
    b: Resource,
)
    requires
        p.wf(plan),
    ensures
        ({
            let o = p.room_made(plan.shapes, h);
            &&& !(b is Number) ==> o.partial.balance(plan.shapes, o.host, b) == p.balance(
                plan.shapes,
                h,
                b,
            )
            &&& p.has_numbers(1) ==> o.partial.balance(plan.shapes, o.host, b) <= p.balance(
                plan.shapes,
                h,
                b,
            )
        }),
{
    let t = plan.shapes;
    let f = p.top();
    assert(p.stack[p.stack.len() - 1].wf(plan));
    lemma_deinit_net(f, t, b);
    let o = p.room_made(t, h);
    let p1 = PartialView { next_buffer: p.next_buffer.wrapping_add(1), ..p };
    assert(p1.pool().claims(t, b) == p.pool().claims(t, b));
    lemma_with_top_claims(p, t, o.partial.top(), o.host, b);
    lemma_with_top_claims(p1, t, o.partial.top(), o.host, b);
}

proof fn lemma_lower_bound_within(s: Seq<StoredView>, path: PathView, i: nat)
    requires
        i <= s.len(),
    ensures
        lower_bound(s, path, i) <= s.len(),
    decreases s.len() - i,
{
    if i < s.len() {
        lemma_lower_bound_within(s, path, i + 1);
    }
}

/// Entering what a smart pointer points to keeps the balance of every resource, whether it succeeds or
/// not: a new pointee is claimed by its own frame, one that was set aside keeps the claims that it
/// had, and a slice builder takes the place of the pointer's own memory. New buffers get numbers that
/// were not used before, as long as there are any.
pub proof fn law_begin_smart_ptr_keeps_authority(
    p: PartialView,
    plan: TypePlanCore,
    h: HostView,
    b: Resource,
)
    requires
        plan.wf(),
        p.wf(plan),
    ensures
        ({
            let o = p.smart_ptr_begun(plan, h);
            &&& !(b is Number) ==> o.partial.balance(plan.shapes, o.host, b) == p.balance(
                plan.shapes,
                h,
                b,
            )
            &&& p.has_numbers(2) ==> o.partial.balance(plan.shapes, o.host, b) <= p.balance(
                plan.shapes,
                h,
                b,
            )
        }),
{
    let t = plan.shapes;
    let f = p.top();
    assert(p.stack[p.stack.len() - 1].wf(plan));
    let room = p.room_made(t, h);
    law_reinitialization_keeps_authority(p, plan, h, b);
    let p1 = room.partial;
    let g = p1.top();
    if t.at(f.shape()).def is Pointer {
        assert(g.waiting_claims(t, b) == 0);
    }
    let o = p.smart_ptr_begun(plan, h);
    let building = p1.building_pointee();
    lemma_with_top_claims(p1, t, building.top(), room.host, b);
    let new = o.partial.top();
    match p.stored_pointee(t) {
        Some(i) => {
            let s = p.deferred->0.stored;
            lemma_lower_bound_within(s, p.derived_path(t), 0);
            let resumed = s[i].frame;
            if 0 <= i < s.len() {
                assert(frames_of(s.remove(i)) =~= frames_of(s).remove(i));
                lemma_total_remove(t, frames_of(s), i, b);
            }
            lemma_total_push(t, building.stack, new, b);
            let entered = FrameView { tracker: resumed.tracker.without_child(), ..resumed };
            assert(entered.claims(t, b) == resumed.claims(t, b));
        },
        None => {
            lemma_total_push(t, building.stack, new, b);
            let p2 = PartialView { next_buffer: p1.next_buffer.wrapping_add(1), ..p1 };
            lemma_with_top_claims(p2, t, new, o.host, b);
            assert(p2.pool().claims(t, b) == p1.pool().claims(t, b));
        },
    }
}

/// A complete frame has nothing left that waits, unless it builds a slice.
proof fn lemma_complete_is_clear(f: FrameView, t: ShapeTable, b: Resource)
    requires
        f.fits(t),
        f.completed(t).result is Ok,
        !(f.tracker is SmartPointerSlice),
    ensures
        f.completed(t).frame.waiting_claims(t, b) == 0,
        !(f.completed(t).frame.tracker is SmartPointerSlice),
        f.completed(t).frame.fits(t),
{
    reveal(FrameView::completed);
    match f.tracker {
        TrackerView::MapOf { pending_entries, .. } => {
            let n = full_entries(pending_entries, pending_entries.len());
            if n == pending_entries.len() {
                assert(pending_entries.skip(n as int) =~= Seq::empty());
            }
        },
        TrackerView::DynamicValue { state } => match state {
            DynamicValueView::Object { .. } => {
                assert(entry_values(Seq::empty()) =~= Seq::empty());
            },
            _ => {},
        },
        _ => {},
    }
}

/// A slice builder that works on an item is not complete.
proof fn lemma_slice_is_not_complete(f: FrameView, t: ShapeTable)
    requires
        f.tracker matches TrackerView::SmartPointerSlice { building_item, .. } && building_item,
    ensures
        f.completed(t).result is Err,
        f.filled(t).frame.tracker == f.tracker,
{
    reveal(FrameView::completed);
    reveal(FrameView::filled);
}

proof fn lemma_top_finished_claims(p: PartialView, t: ShapeTable, h: HostView, b: Resource)
    requires
        p.stack.len() > 0,
    ensures
        ({
            let o = p.top_finished(t, h);
            &&& o.partial.balance(t, o.host, b) == p.balance(t, h, b)
            &&& o.partial == p.with_top(o.partial.top())
        }),
{
    let filled = p.top().filled(t);
    lemma_filled_net(p.top(), t, b);
    let p1 = p.with_top(filled.frame);
    let h1 = h.plus(filled.ops);
    lemma_with_top_claims(p, t, filled.frame, h1, b);
    lemma_completed_net(filled.frame, t, b);
    let done = filled.frame.completed(t);
    lemma_with_top_claims(p1, t, done.frame, h1.plus(done.ops), b);
    assert(p1.with_top(done.frame) =~= p.with_top(done.frame));
}

proof fn lemma_top_completed_claims(p: PartialView, plan: TypePlanCore, h: HostView, b: Resource)
    requires
        p.wf(plan),
        !p.at_slice_end(),
    ensures
        ({
            let t = plan.shapes;
            let o = p.top_completed(plan, h);
            &&& o.partial.balance(t, o.host, b) == p.balance(t, h, b)
            &&& o.partial == p.with_top(o.partial.top())
            &&& o.result is Ok ==> {
                &&& o.partial.top().waiting_claims(t, b) == 0
                &&& !(o.partial.top().tracker is SmartPointerSlice)
                &&& o.partial.top().fits(t)
            }
        }),
{
    let t = plan.shapes;
    let f = p.top();
    assert(p.stack[p.stack.len() - 1].wf(plan));
    match p.top_plans(plan) {
        Some(range) => {
            let plans = plan.fields_in(range);
            let r = f.fill_and_require(plan, plans, range.len, h);
            lemma_fill_and_require_net(f, plan, plans, range.len, h, b);
            lemma_with_top_claims(p, t, r.frame, r.host, b);
            reveal(FrameView::fill_and_require);
        },
        None => {
            lemma_top_finished_claims(p, t, h, b);
            let filled = f.filled(t);
            lemma_filled_fits(f, t);
            if p.top_finished(t, h).result is Ok {
                if f.tracker is SmartPointerSlice {
                    lemma_slice_is_not_complete(f, t);
                    lemma_slice_is_not_complete(filled.frame, t);
                }
                lemma_fill_makes_no_slice(f, t);
                lemma_complete_is_clear(filled.frame, t, b);
            }
        },
    }
}

proof fn lemma_fill_makes_no_slice(f: FrameView, t: ShapeTable)
    ensures
        f.filled(t).frame.tracker is SmartPointerSlice ==> f.tracker == f.filled(t).frame.tracker,
{
    reveal(FrameView::filled);
}

impl PartialView {
    /// If the frame that ends is converted by a hook, the hook says what became of it.
    pub open spec fn end_is_accounted(self, plan: TypePlanCore, h: HostView) -> bool {
        let c = self.top_completed(plan, h);
        self.hands_over(plan.shapes) && c.result is Ok ==> attachment_is_accounted(
            plan.shapes,
            c.partial.popped().top(),
            c.partial.top(),
            c.host,
        )
    }
}

proof fn lemma_values_same(
    t: ShapeTable,
    shape: ShapeRef,
    x: Seq<PtrUninit>,
    y: Seq<PtrUninit>,
    n: nat,
    b: Resource,
)
    requires
        n <= x.len(),
        n <= y.len(),
        forall|i: int| 0 <= i < n ==> x[i] == y[i],
    ensures
        value_claims(t, shape, x, n, b) == value_claims(t, shape, y, n, b),
    decreases n,
{
    if n > 0 {
        lemma_values_same(t, shape, x, y, (n - 1) as nat, b);
    }
}

/// A child that ends in deferred mode keeps its claims if it is set aside, and else moves them to
/// the parent or releases them.
proof fn lemma_parted_claims(t: ShapeTable, below: FrameView, child: FrameView, h: HostView, b: Resource)
    requires
        below.fits(t),
        child.fits(t),
        child.tracker matches TrackerView::SmartPointerSlice { building_item, .. } ==> building_item,
        below.suits(t, child),
    ensures
        ({
            let a = parted(t, below, child, h);
            a.parent.claims(t, b) + (if a.parting is Stored {
                child.claims(t, b)
            } else {
                0
            }) + net(a.host.trace, b) == below.claims(t, b) + child.claims(t, b) + net(h.trace, b)
        }),
{
    let parent = match child.ownership {
        FrameOwnership::Field { field_idx } => below.with_field(t, field_idx),
        _ => below,
    };
    assert(parent.claims(t, b) == below.claims(t, b));
    assert(advanced(parent).claims(t, b) == parent.claims(t, b));
    let done = child.completed(t);
    lemma_completed_net(child, t, b);
    lemma_disposed_net(done.frame, t, h.plus(done.ops), b);
    let filled = child.filled(t);
    let h1 = h.plus(filled.ops);
    let fin = filled.frame.completed(t);
    lemma_filled_net(child, t, b);
    lemma_filled_fits(child, t);
    lemma_fill_makes_no_slice(child, t);
    lemma_completed_net(filled.frame, t, b);
    lemma_disposed_net(filled.frame, t, h1, b);
    lemma_disposed_net(fin.frame, t, h1.plus(fin.ops), b);
    if child.tracker is SmartPointerSlice {
        lemma_slice_is_not_complete(child, t);
        lemma_slice_is_not_complete(filled.frame, t);
    } else {
        if done.result is Ok {
            lemma_complete_is_clear(child, t, b);
        }
        if fin.result is Ok {
            lemma_complete_is_clear(filled.frame, t, b);
        }
        if child.ownership.releases() {
            lemma_slot_net(child, t, b);
        }
    }
    match parent.tracker {
        TrackerView::DynamicValue { state } => match state {
            DynamicValueView::Object { pending_entries, insert_state } => match insert_state {
                DynamicObjectInsertState::BuildingValue { key } => {
                    let more = pending_entries.push((key, child.data));
                    lemma_values_same(
                        t,
                        parent.shape(),
                        entry_values(pending_entries),
                        entry_values(more),
                        pending_entries.len(),
                        b,
                    );
                    assert(entry_values(more)[pending_entries.len() as int] == child.data);
                },
                _ => {},
            },
            DynamicValueView::Array { pending_elements, .. } => {
                let more = pending_elements.push(child.data);
                lemma_values_same(
                    t,
                    parent.shape(),
                    pending_elements,
                    more,
                    pending_elements.len(),
                    b,
                );
            },
            _ => {},
        },
        _ => {},
    }
}

proof fn lemma_put_aside_claims(p: PartialView, plan: TypePlanCore, h: HostView, b: Resource)
    requires
        p.wf(plan),
        p.stack.len() >= 2,
        p.sets_aside(plan.shapes),
        !p.at_slice_end(),
    ensures
        ({
            let o = p.put_aside(plan.shapes, h);
            o.partial.balance(plan.shapes, o.host, b) == p.balance(plan.shapes, h, b)
        }),
{
    let t = plan.shapes;
    let child = p.top();
    let q = p.popped();
    let below = q.top();
    let s = p.deferred->0.stored;
    let path = p.storage_path(t);
    assert(p.stack[p.stack.len() - 1].wf(plan));
    assert(p.stack[p.stack.len() - 2].wf(plan));
    assert(p.is_suited(t, p.stack.len() - 1));
    let a = parted(t, below, child, h);
    lemma_popped_claims(p, t, h, b);
    lemma_parted_claims(t, below, child, h, b);
    lemma_total_update(t, q.stack, q.stack.len() - 1, a.parent, b);
    let i = lower_bound(s, path, 0) as int;
    lemma_lower_bound_within(s, path, 0);
    if find(s, path) is Some {
        assert(frames_of(inserted(s, path, child)) =~= frames_of(s).update(i, child));
        lemma_total_update(t, frames_of(s), i, child, b);
        lemma_supersede_net(s[i].frame, t, b);
    } else {
        assert(frames_of(inserted(s, path, child)) =~= frames_of(s).insert(i, child));
        lemma_total_insert(t, frames_of(s), i, child, b);
    }
}

/// A frame that makes way for another one releases what it claims.
proof fn lemma_supersede_net(f: FrameView, t: ShapeTable, b: Resource)
    ensures
        net(f.supersede_ops(t), b) == f.claims(t, b),
{
    lemma_deinit_net(f, t, b);
    lemma_waiting_net(f, t, b);
}

proof fn lemma_slice_ended_claims(p: PartialView, plan: TypePlanCore, h: HostView, b: Resource)
    requires
        plan.wf(),
        p.wf(plan),
        p.at_slice_end(),
    ensures
        ({
            let o = p.slice_ended(plan.shapes, h);
            &&& !(b is Number) ==> o.partial.balance(plan.shapes, o.host, b) == p.balance(
                plan.shapes,
                h,
                b,
            )
            &&& p.has_numbers(1) ==> o.partial.balance(plan.shapes, o.host, b) <= p.balance(
                plan.shapes,
                h,
                b,
            )
        }),
{
    let t = plan.shapes;
    assert(p.stack[p.stack.len() - 1].wf(plan));
    assert(t.shape_ok(t.shapes@[p.top().shape().id as int]));
    let o = p.slice_ended(t, h);
    let p1 = PartialView { next_buffer: p.next_buffer.wrapping_add(1), ..p };
    assert(p1.pool().claims(t, b) == p.pool().claims(t, b));
    lemma_with_top_claims(p, t, o.partial.top(), o.host, b);
    lemma_with_top_claims(p1, t, o.partial.top(), o.host, b);
}

proof fn lemma_handed_over_claims(p: PartialView, plan: TypePlanCore, h: HostView, b: Resource)
    requires
        p.wf(plan),
        p.stack.len() >= 2,
        p.top().waiting_claims(plan.shapes, b) == 0,
        !(p.top().tracker is SmartPointerSlice),
        ({
            let t = plan.shapes;
            let parent = p.popped().top();
            proxy_conversion(t, p.popped().stack, p.top()) is None ==> (parent.is_init
                ==> entry_ready(parent, p.top()))
        }),
    ensures
        ({
            let t = plan.shapes;
            let o = p.handed_over(t, h);
            &&& o.partial.balance(t, o.host, b) <= p.balance(t, h, b)
            &&& proxy_conversion(t, p.popped().stack, p.top()) is Some || attachment_is_accounted(
                t,
                p.popped().top(),
                p.top(),
                h,
            ) ==> o.partial.balance(t, o.host, b) == p.balance(t, h, b)
        }),
{
    let t = plan.shapes;
    let child = p.top();
    let q = p.popped();
    let parent = q.top();
    assert(p.stack[p.stack.len() - 1].wf(plan));
    assert(p.stack[p.stack.len() - 2].wf(plan));
    assert(p.is_suited(t, p.stack.len() - 1));
    lemma_popped_claims(p, t, h, b);
    match proxy_conversion(t, q.stack, child) {
        Some(f) => {
            let a = parent.from_proxy(t, child, f, h);
            lemma_from_proxy_net(parent, child, f, t, h, b);
            lemma_with_top_claims(q, t, a.frame, a.host, b);
        },
        None => {
            let deferred = p.deferred is Some;
            let a = attached(t, parent, child, deferred, h);
            lemma_attached_net(t, parent, child, deferred, h, b);
            lemma_with_top_claims(q, t, a.parent, a.host, b);
        },
    }
}

/// Ending a frame keeps the balance of every resource, whether it succeeds or not: claims are moved to
/// the parent or to the stored frames, or become releases. They are never doubled. They are never lost
/// either, except where a conversion hook does not say what became of its source. A new buffer gets a
/// number that was not used before, as long as there are any.
pub proof fn law_end_keeps_authority(p: PartialView, plan: TypePlanCore, h: HostView, b: Resource)
    requires
        plan.wf(),
        p.wf(plan),
        p.endable(plan.shapes),
    ensures
        ({
            let t = plan.shapes;
            let o = p.ended(plan, h);
            &&& !(b is Number) || p.has_numbers(1) ==> o.partial.balance(t, o.host, b) <= p.balance(
                t,
                h,
                b,
            )
            &&& !(b is Number) && p.end_is_accounted(plan, h) ==> o.partial.balance(t, o.host, b)
                == p.balance(t, h, b)
        }),
{
    let t = plan.shapes;
    if p.at_slice_end() {
        lemma_slice_ended_claims(p, plan, h, b);
    } else if p.stack.len() > 1 && (p.deferred matches Some(d) ==> p.stack.len() > d.start_depth) {
        if p.sets_aside(t) {
            lemma_put_aside_claims(p, plan, h, b);
        } else {
            lemma_top_completed_claims(p, plan, h, b);
            lemma_top_completed_frames(p, plan, h);
            let c = p.top_completed(plan, h);
            let q = c.partial;
            if c.result is Ok {
                assert(p.stack[p.stack.len() - 1].wf(plan));
                lemma_top_completed_wf(p, plan, h);
                assert(q.stack[q.stack.len() - 2] == q.popped().top());
                assert(p.stack[p.stack.len() - 2] == p.popped().top());
                lemma_handed_over_claims(q, plan, c.host, b);
            }
        }
    }
}

/// Completing the current frame keeps everything in order.
proof fn lemma_top_completed_wf(p: PartialView, plan: TypePlanCore, h: HostView)
    requires
        p.wf(plan),
    ensures
        p.top_completed(plan, h).partial.wf(plan),
{
    let t = plan.shapes;
    let f = p.top();
    assert(p.stack[p.stack.len() - 1].wf(plan));
    match p.top_plans(plan) {
        Some(range) => {
            lemma_fill_and_require_wf(f, plan, plan.fields_in(range), range.len, h);
            lemma_with_top(
                p,
                plan,
                f.fill_and_require(plan, plan.fields_in(range), range.len, h).frame,
            );
        },
        None => {
            lemma_filled_wf(f, plan);
            let p1 = p.with_top(f.filled(t).frame);
            lemma_with_top(p, plan, f.filled(t).frame);
            lemma_completed_wf(f.filled(t).frame, plan);
            lemma_with_top(p1, plan, f.filled(t).frame.completed(t).frame);
        },
    }
}

proof fn lemma_cleanup_claims(t: ShapeTable, w: PoolHost, n: nat, b: Resource)
    requires
        n <= w.pool.stored.len(),
        w.pool.is_countable(),
    ensures
        ({
            let q = cleanup(t, w, n);
            &&& q.pool.claims(t, b) + net(q.host.trace, b) == w.pool.claims(t, b) + net(
                w.host.trace,
                b,
            )
            &&& q.pool.stored.len() == w.pool.stored.len() - n
            &&& q.pool.stack.len() == w.pool.stack.len()
        }),
    decreases n,
{
    if n > 0 {
        lemma_cleanup_claims(t, w, (n - 1) as nat, b);
        let q = cleanup(t, w, (n - 1) as nat);
        let i = deepest(q.pool.stored, q.pool.stored.len()) as int;
        lemma_deepest(q.pool.stored, q.pool.stored.len());
        let e = q.pool.stored[i];
        lemma_pool_without_claims(q.pool, t, i, b);
        lemma_parent_clears_claims(q.pool.without(i), t, e.path, b);
        lemma_disposed_net(e.frame, t, q.host, b);
    }
}

proof fn lemma_abandoned_claims(
    t: ShapeTable,
    pool: Pool,
    path: PathView,
    frame: FrameView,
    h: HostView,
    b: Resource,
)
    requires
        pool.is_countable(),
    ensures
        ({
            let q = abandoned(t, pool, path, frame, h);
            &&& q.pool.claims(t, b) + net(q.host.trace, b) == pool.claims(t, b) + frame.claims(t, b)
                + net(h.trace, b)
            &&& q.pool.stored.len() == 0
            &&& q.pool.stack.len() == pool.stack.len()
        }),
{
    lemma_parent_clears_claims(pool, t, path, b);
    lemma_disposed_net(frame, t, h, b);
    let w = PoolHost { pool: parent_clears(pool, path), host: disposed(t, frame, h) };
    lemma_cleanup_claims(t, w, w.pool.stored.len(), b);
}

/// Turning a slice builder into its pointer moves the claim along.
proof fn lemma_slice_finished_claims(
    plan: TypePlanCore,
    pool: Pool,
    path: PathView,
    frame: FrameView,
    h: HostView,
    next_buffer: u64,
    b: Resource,
)
    requires
        plan.wf(),
        frame.wf(plan),
    ensures
        ({
            let t = plan.shapes;
            let a = slice_finished(t, pool, path, frame, h, next_buffer);
            let sum = frame.claims(t, b) + still_free(next_buffer, b) + net(h.trace, b);
            let after = a.frame.claims(t, b) + still_free(a.next_buffer, b) + net(a.host.trace, b);
            &&& !(b is Number) ==> after == sum
            &&& next_buffer + 2 <= u64::MAX ==> after <= sum && a.next_buffer <= next_buffer + 2
            &&& a.frame.wf(plan)
            &&& a.frame.ownership == frame.ownership
            &&& a.result is Ok ==> !(a.frame.tracker is SmartPointerSlice)
        }),
{
    let t = plan.shapes;
    assert(t.shape_ok(t.shapes@[frame.shape().id as int]));
}

/// If a child is converted by a hook, the hook says what became of it.
pub open spec fn absorption_is_accounted(
    t: ShapeTable,
    parent: FrameView,
    step: PathStep,
    child: FrameView,
    h: HostView,
) -> bool {
    step is Inner ==> if parent.is_clear() {
        !is_unaccounted(t, parent, child, h)
    } else {
        !is_unaccounted(t, parent, child, h.plus(parent.deinit_ops(t)))
    }
}

proof fn lemma_absorbed_claims(
    t: ShapeTable,
    parent: FrameView,
    step: PathStep,
    child: FrameView,
    h: HostView,
    b: Resource,
)
    requires
        parent.fits(t),
        child.fits(t),
        child.waiting_claims(t, b) == 0,
        !(child.tracker is SmartPointerSlice),
        is_absorbing(step),
        parent.in_order(step),
        is_owed(t, parent, step, child),
    ensures
        ({
            let r = parent.absorbed(t, step, child, h);
            accounts_if(
                absorption_is_accounted(t, parent, step, child, h),
                t,
                parent,
                child,
                h,
                r.frame,
                r.host,
                b,
            )
        }),
{
    lemma_turned_down_net(parent, child, t, h, b);
    if child.ownership.releases() {
        lemma_slot_net(child, t, b);
    }
    if parent.tracker is SmartPointerSlice {
    } else if parent.makes_way(step) {
        let cleared = parent.deinited();
        let h1 = h.plus(parent.deinit_ops(t));
        lemma_deinit_net(parent, t, b);
        lemma_absorbed_whole_claims(t, cleared, step, child, h1, b);
    } else if !(step is Index) {
        lemma_absorbed_whole_claims(t, parent, step, child, h, b);
    }
}

proof fn lemma_absorbed_whole_claims(
    t: ShapeTable,
    parent: FrameView,
    step: PathStep,
    child: FrameView,
    h: HostView,
    b: Resource,
)
    requires
        parent.fits(t),
        child.fits(t),
        child.waiting_claims(t, b) == 0,
        !(child.tracker is SmartPointerSlice),
        !(parent.tracker is SmartPointerSlice),
        is_absorbing(step),
        !(step is Index),
        !parent.makes_way(step),
        parent.in_order(step),
        is_owed(t, parent, step, child),
    ensures
        ({
            let r = parent.absorbed_whole(t, step, child, h);
            accounts_if(
                step is Inner ==> !is_unaccounted(t, parent, child, h),
                t,
                parent,
                child,
                h,
                r.frame,
                r.host,
                b,
            )
        }),
{
    lemma_turned_down_net(parent, child, t, h, b);
    if child.ownership.releases() {
        lemma_slot_net(child, t, b);
    }
    match step {
        PathStep::Deref => {
            lemma_with_pointee_net(parent, child, t, h, b);
        },
        PathStep::Inner => {
            lemma_with_inner_net(parent, child, t, h, b);
        },
        PathStep::Proxy => {
            match child.shape_level_proxy {
                Some(p) => {
                    lemma_from_proxy_net(parent, child, p.convert_in, t, h, b);
                },
                None => {},
            }
        },
        PathStep::MapKey(_) => {
            if parent.tracker is MapOf {
                lemma_map_takes_over(parent, t, child.data, child.data, 0, b);
            }
        },
        PathStep::MapValue(i) => {
            if parent.tracker is MapOf {
                lemma_map_takes_over(parent, t, child.data, child.data, i as int, b);
            }
        },
        _ => {},
    }
}

impl Walk {
    /// Claims to a resource, and how often it was released or used up more than made.
    pub open spec fn balance(self, t: ShapeTable, b: Resource) -> int {
        self.pool.claims(t, b) + still_free(self.next_buffer, b) + net(self.host.trace, b)
    }
}

/// The deepest stored frame is taken over without anything being lost.
pub open spec fn step_is_accounted(t: ShapeTable, w: Walk) -> bool {
    let i = deepest(w.pool.stored, w.pool.stored.len()) as int;
    let e = w.pool.stored[i];
    let pool = w.pool.without(i);
    let at = pool.place(e.path.parent());
    let a = slice_finished(t, pool, e.path, e.frame, w.host, w.next_buffer);
    let filled = a.frame.filled(t);
    let done = filled.frame.completed(t);
    e.path.steps.len() > 0 && !(at is Nowhere) ==> absorption_is_accounted(
        t,
        pool.at(at),
        e.path.steps.last(),
        done.frame,
        a.host.plus(filled.ops).plus(done.ops),
    )
}

/// Each stored frame is taken over without anything being lost, when its turn comes.
pub open spec fn walk_is_accounted(t: ShapeTable, w: Walk) -> bool {
    forall|n: nat|
        #![trigger walk(t, w, n)]
        n < w.pool.stored.len() && walk(t, w, n).failed is None ==> step_is_accounted(
            t,
            walk(t, w, n),
        )
}

proof fn lemma_consumed_claims(
    plan: TypePlanCore,
    pool: Pool,
    path: PathView,
    frame: FrameView,
    h: HostView,
    b: Resource,
)
    requires
        plan.wf(),
        pool.is_countable(),
        pool.wf(plan),
        frame.wf(plan),
        frame.waiting_claims(plan.shapes, b) == 0,
        !(frame.tracker is SmartPointerSlice),
        consumable(plan.shapes, pool, path, frame),
    ensures
        ({
            let t = plan.shapes;
            let at = pool.place(path.parent());
            let q = consumed(t, pool, path, frame, h);
            let sum = pool.claims(t, b) + frame.claims(t, b) + net(h.trace, b);
            &&& q.pool.claims(t, b) + net(q.host.trace, b) <= sum
            &&& (path.steps.len() > 0 && !(at is Nowhere) ==> absorption_is_accounted(
                t,
                pool.at(at),
                path.steps.last(),
                frame,
                h,
            )) ==> q.pool.claims(t, b) + net(q.host.trace, b) == sum
            &&& q.pool.stored.len() == pool.stored.len()
            &&& q.pool.stack.len() == pool.stack.len()
            &&& q.pool.wf(plan)
        }),
{
    let t = plan.shapes;
    let at = pool.place(path.parent());
    lemma_place_is_there(pool, path.parent());
    if path.steps.len() > 0 && !(at is Nowhere) {
        let step = path.steps.last();
        let parent = pool.at(at);
        lemma_pool_at(pool, plan, at);
        if is_absorbing(step) {
            let r = parent.absorbed(t, step, frame, h);
            lemma_absorbed_claims(t, parent, step, frame, h, b);
            lemma_absorbed_wf(parent, plan, step, frame, h);
            lemma_pool_with_claims(pool, t, at, r.frame, b);
            lemma_pool_with(pool, plan, at, r.frame);
        } else {
            match step {
                PathStep::Field(idx) => {
                    let g = parent.with_field(t, idx as usize);
                    assert(g.claims(t, b) == parent.claims(t, b));
                    lemma_pool_with_claims(pool, t, at, g, b);
                    lemma_pool_with(pool, plan, at, g);
                },
                _ => {},
            }
        }
    }
}

proof fn lemma_walk_step_claims(plan: TypePlanCore, w: Walk, b: Resource)
    requires
        plan.wf(),
        w.pool.stored.len() > 0,
        w.pool.is_countable(),
        w.pool.wf(plan),
        step_ready(plan.shapes, w),
    ensures
        ({
            let t = plan.shapes;
            let q = walk_step(t, w);
            let numbered = w.next_buffer + 2 <= u64::MAX;
            &&& !(b is Number) || numbered ==> q.balance(t, b) <= w.balance(t, b)
            &&& numbered ==> q.next_buffer <= w.next_buffer + 2
            &&& !(b is Number) && step_is_accounted(t, w) ==> q.balance(t, b) == w.balance(t, b)
            &&& q.pool.is_countable()
            &&& q.pool.stack.len() == w.pool.stack.len()
            &&& q.failed is None ==> q.pool.stored.len() == w.pool.stored.len() - 1 && q.pool.wf(
                plan,
            )
            &&& q.failed is Some ==> q.pool.stored.len() == 0
        }),
{
    let t = plan.shapes;
    let i = deepest(w.pool.stored, w.pool.stored.len()) as int;
    lemma_deepest(w.pool.stored, w.pool.stored.len());
    let e = w.pool.stored[i];
    let pool = w.pool.without(i);
    lemma_pool_without(w.pool, plan, i);
    lemma_pool_without_claims(w.pool, t, i, b);
    let a = slice_finished(t, pool, e.path, e.frame, w.host, w.next_buffer);
    lemma_slice_finished_claims(plan, pool, e.path, e.frame, w.host, w.next_buffer, b);
    let filled = a.frame.filled(t);
    lemma_filled_net(a.frame, t, b);
    lemma_filled_wf(a.frame, plan);
    lemma_fill_makes_no_slice(a.frame, t);
    let h1 = a.host.plus(filled.ops);
    let done = filled.frame.completed(t);
    lemma_completed_net(filled.frame, t, b);
    lemma_completed_wf(filled.frame, plan);
    let h2 = h1.plus(done.ops);
    if a.result is Err {
        lemma_abandoned_claims(t, pool, e.path, a.frame, a.host, b);
    } else if filled.result is Err {
        lemma_abandoned_claims(t, pool, e.path, filled.frame, h1, b);
    } else if done.result is Err {
        lemma_abandoned_claims(t, pool, e.path, done.frame, h2, b);
    } else {
        lemma_complete_is_clear(filled.frame, t, b);
        lemma_consumed_claims(plan, pool, e.path, done.frame, h2, b);
    }
}

proof fn lemma_walk_claims(plan: TypePlanCore, w: Walk, n: nat, b: Resource)
    requires
        plan.wf(),
        w.failed is None,
        n <= w.pool.stored.len(),
        w.pool.is_countable(),
        w.pool.wf(plan),
        walk_ready(plan.shapes, w),
    ensures
        ({
            let t = plan.shapes;
            let q = walk(t, w, n);
            let numbered = w.next_buffer + 2 * n <= u64::MAX;
            &&& !(b is Number) || numbered ==> q.balance(t, b) <= w.balance(t, b)
            &&& numbered ==> q.next_buffer <= w.next_buffer + 2 * n
            &&& !(b is Number) && walk_is_accounted(t, w) ==> q.balance(t, b) == w.balance(t, b)
            &&& q.pool.is_countable()
            &&& q.pool.stack.len() == w.pool.stack.len()
            &&& q.failed is None ==> q.pool.stored.len() == w.pool.stored.len() - n && q.pool.wf(
                plan,
            )
            &&& q.failed is Some ==> q.pool.stored.len() == 0
        }),
    decreases n,
{
    if n > 0 {
        lemma_walk_claims(plan, w, (n - 1) as nat, b);
        let q = walk(plan.shapes, w, (n - 1) as nat);
        if q.failed is None {
            lemma_walk_step_claims(plan, q, b);
        }
    }
}

/// Leaving deferred mode keeps the balance of every resource, whether it succeeds or not: each stored
/// frame hands its claims to its parent when it is found complete, or releases them. None is doubled.
/// None is lost either, except where a conversion hook does not say what became of its source. New
/// buffers get numbers that were not used before, as long as there are any.
pub proof fn law_finish_deferred_keeps_authority(
    p: PartialView,
    plan: TypePlanCore,
    h: HostView,
    b: Resource,
)
    requires
        plan.wf(),
        p.wf(plan),
        p.pool().is_countable(),
        p.finishable(plan.shapes, h),
    ensures
        ({
            let t = plan.shapes;
            let o = p.finished(t, h);
            &&& !(b is Number) || p.has_numbers(2 * p.pool().stored.len()) ==> o.partial.balance(
                t,
                o.host,
                b,
            ) <= p.balance(t, h, b)
            &&& !(b is Number) && walk_is_accounted(t, p.walk_start(h)) ==> o.partial.balance(
                t,
                o.host,
                b,
            ) == p.balance(t, h, b)
        }),
{
    let t = plan.shapes;
    match p.deferred {
        None => {},
        Some(d) => {
            let n = d.stored.len();
            lemma_walk_claims(plan, p.walk_start(h), n, b);
            let w = walk(t, p.walk_start(h), n);
            let q = PartialView {
                stack: w.pool.stack,
                deferred: None,
                next_buffer: w.next_buffer,
                ..p
            };
            assert(frames_of(w.pool.stored) =~= Seq::<FrameView>::empty());
            assert(frames_of(q.pool().stored) =~= Seq::<FrameView>::empty());
            if w.failed is None {
                lemma_top_finished_claims(q, t, w.host, b);
            }
        },
    }
}

/// A frame for a part of the value in the current frame can be pushed: everything stays in order, and
/// the balance of every resource is kept, because the new frame owns no memory.
proof fn lemma_part_pushed(
    p: PartialView,
    plan: TypePlanCore,
    parent: FrameView,
    child: FrameView,
    h: HostView,
    b: Resource,
)
    requires
        plan.wf(),
        p.wf(plan),
        parent.wf(plan),
        parent.shape() == p.top().shape(),
        parent.ownership == p.top().ownership,
        parent.claims(plan.shapes, b) == p.top().claims(plan.shapes, b),
        parent.asking() is Nothing,
        child.wf(plan),
        child.tracker is Scalar,
        child.ownership matches FrameOwnership::Field { field_idx } && (plan.shapes.is_struct(
            parent.shape(),
        ) ==> field_idx < plan.shapes.struct_fields(parent.shape()).len()),
    ensures
        p.with_top(parent).pushed(child).wf(plan),
        p.with_top(parent).pushed(child).balance(plan.shapes, h, b) == p.balance(
            plan.shapes,
            h,
            b,
        ),
{
    let t = plan.shapes;
    lemma_with_top(p, plan, parent);
    lemma_with_top_claims(p, t, parent, h, b);
    let q = p.with_top(parent);
    lemma_pushed_wf(q, plan, child);
    lemma_total_push(t, q.stack, child, b);
}

/// Entering a field of the struct in the current frame keeps everything in order, and keeps the
/// balance of every resource.
pub proof fn law_entering_a_field_keeps_authority(
    p: PartialView,
    plan: TypePlanCore,
    idx: usize,
    node: NodeId,
    h: HostView,
    b: Resource,
)
    requires
        plan.wf(),
        p.wf(plan),
        plan.shapes.is_struct(p.top().shape()),
        p.top().tracker is Scalar || p.top().tracker is Struct,
        idx < plan.shapes.struct_fields(p.top().shape()).len(),
        ({
            let shape = plan.shapes.struct_fields(p.top().shape())[idx as int].shape;
            &&& plan.shapes.sized(shape) is Some
            &&& plan.has_node(node)
            &&& plan.node_at(node).shape == shape
        }),
    ensures
        ({
            let t = plan.shapes;
            let e = p.top().struct_field_begun(t, t.struct_fields(p.top().shape()), idx, node);
            &&& e.result matches Ok(child)
            &&& p.with_top(e.frame).pushed(child).wf(plan)
            &&& p.with_top(e.frame).pushed(child).balance(t, h, b) == p.balance(t, h, b)
        }),
{
    let t = plan.shapes;
    let fields = t.struct_fields(p.top().shape());
    assert(p.stack[p.stack.len() - 1].wf(plan));
    assert(t.shape_ok(t.shapes@[p.top().shape().id as int]));
    assert(t.has(fields[idx as int].shape));
    assert(t.shape_ok(t.shapes@[fields[idx as int].shape.id as int]));
    let e = p.top().struct_field_begun(t, fields, idx, node);
    lemma_part_pushed(p, plan, e.frame, e.result->Ok_0, h, b);
}

/// Entering a field of the chosen variant in the current frame keeps everything in order, and keeps
/// the balance of every resource.
pub proof fn law_entering_a_variant_field_keeps_authority(
    p: PartialView,
    plan: TypePlanCore,
    idx: usize,
    node: NodeId,
    h: HostView,
    b: Resource,
)
    requires
        plan.wf(),
        p.wf(plan),
        p.top().tracker is Enum,
        ({
            let fields = plan.shapes.variant_fields(
                p.top().shape(),
                p.top().tracker->Enum_variant_idx,
            );
            &&& idx < fields.len()
            &&& plan.shapes.sized(fields[idx as int].shape) is Some
            &&& plan.has_node(node)
            &&& plan.node_at(node).shape == fields[idx as int].shape
        }),
    ensures
        ({
            let t = plan.shapes;
            let f = p.top();
            let fields = t.variant_fields(f.shape(), f.tracker->Enum_variant_idx);
            let e = f.enum_field_begun(t, fields, idx, node);
            &&& e.result matches Ok(child)
            &&& p.with_top(e.frame).pushed(child).wf(plan)
            &&& p.with_top(e.frame).pushed(child).balance(t, h, b) == p.balance(t, h, b)
        }),
{
    let t = plan.shapes;
    let f = p.top();
    let variant_idx = f.tracker->Enum_variant_idx;
    let fields = t.variant_fields(f.shape(), variant_idx);
    assert(p.stack[p.stack.len() - 1].wf(plan));
    assert(t.shape_ok(t.shapes@[f.shape().id as int]));
    match t.at(f.shape()).ty {
        Type::User(UserType::Enum(e)) => {
            assert(t.fields_ok(e.variants@[variant_idx as int].fields@));
        },
        _ => {},
    }
    assert(t.has(fields[idx as int].shape));
    assert(t.shape_ok(t.shapes@[fields[idx as int].shape.id as int]));
    let e = f.enum_field_begun(t, fields, idx, node);
    lemma_part_pushed(p, plan, e.frame, e.result->Ok_0, h, b);
}

/// Entering an element of the array in the current frame keeps everything in order, and keeps the
/// balance of every resource.
pub proof fn law_entering_an_element_keeps_authority(
    p: PartialView,
    plan: TypePlanCore,
    a: ArrayType,
    idx: usize,
    node: NodeId,
    h: HostView,
    b: Resource,
)
    requires
        plan.wf(),
        p.wf(plan),
        plan.shapes.at(p.top().shape()).ty == Type::Sequence(SequenceType::Array(a)),
        p.top().array_element_begun(plan.shapes, a, idx, node).result is Ok,
        !plan.node_at(p.top().type_plan).has_fields(),
        plan.has_node(node),
        plan.node_at(node).shape == a.t,
    ensures
        ({
            let t = plan.shapes;
            let e = p.top().array_element_begun(t, a, idx, node);
            let child = e.result->Ok_0;
            &&& p.with_top(e.frame).pushed(child).wf(plan)
            &&& p.with_top(e.frame).pushed(child).balance(t, h, b) == p.balance(t, h, b)
        }),
{
    let t = plan.shapes;
    assert(p.stack[p.stack.len() - 1].wf(plan));
    assert(t.shape_ok(t.shapes@[p.top().shape().id as int]));
    assert(t.shape_ok(t.shapes@[a.t.id as int]));
    let e = p.top().array_element_begun(t, a, idx, node);
    lemma_part_pushed(p, plan, e.frame, e.result->Ok_0, h, b);
}

} // verus!
