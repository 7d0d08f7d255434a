//! What ending a frame comes to, and what leaving deferred mode does in which order.
use vstd::prelude::*;

use crate::attach::attached;
use crate::cancel::{cancel_stack, cancel_stored, PoolHost};
use crate::deferred::{cleanup, consumed, parent_clears, slice_finished, walk, Walk};
use crate::end::proxy_conversion;
use crate::error::{ReflectErrorKind, ReflectErrorView};
use crate::frame::FrameView;
use crate::memory::HostView;
use crate::partial::PartialView;
use crate::plan::{SliceRange, TypePlanCore, TypePlanNodeKind};
use crate::pool::Pool;
use crate::shape::{ShapeTable, Type, UserType};
use crate::stored::{deepest, lemma_deepest};
use crate::tracker::TrackerView;

verus! {

/// The field plans by which a frame is completed are those of its own type: of the struct, or of
/// the variant that was chosen.
pub proof fn law_frame_is_completed_by_its_own_plans(p: PartialView, plan: TypePlanCore)
    requires
        p.stack.len() > 0,
    ensures
        match plan.nodes@[p.top().type_plan.index as int].kind {
            TypePlanNodeKind::Struct(s) => p.top_plans(plan) == Some(s.fields),
            TypePlanNodeKind::Enum(e) => match p.top().tracker {
                TrackerView::Enum { variant_idx, .. } => variant_idx < e.variants.len && e.variants.start
                    + e.variants.len <= plan.variant_plans@.len() ==> p.top_plans(plan) == Some(
                    plan.variant_plans@[e.variants.start + variant_idx].fields,
                ),
                _ => p.top_plans(plan) is None,
            },
            _ => p.top_plans(plan) is None,
        },
        forall|r: SliceRange|
            #![trigger plan.fields_in(r)]
            r.start + r.len <= plan.field_plans@.len() ==> {
                &&& plan.fields_in(r).len() == r.len
                &&& forall|i: int|
                    0 <= i < r.len ==> #[trigger] plan.fields_in(r)[i] == plan.field_plans@[r.start + i]
            },
{
}

/// Completing the current frame goes by its plans, with as many fields as there are plans; where
/// there are none it gets its defaults first, and then what waits is moved into place. No other
/// frame changes. What is missing is the error.
pub proof fn law_current_frame_is_completed(p: PartialView, plan: TypePlanCore, h: HostView)
    requires
        p.stack.len() > 0,
    ensures
        ({
            let c = p.top_completed(plan, h);
            let f = p.top();
            let n = p.stack.len() as int;
            let filled = f.filled(plan.shapes);
            let done = filled.frame.completed(plan.shapes);
            &&& c.partial == (PartialView {
                stack: p.stack.update(n - 1, c.partial.stack[n - 1]),
                ..p
            })
            &&& match p.top_plans(plan) {
                Some(range) => {
                    let r = f.fill_and_require(plan, plan.fields_in(range), range.len, h);
                    &&& c.partial.stack[n - 1] == r.frame
                    &&& c.host == r.host
                    &&& c.result is Ok <==> r.result is Ok
                    &&& r.result matches Err(kind) ==> c.result == Err::<(), ReflectErrorView>(
                        c.partial.err(plan.shapes, kind),
                    )
                },
                None => {
                    &&& c.result is Ok <==> filled.result is Ok && done.result is Ok
                    &&& filled.result matches Err(kind) ==> {
                        &&& c.result == Err::<(), ReflectErrorView>(c.partial.err(plan.shapes, kind))
                        &&& c.host.trace == h.trace + filled.ops
                        &&& c.partial.stack[n - 1] == filled.frame
                    }
                    &&& filled.result is Ok ==> {
                        &&& c.host.trace == h.trace + filled.ops + done.ops
                        &&& c.partial.stack[n - 1] == done.frame
                        &&& done.result matches Err(kind) ==> c.result == Err::<(), ReflectErrorView>(
                            c.partial.err(plan.shapes, kind),
                        )
                    }
                },
            }
        }),
{
    let c = p.top_completed(plan, h);
    let n = p.stack.len() as int;
    assert(c.partial.stack =~= p.stack.update(n - 1, c.partial.stack[n - 1]));
}

/// Completing the current frame on its own, as it is done when deferred mode is left, goes by
/// defaults and by moving into place whatever waits.
pub proof fn law_last_frame_is_completed(p: PartialView, t: ShapeTable, h: HostView)
    requires
        p.stack.len() > 0,
    ensures
        ({
            let c = p.top_finished(t, h);
            let f = p.top();
            let n = p.stack.len() as int;
            let filled = f.filled(t);
            let done = filled.frame.completed(t);
            &&& c.result is Ok <==> filled.result is Ok && done.result is Ok
            &&& filled.result matches Err(kind) ==> {
                &&& c.result == Err::<(), ReflectErrorView>(c.partial.err(t, kind))
                &&& c.host.trace == h.trace + filled.ops
                &&& c.partial.stack == p.stack.update(n - 1, filled.frame)
            }
            &&& filled.result is Ok ==> {
                &&& c.host.trace == h.trace + filled.ops + done.ops
                &&& c.partial.stack == p.stack.update(n - 1, done.frame)
                &&& done.result matches Err(kind) ==> c.result == Err::<(), ReflectErrorView>(
                    c.partial.err(t, kind),
                )
            }
            &&& c.partial.deferred == p.deferred
            &&& c.partial.next_buffer == p.next_buffer
            &&& c.partial.state == p.state
        }),
{
    let c = p.top_finished(t, h);
    let n = p.stack.len() as int;
    let filled = p.top().filled(t);
    let done = filled.frame.completed(t);
    assert(p.stack.update(n - 1, filled.frame).update(n - 1, done.frame) =~= p.stack.update(
        n - 1,
        done.frame,
    ));
}

/// In strict mode, and in deferred mode where no path leads to it, a frame that ends is completed.
/// If it is complete its parent, the frame right below it, is converted from it where it is a
/// proxy, and else takes it over. The frame is popped then, and no other frame changes. A frame
/// that is not complete is an error, and is not popped.
pub proof fn law_end_hands_the_frame_to_its_parent(
    p: PartialView,
    plan: TypePlanCore,
    h: HostView,
)
    requires
        p.deferred matches Some(d) ==> p.stack.len() > d.start_depth && p.storage_path(
            plan.shapes,
        ).steps.len() == 0,
        p.stack.len() >= 2,
        !(p.top().tracker matches TrackerView::SmartPointerSlice { building_item, .. }
            && !building_item),
    ensures
        ({
            let t = plan.shapes;
            let o = p.ended(plan, h);
            let c = p.top_completed(plan, h);
            let n = p.stack.len() as int;
            let child = c.partial.stack[n - 1];
            let parent = p.stack[n - 2];
            &&& c.result is Err ==> o == c
            &&& c.result is Ok ==> {
                &&& o.partial.stack.len() == n - 1
                &&& forall|i: int| 0 <= i < n - 2 ==> #[trigger] o.partial.stack[i] == p.stack[i]
                &&& match proxy_conversion(t, p.stack.drop_last(), child) {
                    Some(f) => {
                        let a = parent.from_proxy(t, child, f, c.host);
                        &&& o.partial.stack[n - 2] == a.frame
                        &&& o.host == a.host
                        &&& o.result is Ok <==> a.result is Ok
                        &&& a.result matches Err(kind) ==> o.result == Err::<(), ReflectErrorView>(
                            o.partial.err(t, kind),
                        )
                    },
                    None => {
                        let a = attached(t, parent, child, p.deferred is Some, c.host);
                        &&& o.partial.stack[n - 2] == a.parent
                        &&& o.host == a.host
                        &&& o.result is Ok <==> a.result is Ok
                        &&& a.result matches Err(kind) ==> o.result == Err::<(), ReflectErrorView>(
                            o.partial.err(t, kind),
                        )
                    },
                }
                &&& o.partial.deferred == p.deferred
                &&& o.partial.next_buffer == p.next_buffer
            }
        }),
{
    let c = p.top_completed(plan, h);
    let n = p.stack.len() as int;
    law_current_frame_is_completed(p, plan, h);
    assert(c.partial.stack.drop_last() =~= p.stack.drop_last());
    assert(c.partial.popped().top() == p.stack[n - 2]);
}

/// The conversion of a proxy is the one that came with it, or else the one of the field in which
/// the value lies that is converted. What is no proxy has none.
pub proof fn law_where_the_conversion_comes_from(
    t: ShapeTable,
    below: Seq<FrameView>,
    child: FrameView,
)
    ensures
        ({
            let f = proxy_conversion(t, below, child);
            &&& !child.using_custom_deserialization ==> f is None
            &&& child.using_custom_deserialization ==> (child.shape_level_proxy matches Some(p) ==> f
                == Some(p.convert_in))
            &&& child.using_custom_deserialization && child.shape_level_proxy is None ==> {
                &&& below.len() < 2 ==> f is None
                &&& below.len() >= 2 ==> match below[below.len() - 2].field(t) {
                    Some(field) => match field.proxy {
                        Some(p) => f == Some(p.convert_in),
                        None => f is None,
                    },
                    None => f is None,
                }
            }
        }),
{
}

/// A frame is on a field if it is a struct, or a chosen variant, that works on one: that field.
pub proof fn law_which_field_a_frame_is_on(f: FrameView, t: ShapeTable)
    ensures
        match (f.tracker, t.at(f.allocated.shape).ty) {
            (
                TrackerView::Struct { current_child: Some(idx), .. },
                Type::User(UserType::Struct(st)),
            ) => f.field(t) == if idx < st.fields@.len() {
                Some(st.fields@[idx as int])
            } else {
                None
            },
            (
                TrackerView::Enum { variant_idx, current_child: Some(idx), .. },
                Type::User(UserType::Enum(e)),
            ) => f.field(t) == if idx < e.variants@[variant_idx as int].fields@.len() {
                Some(e.variants@[variant_idx as int].fields@[idx as int])
            } else {
                None
            },
            (TrackerView::Enum { current_child: Some(_), .. }, _) => true,
            _ => f.field(t) is None,
        },
{
}

/// In deferred mode a frame that ends, and has a path, is set aside under that path, unless it was
/// there when deferred mode began. It is popped, and not completed.
pub proof fn law_deferred_end_sets_the_frame_aside(p: PartialView, plan: TypePlanCore, h: HostView)
    requires
        p.deferred matches Some(d) && p.stack.len() > d.start_depth,
        p.stack.len() >= 2,
        !(p.top().tracker matches TrackerView::SmartPointerSlice { building_item, .. }
            && !building_item),
        p.storage_path(plan.shapes).steps.len() > 0,
    ensures
        ({
            let o = p.ended(plan, h);
            let below = Pool { stored: p.deferred->0.stored, stack: p.stack.drop_last() };
            let r = below.set_aside(plan.shapes, p.storage_path(plan.shapes), p.top(), h);
            &&& o.partial.stack == r.pool.stack
            &&& o.partial.deferred matches Some(d)
            &&& d.stored == r.pool.stored
            &&& d.start_depth == p.deferred->0.start_depth
            &&& o.host == r.host
            &&& o.result is Ok <==> r.result is Ok
            &&& r.result matches Err(kind) ==> o.result matches Err(e) && e.kind == kind && e.path
                == p.storage_path(plan.shapes)
            &&& o.partial.next_buffer == p.next_buffer
            &&& o.partial.state == p.state
        }),
{
}

/// The frames that cannot end: the last one, and those that were there when deferred mode began.
/// The value stays as it is.
pub proof fn law_frames_that_cannot_end(p: PartialView, plan: TypePlanCore, h: HostView)
    requires
        p.stack.len() > 0,
        !(p.top().tracker matches TrackerView::SmartPointerSlice { building_item, .. }
            && !building_item),
        p.stack.len() == 1 || (p.deferred matches Some(d) && p.stack.len() <= d.start_depth),
    ensures
        ({
            let o = p.ended(plan, h);
            &&& o.partial == p
            &&& o.host == h
            &&& o.result matches Err(e)
            &&& e == p.err(plan.shapes, e.kind)
            &&& p.stack.len() == 1 ==> e.kind == (ReflectErrorKind::InvariantViolation {
                invariant: "Partial::end() called with only one frame on the stack",
            })
            &&& p.stack.len() > 1 ==> e.kind == (ReflectErrorKind::InvariantViolation {
                invariant: "Partial::end() called but would pop below deferred start depth",
            })
        }),
{
}

/// The items of a slice end before the slice does.
pub proof fn law_items_of_a_slice_end_first(p: PartialView, plan: TypePlanCore, h: HostView)
    requires
        p.stack.len() > 0,
        p.top().tracker matches TrackerView::SmartPointerSlice { building_item, .. }
            && !building_item,
    ensures
        p.ended(plan, h) == p.slice_ended(plan.shapes, h),
        p.ended(plan, h).partial.stack.len() == p.stack.len(),
{
}

/// Deferred mode starts with the frames that are there, none of them set aside, and nothing is
/// done. It cannot be entered twice.
pub proof fn law_how_deferred_mode_starts(p: PartialView, t: ShapeTable, h: HostView)
    requires
        p.stack.len() <= usize::MAX,
    ensures
        ({
            let o = p.deferring(t, h);
            &&& o.host == h
            &&& o.partial.stack == p.stack
            &&& o.partial.next_buffer == p.next_buffer
            &&& o.partial.state == p.state
            &&& p.deferred is None ==> {
                &&& o.result is Ok
                &&& o.partial.deferred matches Some(d)
                &&& d.start_depth == p.stack.len()
                &&& d.stored.len() == 0
            }
            &&& p.deferred is Some ==> {
                &&& o.partial == p
                &&& o.result matches Err(e)
                &&& e == p.err(t, e.kind)
                &&& e.kind == (ReflectErrorKind::InvariantViolation {
                    invariant: "begin_deferred() called but already in deferred mode",
                })
            }
        }),
{
}

/// Leaving deferred mode deals with the stored frames one by one, until none is left or one fails.
/// Then the current frame is completed. Without deferred mode it is an error, and nothing is done.
pub proof fn law_how_deferred_mode_ends(p: PartialView, t: ShapeTable, h: HostView)
    ensures
        ({
            let o = p.finished(t, h);
            let start = Walk {
                pool: Pool { stored: p.deferred->0.stored, stack: p.stack },
                host: h,
                next_buffer: p.next_buffer,
                failed: None,
            };
            let w = walk(t, start, p.deferred->0.stored.len());
            let q = PartialView {
                stack: w.pool.stack,
                deferred: None,
                state: p.state,
                next_buffer: w.next_buffer,
            };
            &&& p.deferred is None ==> {
                &&& o.partial == p && o.host == h
                &&& o.result matches Err(e)
                &&& e == p.err(t, e.kind)
                &&& e.kind == (ReflectErrorKind::InvariantViolation {
                    invariant: "finish_deferred() called but deferred mode is not enabled",
                })
            }
            &&& p.deferred is Some && w.failed is None ==> o == q.top_finished(t, w.host)
            &&& p.deferred is Some ==> (w.failed matches Some(kind) ==> {
                &&& o.partial == q && o.host == w.host
                &&& o.result == Err::<(), ReflectErrorView>(q.err(t, kind))
            })
        }),
{
}

/// The next stored frame that is dealt with is the deepest, and of equally deep ones the first. It
/// is taken out; a slice becomes a pointer; it gets its defaults; what waits is moved into place;
/// and if it is complete it goes to its parent. Otherwise what is missing is the error: the frame
/// is disposed of, its parent does not count it, and all others are disposed of, too. Nothing
/// follows an error.
pub proof fn law_how_a_stored_frame_is_dealt_with(t: ShapeTable, w: Walk, n: nat, i: int)
    requires
        walk(t, w, n).failed is None,
        0 <= i < walk(t, w, n).pool.stored.len(),
        ({
            let s = walk(t, w, n).pool.stored;
            &&& forall|j: int|
                0 <= j < s.len() ==> (#[trigger] s[j]).path.steps.len() <= s[i].path.steps.len()
            &&& forall|j: int|
                0 <= j < i ==> (#[trigger] s[j]).path.steps.len() < s[i].path.steps.len()
        }),
    ensures
        ({
            let q = walk(t, w, n);
            let next = walk(t, w, n + 1);
            let e = q.pool.stored[i];
            let rest = Pool { stored: q.pool.stored.remove(i), stack: q.pool.stack };
            let a = slice_finished(t, rest, e.path, e.frame, q.host, q.next_buffer);
            let filled = a.frame.filled(t);
            let done = filled.frame.completed(t);
            let h1 = HostView { trace: a.host.trace + filled.ops, oracle: a.host.oracle };
            let h2 = HostView { trace: h1.trace + done.ops, oracle: a.host.oracle };
            let gone = |f: FrameView, h: HostView|
                cleanup(
                    t,
                    PoolHost {
                        pool: parent_clears(rest, e.path),
                        host: HostView {
                            trace: h.trace + f.deinit_ops(t) + f.dealloc_ops(t),
                            oracle: h.oracle,
                        },
                    },
                    parent_clears(rest, e.path).stored.len(),
                );
            &&& walk(t, w, 0) == w
            &&& next.next_buffer == a.next_buffer
            &&& next.failed is None <==> a.result is Ok && filled.result is Ok && done.result is Ok
            &&& next.failed is None ==> {
                let c = consumed(t, rest, e.path, done.frame, h2);
                &&& next.pool == c.pool
                &&& next.host == c.host
            }
            &&& a.result matches Err(kind) ==> {
                &&& next.failed == Some(kind)
                &&& next.pool == gone(a.frame, a.host).pool
                &&& next.host == gone(a.frame, a.host).host
            }
            &&& a.result is Ok ==> (filled.result matches Err(kind) ==> {
                &&& next.failed == Some(kind)
                &&& next.pool == gone(filled.frame, h1).pool
                &&& next.host == gone(filled.frame, h1).host
            })
            &&& a.result is Ok && filled.result is Ok ==> (done.result matches Err(kind) ==> {
                &&& next.failed == Some(kind)
                &&& next.pool == gone(done.frame, h2).pool
                &&& next.host == gone(done.frame, h2).host
            })
            &&& next.failed is Some ==> walk(t, w, n + 2) == next
        }),
{
    let q = walk(t, w, n);
    let s = q.pool.stored;
    lemma_deepest(s, s.len());
    let d = deepest(s, s.len()) as int;
    assert(s[d].path.steps.len() <= s[i].path.steps.len());
    assert(s[i].path.steps.len() <= s[d].path.steps.len());
    assert(d == i);
    assert((n + 1 - 1) as nat == n);
    assert((n + 2 - 1) as nat == n + 1);
}

/// Giving a value up gives up its stored frames first, all of them, and then the stack.
pub proof fn law_giving_up_starts_with_stored_frames(p: PartialView, t: ShapeTable, h: HostView)
    ensures
        ({
            let pool = Pool {
                stored: match p.deferred {
                    Some(d) => d.stored,
                    None => Seq::empty(),
                },
                stack: p.stack,
            };
            let w = cancel_stored(t, PoolHost { pool, host: h }, pool.stored.len());
            &&& p.cancelled(t, h) == cancel_stack(t, w.pool.stack, w.host)
            &&& p.deferred is None ==> p.cancelled(t, h) == cancel_stack(t, p.stack, h)
        }),
{
}

} // verus!
