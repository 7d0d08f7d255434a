//! What holds of the library as a whole.
use vstd::prelude::*;

use crate::attach::reclaimed;
use crate::cancel::PoolHost;
use crate::cow::{
    clone_ops, cloned, cow_drop_ops, cow_pointer, promote_ops, promoted, CowFunctions, CowValue,
};
use crate::deferred::{cleanup, consumed, disposed, parent_clears, slice_finished, walk_step, Walk};
use crate::error::ReflectErrorKind;
use crate::finish::full_entries;
use crate::frame::{
    discard_entries_ops, discard_value_ops, FrameOwnership, FrameView, PendingSmartPointerInner,
};
use crate::iset::{first_missing, has_all, lemma_first_missing};
use crate::memory::{Addr, HostView, MemOp, PtrConst, PtrUninit};
use crate::partial::{navigation, navigation_steps, PartialView};
use crate::path::{lemma_last_step_decides, lemma_path_order_total, PathStep, PathView};
use crate::plan::{NodeId, TypePlanCore};
use crate::shape::{Def, Field, MapDef, ShapeRef, ShapeTable};
use crate::stored::{ascending, deepest, find, lemma_deepest, lemma_inserted, StoredView};
use crate::tracker::TrackerView;

verus! {

/// After a frame was deinitialized nothing of it is initialized, nothing is tracked, and doing it
/// again does nothing.
pub proof fn law_deinitialized_frame_is_empty(f: FrameView, t: ShapeTable)
    ensures
        !f.deinited().is_init,
        f.deinited().tracker is Scalar,
        f.deinited().deinit_ops(t) == Seq::<MemOp>::empty(),
        f.deinited().deinited() == f.deinited(),
{
    reveal(FrameView::deinit_ops);
}

/// While a value waits to be moved into a smart pointer, only that value is dropped, and never the
/// memory of the pointer, whatever the frame says about being initialized.
pub proof fn law_waiting_value_shields_pointer(
    f: FrameView,
    t: ShapeTable,
    pending: PendingSmartPointerInner,
    says_init: bool,
)
    requires
        f.tracker matches TrackerView::SmartPointer { pending_inner, .. } && pending_inner == Some(
            pending,
        ),
    ensures
        (FrameView { is_init: says_init, ..f }).deinit_ops(t) == pending.discard_ops(t),
        (FrameView { is_init: says_init, ..f }).cancel_ops(t) == pending.discard_ops(t),
{
    reveal(FrameView::deinit_ops);
}

/// An enum all of whose fields are there is dropped as a whole when it is given up, so that its own
/// destructor runs; one that misses a field is dropped field by field.
pub proof fn law_complete_enum_is_dropped_whole(f: FrameView, t: ShapeTable)
    requires
        f.tracker is Enum,
        !(f.ownership is BorrowedInPlace),
    ensures
        f.is_complete_enum(t) ==> f.cancel_ops(t) == f.drop_whole_ops(t),
        !f.is_complete_enum(t) ==> f.cancel_ops(t) == f.deinit_ops(t),
{
    reveal(FrameView::deinit_ops);
}

/// A parent is not responsible for a field while there is a frame for it, and is again once that
/// frame has ended, if the field is initialized by then. The other fields stay as they are, and the
/// frame knows whether the field was initialized.
pub proof fn law_field_is_relinquished_and_reclaimed(
    parent: FrameView,
    t: ShapeTable,
    fields: Seq<Field>,
    idx: usize,
    node: NodeId,
)
    requires
        idx < fields.len(),
    ensures
        ({
            let before = parent.tracking_struct(fields.len()).tracker->Struct_iset;
            let e = parent.struct_field_begun(t, fields, idx, node);
            let during = e.frame.tracker->Struct_iset;
            let after = reclaimed(e.frame, idx, true).tracker;
            let without = reclaimed(e.frame, idx, false).tracker;
            &&& e.result matches Ok(child)
            &&& child.ownership == (FrameOwnership::Field { field_idx: idx })
            &&& before.contains(idx as int) ==> child.is_init
            &&& during == before.remove(idx as int)
            &&& after == (TrackerView::Struct {
                iset: before.insert(idx as int),
                current_child: None,
            })
            &&& without == (TrackerView::Struct {
                iset: before.remove(idx as int),
                current_child: None,
            })
        }),
{
    let before = parent.tracking_struct(fields.len()).tracker->Struct_iset;
    assert(before.remove(idx as int).insert(idx as int) =~= before.insert(idx as int));
}

/// A field that was set as part of the whole and is entered afterwards starts out initialized.
pub proof fn law_field_of_whole_value_is_initialized(
    parent: FrameView,
    t: ShapeTable,
    fields: Seq<Field>,
    idx: usize,
    node: NodeId,
)
    requires
        idx < fields.len(),
        parent.is_init,
        parent.tracker is Scalar,
    ensures
        parent.struct_field_begun(t, fields, idx, node).result matches Ok(child) && child.is_init,
{
}

/// Deferred mode cannot be entered while it is on, and cannot be left while it is off.
pub proof fn law_deferred_mode_is_not_nested(p: PartialView, t: ShapeTable, h: HostView)
    ensures
        p.deferred is Some <==> p.deferring(t, h).result is Err,
        p.deferring(t, h).result is Ok ==> p.deferring(t, h).partial.deferred is Some,
        p.deferred is None ==> p.finished(t, h).result is Err,
        p.finished(t, h).partial.deferred is None,
{
}

/// Where a frame is set aside is where it is looked for: the path that its parent derives.
pub proof fn law_frame_is_stored_where_parent_looks(p: PartialView, t: ShapeTable)
    requires
        p.stack.len() >= 2,
        !p.top().using_custom_deserialization,
    ensures
        p.storage_path(t) == p.popped().derived_path(t),
{
    lemma_steps_depend_on_frames(p.stack, p.popped().stack, (p.stack.len() - 1) as nat);
}

proof fn lemma_steps_depend_on_frames(a: Seq<FrameView>, b: Seq<FrameView>, n: nat)
    requires
        n <= a.len(),
        n <= b.len(),
        forall|i: int| 0 <= i < n ==> navigation(#[trigger] a[i]) == navigation(b[i]),
        forall|i: int|
            0 <= i < n ==> (#[trigger] a[i]).using_custom_deserialization
                == b[i].using_custom_deserialization,
        n < a.len() ==> !a[n as int].using_custom_deserialization,
        n < b.len() ==> !b[n as int].using_custom_deserialization,
    ensures
        navigation_steps(a, n) == navigation_steps(b, n),
    decreases n,
{
    if n > 0 {
        lemma_steps_up_to(a, b, (n - 1) as nat);
    }
}

proof fn lemma_steps_up_to(a: Seq<FrameView>, b: Seq<FrameView>, n: nat)
    requires
        n < a.len(),
        n < b.len(),
        forall|i: int| 0 <= i <= n ==> navigation(#[trigger] a[i]) == navigation(b[i]),
        forall|i: int|
            0 <= i <= n ==> (#[trigger] a[i]).using_custom_deserialization
                == b[i].using_custom_deserialization,
    ensures
        navigation_steps(a, n) == navigation_steps(b, n),
    decreases n,
{
    if n > 0 {
        lemma_steps_up_to(a, b, (n - 1) as nat);
    }
}

/// In deferred mode a frame that ends is not validated: nothing is done to memory, and the frame is
/// found again under its path, with everything that was known of it. This is so for all frames but
/// those on entries of existing collections, and those whose parent is a set or a dynamic value, and
/// for paths under which no frame was set aside before.
pub proof fn law_deferred_end_keeps_the_frame(p: PartialView, t: ShapeTable, h: HostView)
    requires
        p.stack.len() >= 2,
        p.deferred matches Some(d) && ascending(d.stored) && find(
            d.stored,
            p.storage_path(t),
        ) is None,
        !(p.top().ownership is BorrowedInPlace),
        !(p.popped().top().tracker is SetOf),
        !(p.popped().top().tracker is DynamicValue),
    ensures
        ({
            let o = p.put_aside(t, h);
            &&& o.result is Ok
            &&& o.host == h
            &&& o.partial.deferred matches Some(d)
            &&& find(d.stored, p.storage_path(t)) matches Some(i)
            &&& d.stored[i].frame == p.top()
        }),
{
    lemma_inserted(p.deferred->0.stored, p.storage_path(t), p.top());
}

/// A pointee that was set aside is entered again: the same frame is on top of the stack, except
/// that it is not working on a part of its own, the frames below it are as they were, and no
/// memory was allocated or released for it.
pub proof fn law_pointee_is_entered_again(p: PartialView, plan: TypePlanCore, h: HostView)
    requires
        p.stack.len() >= 2,
        p.deferred matches Some(d) && ascending(d.stored) && find(
            d.stored,
            p.storage_path(plan.shapes),
        ) is None,
        p.top().ownership is Owned,
        !p.top().using_custom_deserialization,
        ({
            let f = p.popped().top();
            &&& f.tracker == (TrackerView::SmartPointer { building_inner: true, pending_inner: None })
            &&& !f.is_init
            &&& plan.shapes.at(f.shape()).def matches Def::Pointer(d)
            &&& d.is_constructible()
            &&& d.pointee is Some
        }),
    ensures
        ({
            let t = plan.shapes;
            let set_aside = p.put_aside(t, h);
            let again = set_aside.partial.smart_ptr_begun(plan, set_aside.host);
            &&& set_aside.result is Ok
            &&& again.result is Ok
            &&& again.host == h
            &&& again.partial.stack == p.stack.update(
                p.stack.len() - 1,
                FrameView { tracker: p.top().tracker.without_child(), ..p.top() },
            )
            &&& again.partial.next_buffer == p.next_buffer
        }),
{
    reveal(FrameView::deinit_ops);
    let t = plan.shapes;
    let child = p.top();
    let parent = p.popped().top();
    law_deferred_end_keeps_the_frame(p, t, h);
    law_frame_is_stored_where_parent_looks(p, t);
    let q = p.put_aside(t, h).partial;
    assert(q.stack =~= p.popped().stack);
    assert(q.derived_path(t) == p.popped().derived_path(t));
    assert(h.plus(Seq::<MemOp>::empty()) =~= h);
    let again = q.smart_ptr_begun(plan, h);
    assert(q.top().cleared() == FrameView { tracker: TrackerView::Scalar, ..parent }
        || q.top().cleared() == parent);
    assert(q.top().clear_ops(t) =~= Seq::<MemOp>::empty());
    assert(again.partial.stack =~= p.stack.update(
        p.stack.len() - 1,
        FrameView { tracker: child.tracker.without_child(), ..child },
    ));
}

/// Ending a field that was set as a whole, in a struct and in strict mode, does nothing to memory: the
/// frame is popped, and the struct counts the field as initialized.
pub proof fn law_ending_a_whole_field_only_counts_it(
    p: PartialView,
    plan: TypePlanCore,
    h: HostView,
    idx: usize,
)
    requires
        p.stack.len() >= 2,
        p.deferred is None,
        p.top().tracker is Scalar,
        p.top().is_init,
        p.top().ownership == (FrameOwnership::Field { field_idx: idx }),
        !p.top().using_custom_deserialization,
        p.popped().top().tracker is Struct,
    ensures
        ({
            let parent = p.popped().top();
            let iset = parent.tracker->Struct_iset;
            let o = p.ended(plan, h);
            &&& o.result is Ok
            &&& o.host == h
            &&& o.partial == p.popped().with_top(
                (FrameView {
                    tracker: TrackerView::Struct {
                        iset: iset.insert(idx as int),
                        current_child: None,
                    },
                    ..parent
                }),
            )
        }),
{
    reveal(FrameView::filled);
    reveal(FrameView::completed);
    reveal(FrameView::fill_and_require);
    let c = p.top_completed(plan, h);
    assert(h.plus(Seq::empty()) =~= h);
    assert(p.with_top(p.top()) =~= p);
    assert(c.host == h && c.partial == p);
}

/// The root frame never ends, nor do frames that were there when deferred mode began: ending a
/// frame takes one frame off the stack or none, and leaves at least one and at least as many as
/// there were when deferred mode began.
pub proof fn law_end_takes_at_most_one_frame(p: PartialView, plan: TypePlanCore, h: HostView)
    requires
        p.stack.len() > 0,
        p.deferred matches Some(d) ==> d.start_depth <= p.stack.len(),
    ensures
        ({
            let q = p.ended(plan, h).partial;
            &&& q.stack.len() == p.stack.len() || q.stack.len() + 1 == p.stack.len()
            &&& q.stack.len() > 0
            &&& p.deferred matches Some(d) ==> q.deferred matches Some(e) && e.start_depth
                == d.start_depth && e.start_depth <= q.stack.len()
        }),
{
}

/// Entering a pointee adds one frame, or none where the frame becomes a slice builder.
pub proof fn law_begin_smart_ptr_adds_at_most_one_frame(p: PartialView, plan: TypePlanCore, h: HostView)
    requires
        p.stack.len() > 0,
    ensures
        ({
            let o = p.smart_ptr_begun(plan, h);
            &&& o.result is Ok ==> o.partial.stack.len() == p.stack.len() + 1 || (
            o.partial.stack.len() == p.stack.len() && o.partial.top().tracker is SmartPointerSlice)
            &&& o.result is Err ==> o.partial.stack.len() == p.stack.len()
        }),
{
}

/// Stored frames are completed children first: while anything below a frame is set aside, it is not
/// that frame's turn.
pub proof fn law_children_are_completed_first(s: Seq<StoredView>, child: int, parent: int)
    requires
        0 <= child < s.len(),
        0 <= parent < s.len(),
        s[child].path.is_below(s[parent].path),
    ensures
        deepest(s, s.len()) != parent,
{
    lemma_deepest(s, s.len());
}

/// Of the elements of one list, those that come earlier are completed earlier.
pub proof fn law_elements_are_completed_in_order(
    s: Seq<StoredView>,
    earlier: int,
    later: int,
    list: PathView,
    i: u32,
    j: u32,
)
    requires
        ascending(s),
        0 <= earlier < s.len(),
        0 <= later < s.len(),
        s[earlier].path == (PathView { shape: list.shape, steps: list.steps.push(PathStep::Index(i)) }),
        s[later].path == (PathView { shape: list.shape, steps: list.steps.push(PathStep::Index(j)) }),
        i < j,
    ensures
        deepest(s, s.len()) != later,
{
    lemma_deepest(s, s.len());
    let a = s[earlier].path;
    let b = s[later].path;
    lemma_last_step_decides(a.steps, b.steps, list.steps.len(), 0);
    assert(a.before(b));
    if later < earlier {
        assert(b.before(a));
        lemma_path_order_total(a, b);
    }
}

proof fn lemma_cleanup_length(t: ShapeTable, w: PoolHost, n: nat)
    requires
        n <= w.pool.stored.len(),
    ensures
        cleanup(t, w, n).pool.stored.len() == w.pool.stored.len() - n,
    decreases n,
{
    if n > 0 {
        lemma_cleanup_length(t, w, (n - 1) as nat);
        let q = cleanup(t, w, (n - 1) as nat);
        lemma_deepest(q.pool.stored, q.pool.stored.len());
    }
}

/// A stored frame that cannot be completed takes all other stored frames with it.
pub proof fn law_failure_disposes_of_all_stored_frames(t: ShapeTable, w: Walk)
    requires
        w.failed is None,
        w.pool.stored.len() > 0,
        walk_step(t, w).failed is Some,
    ensures
        walk_step(t, w).pool.stored.len() == 0,
{
    let i = deepest(w.pool.stored, w.pool.stored.len()) as int;
    lemma_deepest(w.pool.stored, w.pool.stored.len());
    let e = w.pool.stored[i];
    let rest = w.pool.without(i);
    let taken = slice_finished(t, rest, e.path, e.frame, w.host, w.next_buffer);
    let filled = taken.frame.filled(t);
    let h1 = taken.host.plus(filled.ops);
    let done = filled.frame.completed(t);
    let h2 = h1.plus(done.ops);
    let pool = parent_clears(rest, e.path);
    let c = consumed(t, rest, e.path, done.frame, h2);
    let w0 = PoolHost { pool, host: disposed(t, taken.frame, taken.host) };
    let w1 = PoolHost { pool, host: disposed(t, filled.frame, h1) };
    let w2 = PoolHost { pool, host: disposed(t, done.frame, h2) };
    lemma_cleanup_length(t, w0, pool.stored.len());
    lemma_cleanup_length(t, w1, pool.stored.len());
    lemma_cleanup_length(t, w2, pool.stored.len());
    lemma_cleanup_length(t, PoolHost { pool: c.pool, host: c.host }, c.pool.stored.len());
}

/// A frame that is complete has nothing left that waits, and completing it again does nothing.
pub proof fn law_completion_is_stable(f: FrameView, t: ShapeTable)
    requires
        f.completed(t).result is Ok,
    ensures
        ({
            let g = f.completed(t).frame;
            &&& g.completed(t).result is Ok
            &&& g.completed(t).frame == g
            &&& g.completed(t).ops == Seq::<MemOp>::empty()
        }),
{
    reveal(FrameView::completed);
}

/// A frame with missing fields is never complete, and the error names the first of them.
pub proof fn law_missing_field_is_reported(f: FrameView, t: ShapeTable, i: int)
    requires
        f.tracker is Struct,
        t.is_struct(f.shape()),
        0 <= i < t.struct_fields(f.shape()).len(),
        !f.tracker->Struct_iset.contains(i),
        has_all(f.tracker->Struct_iset, i),
    ensures
        f.completed(t).result == Err::<(), ReflectErrorKind>(
            ReflectErrorKind::UninitializedField {
                shape: f.shape(),
                field_name: t.struct_fields(f.shape())[i].name,
            },
        ),
{
    reveal(FrameView::completed);
    let s = f.tracker->Struct_iset;
    let n = t.struct_fields(f.shape()).len();
    lemma_first_missing(s, n);
    match first_missing(s, n) {
        Some(k) => {
            if k < i {
                assert(!s.contains(k));
            } else if k > i {
                assert(!s.contains(i));
            }
        },
        None => {
            assert(s.contains(i));
        },
    }
}

/// Choosing the same variant again keeps the fields that are there.
pub proof fn law_reselecting_keeps_fields(p: PartialView, t: ShapeTable, variant_idx: usize, h: HostView)
    requires
        p.stack.len() > 0,
        p.top().tracker is Enum,
        p.may_select(variant_idx),
        p.variant_selected(t, variant_idx, h).result is Ok,
    ensures
        ({
            let before = p.top().tracker;
            let after = p.variant_selected(t, variant_idx, h).partial.top().tracker;
            after == (TrackerView::Enum { variant_idx, data: before->data, current_child: None })
        }),
{
}

/// Making a `Cow` own its value ends its dependency on what it borrowed. Doing it again changes
/// nothing. Clones that were made before still borrow what they borrowed.
pub proof fn law_promotion_is_independent(cow: CowValue, inner: ShapeRef, buf: u64, other: u64)
    ensures
        promoted(cow, buf).is_owned(),
        cow is Borrowed ==> promoted(cow, buf).value() == (PtrConst { addr: Addr::start(buf) }),
        promoted(promoted(cow, buf), other) == promoted(cow, buf),
        promote_ops(inner, promoted(cow, buf), other) == Seq::<MemOp>::empty(),
        cow is Borrowed ==> cloned(cow, other) == cow,
{
}

/// Dropping a `Cow` never drops a value that it only borrows.
pub proof fn law_borrowed_value_is_not_dropped(
    t: ShapeTable,
    owned: ShapeRef,
    pointee: PtrConst,
    other: u64,
)
    ensures
        cow_drop_ops(t, owned, CowValue::Borrowed(pointee)) == Seq::<MemOp>::empty(),
        clone_ops(owned, CowValue::Borrowed(pointee), other) == Seq::<MemOp>::empty(),
{
}

/// A `Cow` can be built from a pointee, by borrowing it and then taking ownership, but never by
/// moving the pointee in.
pub proof fn law_cow_is_built_by_promotion(inner: ShapeRef, fns: CowFunctions)
    ensures
        cow_pointer(inner, fns).is_constructible(),
        cow_pointer(inner, fns).vtable.new_into_fn is None,
        cow_pointer(inner, fns).pointee == Some(inner),
{
}

/// A value that waits to be moved into a smart pointer is dropped and released, once, when room is
/// made for another value, whoever owns the memory of the pointer.
pub proof fn law_reinitialization_releases_waiting_value(
    f: FrameView,
    t: ShapeTable,
    pending: PendingSmartPointerInner,
)
    requires
        f.tracker matches TrackerView::SmartPointer { pending_inner, .. } && pending_inner == Some(
            pending,
        ),
    ensures
        f.clear_ops(t) == pending.discard_ops(t),
        !(f.cleared().tracker matches TrackerView::SmartPointer { pending_inner: Some(_), .. }),
{
    reveal(FrameView::deinit_ops);
}

/// The same for an enum as for a struct: entering a field takes it from the parent.
pub proof fn law_variant_field_is_relinquished_and_reclaimed(
    parent: FrameView,
    t: ShapeTable,
    fields: Seq<Field>,
    idx: usize,
    node: NodeId,
)
    requires
        idx < fields.len(),
        parent.tracker is Enum,
    ensures
        ({
            let before = parent.tracker->data;
            let variant_idx = parent.tracker->Enum_variant_idx;
            let e = parent.enum_field_begun(t, fields, idx, node);
            &&& e.result matches Ok(child)
            &&& before.contains(idx as int) ==> child.is_init
            &&& e.frame.tracker->data == before.remove(idx as int)
            &&& reclaimed(e.frame, idx, true).tracker == (TrackerView::Enum {
                variant_idx,
                data: before.insert(idx as int),
                current_child: None,
            })
            &&& reclaimed(e.frame, idx, false).tracker == (TrackerView::Enum {
                variant_idx,
                data: before.remove(idx as int),
                current_child: None,
            })
        }),
{
    let before = parent.tracker->data;
    assert(before.remove(idx as int).insert(idx as int) =~= before.insert(idx as int));
}

proof fn lemma_half_entry_stops(
    entries: Seq<(PtrUninit, Option<PtrUninit>)>,
    i: int,
    n: nat,
)
    requires
        0 <= i < n <= entries.len(),
        entries[i].1 is None,
    ensures
        full_entries(entries, n) <= i,
    decreases n,
{
    lemma_full_entries_bound(entries, (n - 1) as nat);
    if i < n - 1 {
        lemma_half_entry_stops(entries, i, (n - 1) as nat);
    }
}

proof fn lemma_full_entries_bound(entries: Seq<(PtrUninit, Option<PtrUninit>)>, n: nat)
    ensures
        full_entries(entries, n) <= n,
    decreases n,
{
    if n > 0 {
        lemma_full_entries_bound(entries, (n - 1) as nat);
    }
}

/// A map cannot be finished while a key waits for its value.
pub proof fn law_key_without_value_is_reported(f: FrameView, t: ShapeTable, i: int)
    requires
        f.is_init,
        f.tracker is MapOf,
        f.tracker->MapOf_insert_state is Idle,
        t.at(f.shape()).def is MapOf,
        0 <= i < f.tracker->MapOf_pending_entries.len(),
        f.tracker->MapOf_pending_entries[i].1 is None,
    ensures
        f.completed(t).result == Err::<(), ReflectErrorKind>(
            ReflectErrorKind::InvariantViolation {
                invariant: "map pending_entries contains half-entry (key without value) at finalize",
            },
        ),
{
    reveal(FrameView::completed);
    let entries = f.tracker->MapOf_pending_entries;
    lemma_half_entry_stops(entries, i, entries.len());
}

/// When a map is given up, a key that waits for its value is dropped and released alone.
pub proof fn law_waiting_key_is_dropped_alone(
    t: ShapeTable,
    d: MapDef,
    entries: Seq<(PtrUninit, Option<PtrUninit>)>,
    key: PtrUninit,
)
    ensures
        ({
            let n = entries.len();
            discard_entries_ops(t, d, entries.push((key, None)), n + 1) == discard_entries_ops(
                t,
                d,
                entries,
                n,
            ) + discard_value_ops(t, d.k, key.addr)
        }),
{
    let more = entries.push((key, None));
    lemma_discard_same(t, d, entries, more, entries.len());
    assert(discard_entries_ops(t, d, more, entries.len() + 1) =~= discard_entries_ops(
        t,
        d,
        entries,
        entries.len(),
    ) + discard_value_ops(t, d.k, key.addr));
}

proof fn lemma_discard_same(
    t: ShapeTable,
    d: MapDef,
    x: Seq<(PtrUninit, Option<PtrUninit>)>,
    y: Seq<(PtrUninit, Option<PtrUninit>)>,
    n: nat,
)
    requires
        n <= x.len(),
        n <= y.len(),
        forall|i: int| 0 <= i < n ==> x[i] == y[i],
    ensures
        discard_entries_ops(t, d, x, n) == discard_entries_ops(t, d, y, n),
    decreases n,
{
    if n > 0 {
        lemma_discard_same(t, d, x, y, (n - 1) as nat);
    }
}

} // verus!
