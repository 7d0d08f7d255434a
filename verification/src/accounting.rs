//! What each step does to the claims on buffers and ropes.
use vstd::prelude::*;

use crate::attach::{
    attached, entry_ended, entry_ready, needs_conversion, pointee_ended, reclaimed, string_ended,
    taken_over,
};
use crate::authority::{
    entry_claims, lemma_claims_not_negative, lemma_deinit_net, lemma_drop_slots, lemma_entry_claims,
    value_claims,
};
use crate::deferred::disposed;
use crate::fill::{fill_fields, planned_default, planned_fill, validated, PlannedFill};
use crate::finish::{
    full_entries, insert_entries_ops, insert_object_ops, pointer_completion, push_elements_ops,
    push_slots_ops, rope_drain,
};
use crate::frame::{entry_values, FrameOwnership, FrameView, PendingSmartPointerInner};
use crate::memory::{Addr, FnRef, HostView, MemOp, PtrUninit, TryFromCall};
use crate::net::{net, same_rope, Resource};
use crate::plan::{FieldPlan, TypePlanCore};
use crate::pointer::PointerDef;
use crate::shape::{Def, DynamicDef, Field, ListDef, MapDef, ShapeRef, ShapeTable};
use crate::tracker::{DynamicValueView, TrackerView};

verus! {

broadcast use crate::net::group_net;

proof fn lemma_fill_fields_net(
    t: ShapeTable,
    fields: Seq<Field>,
    at: Addr,
    container: bool,
    iset: Set<int>,
    n: nat,
    b: Resource,
)
    ensures
        net(fill_fields(t, fields, at, container, iset, n).ops, b) == 0,
    decreases n,
{
    if n > 0 {
        lemma_fill_fields_net(t, fields, at, container, iset, (n - 1) as nat, b);
    }
}

/// Filling in defaults makes and releases nothing, and keeps all claims.
pub proof fn lemma_filled_net(f: FrameView, t: ShapeTable, b: Resource)
    ensures
        net(f.filled(t).ops, b) == 0,
        f.filled(t).frame.waiting_claims(t, b) == f.waiting_claims(t, b),
        f.filled(t).frame.claims(t, b) == f.claims(t, b),
        f.same_frame(f.filled(t).frame),
{
    reveal(FrameView::filled);
    let container = t.at(f.shape()).default_attr;
    let at = f.data.addr;
    let fields = t.struct_fields(f.shape());
    lemma_fill_fields_net(t, fields, at, container, Set::empty(), fields.len(), b);
    match f.tracker {
        TrackerView::Struct { iset, .. } => {
            lemma_fill_fields_net(t, fields, at, container, iset, fields.len(), b);
        },
        TrackerView::Enum { variant_idx, data, .. } => {
            let fields = t.variant_fields(f.shape(), variant_idx);
            lemma_fill_fields_net(t, fields, at, container, data, fields.len(), b);
        },
        _ => {},
    }
}

proof fn lemma_push_slots_net(
    d: ListDef,
    push: FnRef,
    list: Addr,
    slots: Seq<PtrUninit>,
    count: usize,
    n: nat,
    b: Resource,
)
    ensures
        net(push_slots_ops(d, push, list, slots, count, n), b) == 0,
    decreases n,
{
    if n > 0 {
        lemma_push_slots_net(d, push, list, slots, count, (n - 1) as nat, b);
    }
}

proof fn lemma_full_entries(entries: Seq<(PtrUninit, Option<PtrUninit>)>, n: nat)
    ensures
        full_entries(entries, n) <= n,
        forall|i: int| 0 <= i < full_entries(entries, n) ==> (#[trigger] entries[i]).1 is Some,
    decreases n,
{
    if n > 0 {
        lemma_full_entries(entries, (n - 1) as nat);
    }
}

/// The claims of entries are those of the first `n` and those of the rest.
proof fn lemma_entries_skip(
    t: ShapeTable,
    d: MapDef,
    entries: Seq<(PtrUninit, Option<PtrUninit>)>,
    n: nat,
    m: nat,
    b: Resource,
)
    requires
        n <= m <= entries.len(),
    ensures
        entry_claims(t, d, entries, m, b) == entry_claims(t, d, entries, n, b) + entry_claims(
            t,
            d,
            entries.skip(n as int),
            (m - n) as nat,
            b,
        ),
    decreases m,
{
    if m > n {
        lemma_entries_skip(t, d, entries, n, (m - 1) as nat, b);
        assert(entries.skip(n as int)[m - n - 1] == entries[m - 1]);
    }
}

proof fn lemma_insert_entries_net(
    t: ShapeTable,
    d: MapDef,
    map: Addr,
    entries: Seq<(PtrUninit, Option<PtrUninit>)>,
    n: nat,
    b: Resource,
)
    requires
        forall|i: int| 0 <= i < n ==> (#[trigger] entries[i]).1 is Some,
    ensures
        net(insert_entries_ops(t, d, map, entries, n), b) == entry_claims(t, d, entries, n, b),
    decreases n,
{
    if n > 0 {
        lemma_insert_entries_net(t, d, map, entries, (n - 1) as nat, b);
    }
}

proof fn lemma_push_elements_net(
    t: ShapeTable,
    d: DynamicDef,
    shape: ShapeRef,
    array: Addr,
    elements: Seq<PtrUninit>,
    n: nat,
    b: Resource,
)
    ensures
        net(push_elements_ops(t, d, shape, array, elements, n), b) == value_claims(
            t,
            shape,
            elements,
            n,
            b,
        ),
    decreases n,
{
    if n > 0 {
        lemma_push_elements_net(t, d, shape, array, elements, (n - 1) as nat, b);
    }
}

proof fn lemma_insert_object_net(
    t: ShapeTable,
    d: DynamicDef,
    shape: ShapeRef,
    object: Addr,
    entries: Seq<(String, PtrUninit)>,
    n: nat,
    b: Resource,
)
    requires
        n <= entries.len(),
    ensures
        net(insert_object_ops(t, d, shape, object, entries, n), b) == value_claims(
            t,
            shape,
            entry_values(entries),
            n,
            b,
        ),
    decreases n,
{
    if n > 0 {
        lemma_insert_object_net(t, d, shape, object, entries, (n - 1) as nat, b);
    }
}

proof fn lemma_pointer_completion_net(
    t: ShapeTable,
    shape: ShapeRef,
    p: PointerDef,
    dst: Addr,
    pending: PendingSmartPointerInner,
    b: Resource,
)
    ensures
        net(pointer_completion(t, shape, p, dst, pending).ops, b) == net(pending.moved_ops(t), b),
        net(pending.discard_ops(t), b) == net(pending.moved_ops(t), b),
{
}

/// Completing a frame releases only what waited in its tracker, and what is left to wait was
/// not released.
pub proof fn lemma_completed_net(f: FrameView, t: ShapeTable, b: Resource)
    ensures
        net(f.completed(t).ops, b) + f.completed(t).frame.waiting_claims(t, b) == f.waiting_claims(
            t,
            b,
        ),
        0 <= net(f.completed(t).ops, b),
        f.same_frame(f.completed(t).frame),
        net(f.completed(t).frame.dealloc_ops(t), b) == net(f.dealloc_ops(t), b),
{
    reveal(FrameView::completed);
    lemma_claims_not_negative(f, t, b);
    match f.tracker {
        TrackerView::SmartPointer { pending_inner: Some(pending), .. } => {
            match t.at(f.shape()).def {
                Def::Pointer(p) => {
                    lemma_pointer_completion_net(t, f.shape(), p, f.data.addr, pending, b);
                },
                _ => {},
            }
        },
        TrackerView::List { rope: Some(r), current_child } => match t.at(f.shape()).def {
            Def::List(d) => {
                assert(net(seq![MemOp::FreeRope { rope: r.id }], b) == same_rope(r.id, b));
                if d.push is Some {
                    lemma_push_slots_net(
                        d,
                        d.push->0,
                        f.data.addr,
                        r.slots,
                        r.initialized,
                        r.initialized as nat,
                        b,
                    );
                }
                lemma_drop_slots(t, d.t, r.slots, r.initialized as nat, b);
                assert(net(rope_drain(t, d, f.data.addr, r).ops, b) == same_rope(r.id, b));
            },
            _ => {
                assert(net(seq![MemOp::FreeRope { rope: r.id }], b) == same_rope(r.id, b));
            },
        },
        TrackerView::MapOf { pending_entries, .. } => match t.at(f.shape()).def {
            Def::MapOf(d) => {
                let n = full_entries(pending_entries, pending_entries.len());
                lemma_full_entries(pending_entries, pending_entries.len());
                lemma_insert_entries_net(t, d, f.data.addr, pending_entries, n, b);
                lemma_entry_claims(t, d, pending_entries, n, pending_entries.len(), b);
                lemma_entries_skip(t, d, pending_entries, n, pending_entries.len(), b);
            },
            _ => {},
        },
        TrackerView::DynamicValue { state } => match (state, t.at(f.shape()).def) {
            (DynamicValueView::Object { pending_entries, .. }, Def::DynamicValue(d)) => {
                lemma_insert_object_net(
                    t,
                    d,
                    f.shape(),
                    f.data.addr,
                    pending_entries,
                    pending_entries.len(),
                    b,
                );
            },
            (DynamicValueView::Array { pending_elements, .. }, Def::DynamicValue(d)) => {
                lemma_push_elements_net(
                    t,
                    d,
                    f.shape(),
                    f.data.addr,
                    pending_elements,
                    pending_elements.len(),
                    b,
                );
            },
            _ => {},
        },
        _ => {},
    }
}

proof fn lemma_validated_net(
    fns: Seq<FnRef>,
    plan: FieldPlan,
    at: Addr,
    shape: ShapeRef,
    p: PlannedFill,
    n: nat,
    b: Resource,
)
    ensures
        net(validated(fns, plan, at, shape, p, n).host.trace, b) == net(p.host.trace, b),
    decreases n,
{
    if n > 0 {
        lemma_validated_net(fns, plan, at, shape, p, (n - 1) as nat, b);
    }
}

proof fn lemma_planned_fill_net(
    plan: TypePlanCore,
    plans: Seq<FieldPlan>,
    at: Addr,
    shape: ShapeRef,
    all_set: bool,
    p: PlannedFill,
    n: nat,
    b: Resource,
)
    ensures
        net(planned_fill(plan, plans, at, shape, all_set, p, n).host.trace, b) == net(
            p.host.trace,
            b,
        ),
    decreases n,
{
    if n > 0 {
        lemma_planned_fill_net(plan, plans, at, shape, all_set, p, (n - 1) as nat, b);
        let q = planned_fill(plan, plans, at, shape, all_set, p, (n - 1) as nat);
        let field = plans[n - 1];
        let place = at.field(field.offset);
        let d = planned_default(plan.shapes, field, place, shape, q);
        let fns = plan.validators_in(field.validators);
        lemma_validated_net(fns, field, place, shape, d, fns.len(), b);
        lemma_validated_net(fns, field, place, shape, q, fns.len(), b);
    }
}

/// Filling in and validating fields makes and releases nothing, and keeps all claims.
pub proof fn lemma_fill_and_require_net(
    f: FrameView,
    plan: TypePlanCore,
    plans: Seq<FieldPlan>,
    n: usize,
    h: HostView,
    b: Resource,
)
    ensures
        net(f.fill_and_require(plan, plans, n, h).host.trace, b) == net(h.trace, b),
        f.fill_and_require(plan, plans, n, h).frame.claims(plan.shapes, b) == f.claims(
            plan.shapes,
            b,
        ),
        f.same_frame(f.fill_and_require(plan, plans, n, h).frame),
{
    reveal(FrameView::fill_and_require);
    let at = f.data.addr;
    let shape = f.shape();
    let empty = PlannedFill { iset: Set::<int>::empty(), host: h, failed: None };
    let none_set = crate::iset::has_all(Set::<int>::empty(), n as int);
    lemma_planned_fill_net(plan, plans, at, shape, none_set, empty, plans.len(), b);
    match f.tracker {
        TrackerView::Struct { iset, .. } => {
            let p = PlannedFill { iset, host: h, failed: None };
            let all = crate::iset::has_all(iset, n as int);
            lemma_planned_fill_net(plan, plans, at, shape, all, p, plans.len(), b);
        },
        TrackerView::Enum { data, .. } => {
            let p = PlannedFill { iset: data, host: h, failed: None };
            let all = crate::iset::has_all(data, n as int);
            lemma_planned_fill_net(plan, plans, at, shape, all, p, plans.len(), b);
        },
        _ => {},
    }
}

/// Disposing of a frame releases exactly what it claims.
pub proof fn lemma_disposed_net(f: FrameView, t: ShapeTable, h: HostView, b: Resource)
    ensures
        net(disposed(t, f, h).trace, b) == net(h.trace, b) + f.claims(t, b),
{
    lemma_deinit_net(f, t, b);
}

/// Giving a frame up releases exactly what it claims.
pub proof fn lemma_given_up_net(f: FrameView, t: ShapeTable, h: HostView, b: Resource)
    ensures
        net(f.given_up(t, h).trace, b) == net(h.trace, b) + f.claims(t, b),
{
    lemma_deinit_net(f, t, b);
}

/// What a slot of a tracker claims for a value is what the frame that built it claims for its
/// memory.
pub proof fn lemma_slot_net(f: FrameView, t: ShapeTable, b: Resource)
    requires
        f.is_exact(t),
        f.ownership.releases(),
        !(f.tracker is SmartPointerSlice),
    ensures
        net(t.dealloc_ops(f.shape(), f.data.addr), b) == net(f.dealloc_ops(t), b),
{
}

proof fn lemma_entries_same(
    t: ShapeTable,
    d: MapDef,
    x: Seq<(PtrUninit, Option<PtrUninit>)>,
    y: Seq<(PtrUninit, Option<PtrUninit>)>,
    n: nat,
    b: Resource,
)
    requires
        n <= x.len(),
        n <= y.len(),
        forall|i: int| 0 <= i < n ==> x[i] == y[i],
    ensures
        entry_claims(t, d, x, n, b) == entry_claims(t, d, y, n, b),
    decreases n,
{
    if n > 0 {
        lemma_entries_same(t, d, x, y, (n - 1) as nat, b);
    }
}

/// A value for a waiting key adds the claim to its buffer.
proof fn lemma_entry_update(
    t: ShapeTable,
    d: MapDef,
    x: Seq<(PtrUninit, Option<PtrUninit>)>,
    i: int,
    value: PtrUninit,
    n: nat,
    b: Resource,
)
    requires
        0 <= i < n <= x.len(),
        x[i].1 is None,
    ensures
        entry_claims(t, d, x.update(i, (x[i].0, Some(value))), n, b) == entry_claims(
            t,
            d,
            x,
            n,
            b,
        ) + net(t.dealloc_ops(d.v, value.addr), b),
    decreases n,
{
    let y = x.update(i, (x[i].0, Some(value)));
    if i == n - 1 {
        lemma_entries_same(t, d, x, y, (n - 1) as nat, b);
    } else {
        lemma_entry_update(t, d, x, i, value, (n - 1) as nat, b);
    }
}

/// A key or value that a map takes over is claimed by the map instead of its frame.
pub proof fn lemma_map_takes_over(
    parent: FrameView,
    t: ShapeTable,
    key: PtrUninit,
    value: PtrUninit,
    i: int,
    b: Resource,
)
    requires
        parent.tracker is MapOf,
    ensures
        ({
            let after = parent.with_key(key);
            match t.at(parent.shape()).def {
                Def::MapOf(d) => after.waiting_claims(t, b) == parent.waiting_claims(t, b) + net(
                    t.dealloc_ops(d.k, key.addr),
                    b,
                ),
                _ => after.waiting_claims(t, b) == parent.waiting_claims(t, b),
            }
        }),
        ({
            let after = parent.with_value(i, value);
            let entries = parent.tracker->MapOf_pending_entries;
            0 <= i < entries.len() && entries[i].1 is None ==> match t.at(parent.shape()).def {
                Def::MapOf(d) => after.waiting_claims(t, b) == parent.waiting_claims(t, b) + net(
                    t.dealloc_ops(d.v, value.addr),
                    b,
                ),
                _ => after.waiting_claims(t, b) == parent.waiting_claims(t, b),
            }
        }),
{
    let entries = parent.tracker->MapOf_pending_entries;
    match t.at(parent.shape()).def {
        Def::MapOf(d) => {
            lemma_entries_same(t, d, entries, entries.push((key, None)), entries.len(), b);
            if 0 <= i < entries.len() && entries[i].1 is None {
                lemma_entry_update(t, d, entries, i, value, entries.len(), b);
            }
        },
        _ => {},
    }
}

/// The hook was asked to convert the child, and its answer says nothing of what became of the child.
pub open spec fn is_unaccounted(t: ShapeTable, parent: FrameView, child: FrameView, h: HostView) -> bool {
    t.at(parent.shape()).vtable.spec_try_from() matches Some(f) && h.try_from(
        TryFromCall {
            f,
            dst: parent.data.addr,
            src_shape: child.shape(),
            src: child.data.addr,
        },
    ) is Unknown
}

/// No claim is doubled: what the parent claims and what was released is not more than what the parent
/// and the child claimed. If nothing is left unaccounted for, no claim is lost either.
pub open spec fn accounts_if(
    known: bool,
    t: ShapeTable,
    parent: FrameView,
    child: FrameView,
    h: HostView,
    after: FrameView,
    host: HostView,
    b: Resource,
) -> bool {
    let sum = parent.claims(t, b) + child.claims(t, b) + net(h.trace, b);
    &&& after.claims(t, b) + net(host.trace, b) <= sum
    &&& known ==> after.claims(t, b) + net(host.trace, b) == sum
}

/// A finished child that is taken over or turned down moves its claims or releases them.
pub open spec fn accounts(
    t: ShapeTable,
    parent: FrameView,
    child: FrameView,
    h: HostView,
    after: FrameView,
    host: HostView,
    b: Resource,
) -> bool {
    after.claims(t, b) + net(host.trace, b) == parent.claims(t, b) + child.claims(t, b) + net(
        h.trace,
        b,
    )
}

/// A child that is turned down releases its memory.
pub proof fn lemma_turned_down_net(
    parent: FrameView,
    child: FrameView,
    t: ShapeTable,
    h: HostView,
    b: Resource,
)
    ensures
        net(child.staged().discard_ops(t), b) == net(child.dealloc_ops(t), b),
        net(parent.turned_down(t, child, h).host.trace, b) == net(h.trace, b) + net(
            child.dealloc_ops(t),
            b,
        ),
{
}

/// A smart pointer is made from a child, or the child is turned down.
pub proof fn lemma_with_pointee_net(parent: FrameView, child: FrameView, t: ShapeTable, h: HostView, b: Resource)
    requires
        parent.waiting_claims(t, b) == 0,
        child.waiting_claims(t, b) == 0,
    ensures
        ({
            let a = parent.with_pointee(t, child, h);
            accounts(t, parent, child, h, a.frame, a.host, b)
        }),
{
    lemma_turned_down_net(parent, child, t, h, b);
}

/// A wrapper is converted from a child by a hook.
proof fn lemma_from_inner_net(
    parent: FrameView,
    child: FrameView,
    f: FnRef,
    t: ShapeTable,
    h: HostView,
    b: Resource,
)
    requires
        parent.waiting_claims(t, b) == 0,
        child.waiting_claims(t, b) == 0,
        t.at(parent.shape()).vtable.spec_try_from() == Some(f),
    ensures
        ({
            let a = parent.from_inner(t, child, f, h);
            accounts_if(
                !is_unaccounted(t, parent, child, h),
                t,
                parent,
                child,
                h,
                a.frame,
                a.host,
                b,
            )
        }),
{
    lemma_claims_not_negative(child, t, b);
    lemma_turned_down_net(parent, child, t, h, b);
    lemma_turned_down_net(
        parent,
        child,
        t,
        h.after(
            MemOp::TryFrom {
                call: TryFromCall {
                    f,
                    dst: parent.data.addr,
                    src_shape: child.shape(),
                    src: child.data.addr,
                },
            },
        ),
        b,
    );
}

/// A wrapper is converted from a child, or the child is turned down.
pub proof fn lemma_with_inner_net(
    parent: FrameView,
    child: FrameView,
    t: ShapeTable,
    h: HostView,
    b: Resource,
)
    requires
        parent.waiting_claims(t, b) == 0,
        child.waiting_claims(t, b) == 0,
    ensures
        ({
            let a = parent.with_inner(t, child, h);
            accounts_if(
                !is_unaccounted(t, parent, child, h),
                t,
                parent,
                child,
                h,
                a.frame,
                a.host,
                b,
            )
        }),
{
    match t.at(parent.shape()).vtable.spec_try_from() {
        Some(f) => {
            lemma_from_inner_net(parent, child, f, t, h, b);
        },
        None => {
            lemma_turned_down_net(parent, child, t, h, b);
        },
    }
}

/// A value is converted from its proxy.
pub proof fn lemma_from_proxy_net(
    parent: FrameView,
    child: FrameView,
    f: FnRef,
    t: ShapeTable,
    h: HostView,
    b: Resource,
)
    requires
        child.waiting_claims(t, b) == 0,
    ensures
        ({
            let a = parent.from_proxy(t, child, f, h);
            accounts(t, parent, child, h, a.frame, a.host, b)
        }),
{
    let marked = FrameView { is_init: true, ..parent };
    assert(marked.claims(t, b) == parent.claims(t, b));
}

proof fn lemma_pointee_ended_net(
    t: ShapeTable,
    parent: FrameView,
    child: FrameView,
    deferred: bool,
    h: HostView,
    b: Resource,
)
    requires
        parent.tracker is SmartPointer,
        parent.tracker.wf(t, parent.shape()),
        child.waiting_claims(t, b) == 0,
    ensures
        ({
            let a = pointee_ended(t, parent, child, deferred, h);
            accounts(t, parent, child, h, a.parent, a.host, b)
        }),
{
    lemma_disposed_net(child, t, h, b);
    let filled = child.filled(t);
    lemma_filled_net(child, t, b);
    lemma_completed_net(filled.frame, t, b);
    let done = filled.frame.completed(t);
    lemma_claims_not_negative(done.frame, t, b);
    lemma_disposed_net(filled.frame, t, h.plus(filled.ops), b);
    lemma_disposed_net(done.frame, t, h.plus(filled.ops).plus(done.ops), b);
    lemma_completed_net(child, t, b);
    let strict = child.completed(t);
    lemma_claims_not_negative(strict.frame, t, b);
    lemma_disposed_net(strict.frame, t, h.plus(strict.ops), b);
    if parent.tracker->SmartPointer_building_inner {
        lemma_with_pointee_net(parent, strict.frame, t, h.plus(strict.ops), b);
    }
}

proof fn lemma_entry_ended_net(t: ShapeTable, parent: FrameView, child: FrameView, h: HostView, b: Resource)
    requires
        parent.tracker is MapOf,
        parent.tracker.wf(t, parent.shape()),
        child.is_exact(t),
        !(child.tracker is SmartPointerSlice),
        child.waiting_claims(t, b) == 0,
        !(child.ownership is Field),
        parent.suits(t, child),
        entry_ready(parent, child),
    ensures
        ({
            let a = entry_ended(t, parent, child, h);
            accounts(t, parent, child, h, a.parent, a.host, b)
        }),
{
    let filled = child.filled(t);
    lemma_filled_net(child, t, b);
    lemma_disposed_net(child, t, h, b);
    lemma_disposed_net(filled.frame, t, h.plus(filled.ops), b);
    if child.ownership.releases() {
        lemma_slot_net(child, t, b);
    }
    let entries = parent.tracker->MapOf_pending_entries;
    lemma_map_takes_over(parent, t, child.data, child.data, entries.len() - 1, b);
}

proof fn lemma_string_ended_net(t: ShapeTable, parent: FrameView, child: FrameView, h: HostView, b: Resource)
    requires
        parent.tracker is Scalar,
        child.waiting_claims(t, b) == 0,
    ensures
        ({
            let a = string_ended(t, parent, child, h);
            accounts(t, parent, child, h, a.parent, a.host, b)
        }),
{
    lemma_disposed_net(child, t, h, b);
    lemma_completed_net(child, t, b);
    let done = child.completed(t);
    lemma_claims_not_negative(done.frame, t, b);
    lemma_deinit_net(parent, t, b);
    let h1 = h.plus(done.ops);
    lemma_disposed_net(done.frame, t, h1, b);
    lemma_disposed_net(done.frame, t, h1.plus(parent.deinit_ops(t)), b);
}

proof fn lemma_taken_over_net(
    t: ShapeTable,
    parent: FrameView,
    child: FrameView,
    deferred: bool,
    h: HostView,
    b: Resource,
)
    requires
        parent.tracker.wf(t, parent.shape()),
        child.is_exact(t),
        !(child.tracker is SmartPointerSlice),
        child.waiting_claims(t, b) == 0,
        !(child.ownership is Field),
        parent.suits(t, child),
        parent.is_init ==> entry_ready(parent, child),
    ensures
        ({
            let a = taken_over(t, parent, child, deferred, h);
            accounts(t, parent, child, h, a.parent, a.host, b)
        }),
{
    lemma_disposed_net(child, t, h, b);
    if child.ownership.releases() {
        lemma_slot_net(child, t, b);
    }
    match parent.tracker {
        TrackerView::SmartPointer { .. } => {
            lemma_pointee_ended_net(t, parent, child, deferred, h, b);
        },
        TrackerView::MapOf { .. } => {
            if parent.is_init {
                lemma_entry_ended_net(t, parent, child, h, b);
            }
        },
        TrackerView::Scalar => {
            lemma_string_ended_net(t, parent, child, h, b);
        },
        _ => {},
    }
}

/// If a child that ends is converted by a hook, the hook says what became of it.
pub open spec fn attachment_is_accounted(
    t: ShapeTable,
    parent: FrameView,
    child: FrameView,
    h: HostView,
) -> bool {
    let done = child.completed(t);
    needs_conversion(t, parent, child) && done.result is Ok ==> !is_unaccounted(
        t,
        parent,
        done.frame,
        h.plus(done.ops),
    )
}

/// A child that ends moves its claims to the parent or releases them; none is doubled, and none is
/// lost unless a hook leaves it unaccounted for.
pub proof fn lemma_attached_net(
    t: ShapeTable,
    parent: FrameView,
    child: FrameView,
    deferred: bool,
    h: HostView,
    b: Resource,
)
    requires
        parent.tracker.wf(t, parent.shape()),
        child.is_exact(t),
        !(child.tracker is SmartPointerSlice),
        child.waiting_claims(t, b) == 0,
        parent.suits(t, child),
        parent.is_init ==> entry_ready(parent, child),
    ensures
        ({
            let a = attached(t, parent, child, deferred, h);
            accounts_if(
                attachment_is_accounted(t, parent, child, h),
                t,
                parent,
                child,
                h,
                a.parent,
                a.host,
                b,
            )
        }),
{
    let done = child.completed(t);
    let h1 = h.plus(done.ops);
    lemma_completed_net(child, t, b);
    lemma_claims_not_negative(done.frame, t, b);
    lemma_disposed_net(done.frame, t, h1, b);
    if needs_conversion(t, parent, child) {
        let f = t.at(parent.shape()).vtable.spec_try_from()->0;
        lemma_from_inner_net(parent, done.frame, f, t, h1, b);
    } else {
        match child.ownership {
            FrameOwnership::Field { field_idx } => {
                let filled = child.filled(t);
                lemma_filled_net(child, t, b);
                lemma_completed_net(filled.frame, t, b);
                let fin = filled.frame.completed(t);
                lemma_claims_not_negative(fin.frame, t, b);
                lemma_disposed_net(filled.frame, t, h.plus(filled.ops), b);
                lemma_disposed_net(fin.frame, t, h.plus(filled.ops).plus(fin.ops), b);
                let after = reclaimed(parent, field_idx, fin.result is Ok);
                assert(after.claims(t, b) == parent.claims(t, b));
            },
            FrameOwnership::BorrowedInPlace => {
                reveal(FrameView::completed);
                lemma_taken_over_net(t, parent, done.frame, deferred, h1, b);
            },
            _ => {
                lemma_taken_over_net(t, parent, child, deferred, h, b);
            },
        }
    }
}

} // verus!
