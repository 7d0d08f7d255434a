//! Who will release which resource.
//!
//! Every buffer that is made while a value is built has one authority that will release it: the
//! frame that owns it, or the slot of a tracker in which a finished value waits. The rope in which
//! a list stages its elements is released by the frame of the list. Here the claims to such a
//! resource are counted, together with how often it was made and released. That no operation
//! changes the balance means that authority is moved, never doubled and never lost, and so that
//! everything is released once.
use vstd::prelude::*;

use crate::frame::{
    discard_entries_ops, discard_values_ops, drop_elements_ops, drop_fields_ops, drop_slots_ops,
    entry_values, FrameOwnership, FrameView,
};
use crate::memory::{Addr, HostView, MemOp, PtrUninit};
use crate::net::{in_buffer, net, same_rope, Resource};
use crate::partial::PartialView;
use crate::pool::Pool;
use crate::shape::{Def, Field, MapDef, ShapeRef, ShapeTable};
use crate::stored::StoredView;
use crate::tracker::{DynamicValueView, TrackerView};

verus! {

broadcast use crate::net::group_net;

/// Claims to a resource by the first `n` entries that wait to go into a map.
pub open spec fn entry_claims(
    t: ShapeTable,
    d: MapDef,
    entries: Seq<(PtrUninit, Option<PtrUninit>)>,
    n: nat,
    b: Resource,
) -> int
    decreases n,
{
    if n == 0 {
        0
    } else {
        let (key, value) = entries[n - 1];
        entry_claims(t, d, entries, (n - 1) as nat, b) + net(t.dealloc_ops(d.k, key.addr), b) + (
        match value {
            Some(v) => net(t.dealloc_ops(d.v, v.addr), b),
            None => 0,
        })
    }
}

/// Claims to a resource by the first `n` values that wait to go into a dynamic value.
pub open spec fn value_claims(
    t: ShapeTable,
    shape: ShapeRef,
    values: Seq<PtrUninit>,
    n: nat,
    b: Resource,
) -> int
    decreases n,
{
    if n == 0 {
        0
    } else {
        value_claims(t, shape, values, (n - 1) as nat, b) + net(
            t.dealloc_ops(shape, values[n - 1].addr),
            b,
        )
    }
}

impl FrameView {
    /// Claims to a resource by what waits in the frame's tracker.
    pub open spec fn waiting_claims(self, t: ShapeTable, b: Resource) -> int {
        match self.tracker {
            TrackerView::SmartPointer { pending_inner: Some(p), .. } => net(p.moved_ops(t), b),
            TrackerView::SmartPointerSlice { .. } => in_buffer(self.data.addr, b),
            TrackerView::List { rope: Some(r), .. } => same_rope(r.id, b),
            TrackerView::Option { pending_inner: Some(p), .. } => match t.at(self.shape()).def {
                Def::Option(d) => net(t.dealloc_ops(d.t, p.addr), b),
                _ => 0,
            },
            TrackerView::MapOf { pending_entries, .. } => match t.at(self.shape()).def {
                Def::MapOf(d) => entry_claims(t, d, pending_entries, pending_entries.len(), b),
                _ => 0,
            },
            TrackerView::DynamicValue { state } => match state {
                DynamicValueView::Object { pending_entries, .. } => if t.at(
                    self.shape(),
                ).def is DynamicValue {
                    value_claims(
                        t,
                        self.shape(),
                        entry_values(pending_entries),
                        pending_entries.len(),
                        b,
                    )
                } else {
                    0
                },
                DynamicValueView::Array { pending_elements, .. } => value_claims(
                    t,
                    self.shape(),
                    pending_elements,
                    pending_elements.len(),
                    b,
                ),
                _ => 0,
            },
            _ => 0,
        }
    }

    /// Claims to a resource by the frame: for the memory that it owns, and for what waits in its
    /// tracker.
    pub open spec fn claims(self, t: ShapeTable, b: Resource) -> int {
        net(self.dealloc_ops(t), b) + self.waiting_claims(t, b)
    }
}

/// Claims to a resource by frames.
pub open spec fn total(t: ShapeTable, frames: Seq<FrameView>, b: Resource) -> int
    decreases frames.len(),
{
    if frames.len() == 0 {
        0
    } else {
        total(t, frames.drop_last(), b) + frames.last().claims(t, b)
    }
}

/// The frames that were set aside.
pub open spec fn frames_of(stored: Seq<StoredView>) -> Seq<FrameView> {
    Seq::new(stored.len(), |i: int| stored[i].frame)
}

impl Pool {
    /// Claims to a resource by all frames.
    pub open spec fn claims(self, t: ShapeTable, b: Resource) -> int {
        total(t, self.stack, b) + total(t, frames_of(self.stored), b)
    }
}

/// One if the resource is a number from `next_buffer` on, which is still to be given to a buffer,
/// else zero.
pub open spec fn still_free(next_buffer: u64, b: Resource) -> int {
    match b {
        Resource::Number(n) if n >= next_buffer => 1,
        _ => 0,
    }
}

impl PartialView {
    /// Claims to a resource, and how often it was released or used up more than made. A number is
    /// claimed as long as it is still to be given to a buffer.
    pub open spec fn balance(self, t: ShapeTable, h: HostView, b: Resource) -> int {
        self.pool().claims(t, b) + still_free(self.next_buffer, b) + net(h.trace, b)
    }

    /// Another `n` buffers can be numbered before the numbers start over.
    pub open spec fn has_numbers(self, n: nat) -> bool {
        self.next_buffer + n <= u64::MAX
    }
}

/// The claims of two runs of frames add up.
pub proof fn lemma_total_add(t: ShapeTable, a: Seq<FrameView>, c: Seq<FrameView>, b: Resource)
    ensures
        total(t, a + c, b) == total(t, a, b) + total(t, c, b),
    decreases c.len(),
{
    if c.len() == 0 {
        assert(a + c =~= a);
    } else {
        lemma_total_add(t, a, c.drop_last(), b);
        assert((a + c).drop_last() =~= a + c.drop_last());
        assert((a + c).last() == c.last());
    }
}

/// One more frame adds its claims.
pub proof fn lemma_total_push(t: ShapeTable, a: Seq<FrameView>, f: FrameView, b: Resource)
    ensures
        total(t, a.push(f), b) == total(t, a, b) + f.claims(t, b),
{
    assert(a.push(f).drop_last() =~= a);
}

/// The claims of frames are those before, at and behind a position.
pub proof fn lemma_total_split(t: ShapeTable, s: Seq<FrameView>, i: int, b: Resource)
    requires
        0 <= i < s.len(),
    ensures
        total(t, s, b) == total(t, s.take(i), b) + s[i].claims(t, b) + total(t, s.skip(i + 1), b),
{
    assert(s =~= s.take(i).push(s[i]) + s.skip(i + 1));
    lemma_total_add(t, s.take(i).push(s[i]), s.skip(i + 1), b);
    lemma_total_push(t, s.take(i), s[i], b);
}

/// Replacing a frame replaces its claims.
pub proof fn lemma_total_update(t: ShapeTable, s: Seq<FrameView>, i: int, f: FrameView, b: Resource)
    requires
        0 <= i < s.len(),
    ensures
        total(t, s.update(i, f), b) == total(t, s, b) - s[i].claims(t, b) + f.claims(t, b),
{
    lemma_total_split(t, s, i, b);
    let u = s.update(i, f);
    lemma_total_split(t, u, i, b);
    assert(u.take(i) =~= s.take(i));
    assert(u.skip(i + 1) =~= s.skip(i + 1));
}

/// A frame that is taken out takes its claims along.
pub proof fn lemma_total_remove(t: ShapeTable, s: Seq<FrameView>, i: int, b: Resource)
    requires
        0 <= i < s.len(),
    ensures
        total(t, s.remove(i), b) == total(t, s, b) - s[i].claims(t, b),
{
    lemma_total_split(t, s, i, b);
    assert(s.remove(i) =~= s.take(i) + s.skip(i + 1));
    lemma_total_add(t, s.take(i), s.skip(i + 1), b);
}

/// A frame that is put in brings its claims along.
pub proof fn lemma_total_insert(t: ShapeTable, s: Seq<FrameView>, i: int, f: FrameView, b: Resource)
    requires
        0 <= i <= s.len(),
    ensures
        total(t, s.insert(i, f), b) == total(t, s, b) + f.claims(t, b),
{
    let u = s.insert(i, f);
    lemma_total_split(t, u, i, b);
    assert(u.take(i) =~= s.take(i));
    assert(u.skip(i + 1) =~= s.skip(i));
    assert(s =~= s.take(i) + s.skip(i));
    lemma_total_add(t, s.take(i), s.skip(i), b);
}

/// More entries claim no less, and none claim less than nothing.
pub proof fn lemma_entry_claims(
    t: ShapeTable,
    d: MapDef,
    entries: Seq<(PtrUninit, Option<PtrUninit>)>,
    m: nat,
    n: nat,
    b: Resource,
)
    requires
        m <= n,
    ensures
        0 <= entry_claims(t, d, entries, m, b) <= entry_claims(t, d, entries, n, b),
        b is Number ==> entry_claims(t, d, entries, n, b) == 0,
    decreases n,
{
    if n > 0 {
        if m < n {
            lemma_entry_claims(t, d, entries, m, (n - 1) as nat, b);
        } else {
            lemma_entry_claims(t, d, entries, (m - 1) as nat, (n - 1) as nat, b);
        }
    }
}

/// Waiting values claim no less than nothing.
pub proof fn lemma_value_claims(t: ShapeTable, shape: ShapeRef, values: Seq<PtrUninit>, n: nat, b: Resource)
    ensures
        0 <= value_claims(t, shape, values, n, b),
        b is Number ==> value_claims(t, shape, values, n, b) == 0,
    decreases n,
{
    if n > 0 {
        lemma_value_claims(t, shape, values, (n - 1) as nat, b);
    }
}

/// No frame holds less than no claims.
pub proof fn lemma_claims_not_negative(f: FrameView, t: ShapeTable, b: Resource)
    ensures
        0 <= f.waiting_claims(t, b),
        0 <= net(f.dealloc_ops(t), b),
        b is Number ==> f.claims(t, b) == 0,
{
    match f.tracker {
        TrackerView::MapOf { pending_entries, .. } => match t.at(f.shape()).def {
            Def::MapOf(d) => {
                lemma_entry_claims(t, d, pending_entries, 0, pending_entries.len(), b);
            },
            _ => {},
        },
        TrackerView::DynamicValue { state } => match state {
            DynamicValueView::Object { pending_entries, .. } => {
                lemma_value_claims(
                    t,
                    f.shape(),
                    entry_values(pending_entries),
                    pending_entries.len(),
                    b,
                );
            },
            DynamicValueView::Array { pending_elements, .. } => {
                lemma_value_claims(t, f.shape(), pending_elements, pending_elements.len(), b);
            },
            _ => {},
        },
        _ => {},
    }
}

/// No frames hold less than no claims, and none claim a number.
pub proof fn lemma_total_not_negative(t: ShapeTable, frames: Seq<FrameView>, b: Resource)
    ensures
        0 <= total(t, frames, b),
        b is Number ==> total(t, frames, b) == 0,
    decreases frames.len(),
{
    if frames.len() > 0 {
        lemma_total_not_negative(t, frames.drop_last(), b);
        lemma_claims_not_negative(frames.last(), t, b);
    }
}

proof fn lemma_drop_elements(
    t: ShapeTable,
    elem: ShapeRef,
    size: usize,
    at: Addr,
    iset: Set<int>,
    n: nat,
    b: Resource,
)
    ensures
        net(drop_elements_ops(t, elem, size, at, iset, n), b) == 0,
    decreases n,
{
    if n > 0 {
        lemma_drop_elements(t, elem, size, at, iset, (n - 1) as nat, b);
    }
}

proof fn lemma_drop_fields(t: ShapeTable, fields: Seq<Field>, at: Addr, iset: Set<int>, n: nat, b: Resource)
    ensures
        net(drop_fields_ops(t, fields, at, iset, n), b) == 0,
    decreases n,
{
    if n > 0 {
        lemma_drop_fields(t, fields, at, iset, (n - 1) as nat, b);
    }
}

/// Dropping what is in slots releases nothing.
pub proof fn lemma_drop_slots(t: ShapeTable, shape: ShapeRef, slots: Seq<PtrUninit>, n: nat, b: Resource)
    ensures
        net(drop_slots_ops(t, shape, slots, n), b) == 0,
    decreases n,
{
    if n > 0 {
        lemma_drop_slots(t, shape, slots, (n - 1) as nat, b);
    }
}

proof fn lemma_discard_entries(
    t: ShapeTable,
    d: MapDef,
    entries: Seq<(PtrUninit, Option<PtrUninit>)>,
    n: nat,
    b: Resource,
)
    ensures
        net(discard_entries_ops(t, d, entries, n), b) == entry_claims(t, d, entries, n, b),
    decreases n,
{
    if n > 0 {
        lemma_discard_entries(t, d, entries, (n - 1) as nat, b);
    }
}

proof fn lemma_discard_values(t: ShapeTable, shape: ShapeRef, values: Seq<PtrUninit>, n: nat, b: Resource)
    ensures
        net(discard_values_ops(t, shape, values, n), b) == value_claims(t, shape, values, n, b),
    decreases n,
{
    if n > 0 {
        lemma_discard_values(t, shape, values, (n - 1) as nat, b);
    }
}

/// Discarding what waits in the tracker releases it.
pub proof fn lemma_waiting_net(f: FrameView, t: ShapeTable, b: Resource)
    ensures
        net(f.drop_waiting_ops(t), b) == f.waiting_claims(t, b),
{
    let borrowed = FrameView { ownership: FrameOwnership::BorrowedInPlace, ..f };
    reveal(FrameView::deinit_ops);
    lemma_deinit_net(borrowed, t, b);
    assert(borrowed.drop_waiting_ops(t) == f.drop_waiting_ops(t));
    assert(borrowed.waiting_claims(t, b) == f.waiting_claims(t, b));
}

/// Dropping what is initialized releases what waits in the tracker, and nothing else.
pub proof fn lemma_deinit_net(f: FrameView, t: ShapeTable, b: Resource)
    ensures
        net(f.deinit_ops(t), b) == f.waiting_claims(t, b),
        net(f.cancel_ops(t), b) == f.waiting_claims(t, b),
        net(f.drop_staging_ops(t), b) + f.without_staging().waiting_claims(t, b) == f.waiting_claims(t, b),
{
    reveal(FrameView::deinit_ops);
    lemma_claims_not_negative(f, t, b);
    match f.tracker {
        TrackerView::Array { iset, .. } => match t.at(f.shape()).ty {
            crate::shape::Type::Sequence(crate::shape::SequenceType::Array(a)) => {
                if t.sized(a.t) is Some {
                    lemma_drop_elements(
                        t,
                        a.t,
                        t.sized(a.t)->0.size,
                        f.data.addr,
                        iset,
                        a.n as nat,
                        b,
                    );
                }
            },
            _ => {},
        },
        TrackerView::Struct { iset, .. } => {
            let fields = t.struct_fields(f.shape());
            lemma_drop_fields(t, fields, f.data.addr, iset, fields.len(), b);
        },
        TrackerView::Enum { variant_idx, data, .. } => {
            let fields = t.variant_fields(f.shape(), variant_idx);
            lemma_drop_fields(t, fields, f.data.addr, data, fields.len(), b);
        },
        TrackerView::List { rope: Some(r), .. } => match t.at(f.shape()).def {
            Def::List(d) => {
                lemma_drop_slots(t, d.t, r.slots, r.initialized as nat, b);
                assert(net(seq![MemOp::FreeRope { rope: r.id }], b) == same_rope(r.id, b));
            },
            _ => {
                assert(net(seq![MemOp::FreeRope { rope: r.id }], b) == same_rope(r.id, b));
            },
        },
        TrackerView::MapOf { pending_entries, .. } => match t.at(f.shape()).def {
            Def::MapOf(d) => {
                lemma_discard_entries(t, d, pending_entries, pending_entries.len(), b);
            },
            _ => {},
        },
        TrackerView::DynamicValue { state } => match state {
            DynamicValueView::Object { pending_entries, .. } => {
                lemma_discard_values(
                    t,
                    f.shape(),
                    entry_values(pending_entries),
                    pending_entries.len(),
                    b,
                );
            },
            DynamicValueView::Array { pending_elements, .. } => {
                lemma_discard_values(t, f.shape(), pending_elements, pending_elements.len(), b);
            },
            _ => {},
        },
        _ => {},
    }
}

} // verus!
