//! That giving up drops each value once: every frame is given up once, and drops what it holds
//! without the parts that have frames of their own.
use vstd::prelude::*;

use crate::cancel::{cancel_stack, cancel_stored, without_top, PoolHost};
use crate::frame::{drop_fields_ops, FrameOwnership, FrameView};
use crate::memory::{Addr, HostView, MemOp};
use crate::order::{child_path, is_stored, lemma_without};
use crate::partial::PartialView;
use crate::path::{PathStep, PathView};
use crate::pool::{Place, Pool};
use crate::shape::{Field, ShapeRef, ShapeTable};
use crate::stored::{ascending, deepest, lemma_deepest, lemma_find};
use crate::tracker::TrackerView;

verus! {

/// How often operations run the destructor of the value of this shape at this address.
pub open spec fn drops(ops: Seq<MemOp>, shape: ShapeRef, at: Addr) -> nat
    decreases ops.len(),
{
    if ops.len() == 0 {
        0
    } else {
        drops(ops.drop_last(), shape, at) + (if ops.last() == (MemOp::DropInPlace { shape, at }) {
            1nat
        } else {
            0nat
        })
    }
}

proof fn lemma_drops_add(a: Seq<MemOp>, c: Seq<MemOp>, shape: ShapeRef, at: Addr)
    ensures
        drops(a + c, shape, at) == drops(a, shape, at) + drops(c, shape, at),
    decreases c.len(),
{
    if c.len() == 0 {
        assert(a + c =~= a);
    } else {
        lemma_drops_add(a, c.drop_last(), shape, at);
        assert((a + c).drop_last() =~= a + c.drop_last());
        assert((a + c).last() == c.last());
    }
}

/// Giving a frame up drops what it holds. Releasing its memory drops nothing.
proof fn lemma_given_up_drops(f: FrameView, t: ShapeTable, h: HostView, shape: ShapeRef, at: Addr)
    ensures
        drops(f.given_up(t, h).trace, shape, at) == drops(h.trace, shape, at) + drops(
            f.cancel_ops(t),
            shape,
            at,
        ),
{
    let released = f.deinited().dealloc_ops(t);
    lemma_drops_add(h.trace, f.cancel_ops(t), shape, at);
    lemma_drops_add(h.trace + f.cancel_ops(t), released, shape, at);
    if released.len() > 0 {
        assert(released.drop_last() =~= Seq::<MemOp>::empty());
        assert(drops(released.drop_last(), shape, at) == 0);
    }
}

/// The next stored frame that is given up after `n` others, in the state in which it is given up.
pub open spec fn next_given_up(t: ShapeTable, w: PoolHost, n: nat) -> FrameView {
    let pool = cancel_stored(t, w, n).pool;
    pool.stored[deepest(pool.stored, pool.stored.len()) as int].frame
}

/// How often the first `n` stored frames that are given up drop a value.
pub open spec fn stored_drops(
    t: ShapeTable,
    w: PoolHost,
    n: nat,
    shape: ShapeRef,
    at: Addr,
) -> nat
    decreases n,
{
    if n == 0 {
        0
    } else {
        stored_drops(t, w, (n - 1) as nat, shape, at) + drops(
            next_given_up(t, w, (n - 1) as nat).cancel_ops(t),
            shape,
            at,
        )
    }
}

/// A frame of a stack in the state in which it is given up: without the field on which the frame
/// above it is.
pub open spec fn left_below(stack: Seq<FrameView>, k: int) -> FrameView {
    if k + 1 < stack.len() {
        match stack[k + 1].ownership {
            FrameOwnership::Field { field_idx } => stack[k].without_field(field_idx),
            _ => stack[k],
        }
    } else {
        stack[k]
    }
}

/// How often the first `n` frames of a stack drop a value when the stack is given up.
pub open spec fn stack_drops(
    t: ShapeTable,
    stack: Seq<FrameView>,
    n: nat,
    shape: ShapeRef,
    at: Addr,
) -> nat
    decreases n,
{
    if n == 0 {
        0
    } else {
        stack_drops(t, stack, (n - 1) as nat, shape, at) + drops(
            left_below(stack, n - 1).cancel_ops(t),
            shape,
            at,
        )
    }
}

proof fn lemma_stored_drops(t: ShapeTable, w: PoolHost, n: nat, shape: ShapeRef, at: Addr)
    ensures
        drops(cancel_stored(t, w, n).host.trace, shape, at) == drops(w.host.trace, shape, at)
            + stored_drops(t, w, n, shape, at),
    decreases n,
{
    if n > 0 {
        lemma_stored_drops(t, w, (n - 1) as nat, shape, at);
        let q = cancel_stored(t, w, (n - 1) as nat);
        lemma_given_up_drops(next_given_up(t, w, (n - 1) as nat), t, q.host, shape, at);
    }
}

/// The frames of a stack are given up one after the other, each without the field on which the one
/// above it is. `top` is what the frame above the rest has left of the last one.
proof fn lemma_stack_drops(
    t: ShapeTable,
    stack: Seq<FrameView>,
    n: nat,
    rest: Seq<FrameView>,
    h: HostView,
    shape: ShapeRef,
    at: Addr,
)
    requires
        n <= stack.len(),
        rest.len() == n,
        forall|k: int| 0 <= k < n - 1 ==> rest[k] == stack[k],
        n > 0 ==> rest.last() == left_below(stack, n - 1),
    ensures
        drops(cancel_stack(t, rest, h).trace, shape, at) == drops(h.trace, shape, at)
            + stack_drops(t, stack, n, shape, at),
    decreases n,
{
    if n > 0 {
        let top = rest.last();
        let below = without_top(rest);
        lemma_given_up_drops(top, t, h, shape, at);
        assert(top.ownership == stack[n - 1].ownership);
        if n > 1 {
            assert(below.last() == left_below(stack, n - 2));
        }
        lemma_stack_drops(
            t,
            stack,
            (n - 1) as nat,
            below,
            top.given_up(t, h),
            shape,
            at,
        );
    }
}

/// When a value is given up, every frame is given up once, and drops exactly what it holds by then:
/// a value is dropped as often as the frames hold it. A frame of the stack does not hold the field on
/// which the frame above it is.
pub proof fn law_giving_up_drops_what_each_frame_holds(
    p: PartialView,
    t: ShapeTable,
    h: HostView,
    shape: ShapeRef,
    at: Addr,
)
    ensures
        ({
            let w = PoolHost { pool: p.pool(), host: h };
            let n = w.pool.stored.len();
            let stack = cancel_stored(t, w, n).pool.stack;
            drops(p.cancelled(t, h).trace, shape, at) == drops(h.trace, shape, at) + stored_drops(
                t,
                w,
                n,
                shape,
                at,
            ) + stack_drops(t, stack, stack.len(), shape, at)
        }),
{
    let w = PoolHost { pool: p.pool(), host: h };
    let n = w.pool.stored.len();
    lemma_stored_drops(t, w, n, shape, at);
    let q = cancel_stored(t, w, n);
    lemma_stack_drops(t, q.pool.stack, q.pool.stack.len(), q.pool.stack, q.host, shape, at);
}

impl FrameView {
    /// The frame is responsible for this field or element.
    pub open spec fn holds_part(self, idx: usize) -> bool {
        match self.tracker {
            TrackerView::Struct { iset, .. } => iset.contains(idx as int),
            TrackerView::Array { iset, .. } => iset.contains(idx as int),
            TrackerView::Enum { data, .. } => data.contains(idx as int),
            _ => false,
        }
    }
}

/// A frame of the stack that has a frame on one of its fields does not hold that field when it is
/// given up. Otherwise it is as it was.
pub proof fn law_field_is_left_to_its_frame(stack: Seq<FrameView>, k: int)
    requires
        0 <= k < stack.len(),
    ensures
        left_below(stack, k).data == stack[k].data,
        left_below(stack, k).shape() == stack[k].shape(),
        k + 1 < stack.len() ==> (stack[k + 1].ownership matches FrameOwnership::Field { field_idx }
            ==> !left_below(stack, k).holds_part(field_idx)),
        forall|idx: usize| #[trigger]
            left_below(stack, k).holds_part(idx) ==> stack[k].holds_part(idx),
        forall|idx: usize|
            stack[k].holds_part(idx) && !(k + 1 < stack.len() && stack[k + 1].ownership
                == (FrameOwnership::Field { field_idx: idx })) ==> #[trigger] left_below(
                stack,
                k,
            ).holds_part(idx),
{
}

/// Changing the frame at a place leaves all places where they are.
pub proof fn lemma_places_stay(p: Pool, place: Place, f: FrameView, path: PathView)
    requires
        ascending(p.stored),
        p.is_countable(),
        p.has(place),
    ensures
        ascending(p.with(place, f).stored),
        p.with(place, f).is_countable(),
        p.with(place, f).place(path) == p.place(path),
        is_stored(p.with(place, f).stored, path) == is_stored(p.stored, path),
        p.place(path) == place ==> p.with(place, f).frame_at(path) == Some(f),
        p.place(path) != place ==> p.with(place, f).frame_at(path) == p.frame_at(path),
{
    let q = p.with(place, f);
    assert forall|a: int, b: int|
        #![trigger q.stored[a], q.stored[b]]
        0 <= a < b < q.stored.len() implies q.stored[a].path.before(q.stored[b].path) by {
        assert(p.stored[a].path.before(p.stored[b].path));
    }
    lemma_find(p.stored, path);
    lemma_find(q.stored, path);
    if is_stored(p.stored, path) {
        let k = choose|k: int| 0 <= k < p.stored.len() && (#[trigger] p.stored[k]).path == path;
        assert(q.stored[k].path == path);
    }
    if is_stored(q.stored, path) {
        let k = choose|k: int| 0 <= k < q.stored.len() && (#[trigger] q.stored[k]).path == path;
        assert(p.stored[k].path == path);
    }
}

/// The frame at a path does not hold this part, if there is a frame.
pub open spec fn lacks_part(pool: Pool, path: PathView, idx: usize) -> bool {
    pool.frame_at(path) matches Some(f) ==> !f.holds_part(idx)
}

/// A path that leads from another one to a field or element.
pub open spec fn leads_to_part(path: PathView, parent: PathView, idx: u32) -> bool {
    path == child_path(parent, PathStep::Field(idx)) || path == child_path(
        parent,
        PathStep::Index(idx),
    )
}

/// Once a stored frame was given up, its parent does not hold the part that the frame was on, and so
/// does not drop it again: when the parent's turn comes, the part is gone. This is so for stored
/// parents while they are stored, and for those on the stack.
pub proof fn law_stored_part_is_left_to_its_frame(
    t: ShapeTable,
    w: PoolHost,
    n: nat,
    path: PathView,
    parent: PathView,
    idx: u32,
)
    requires
        ascending(w.pool.stored),
        w.pool.is_countable(),
        n <= w.pool.stored.len(),
        leads_to_part(path, parent, idx),
        is_stored(w.pool.stored, path),
        !is_stored(cancel_stored(t, w, n).pool.stored, path),
        is_stored(cancel_stored(t, w, n).pool.stored, parent) || !is_stored(w.pool.stored, parent),
    ensures
        lacks_part(cancel_stored(t, w, n).pool, parent, idx as usize),
    decreases n,
{
    if n > 0 {
        let q = cancel_stored(t, w, (n - 1) as nat);
        lemma_cancel_keeps_order(t, w, (n - 1) as nat);
        lemma_deepest(q.pool.stored, q.pool.stored.len());
        let d = deepest(q.pool.stored, q.pool.stored.len()) as int;
        let e = q.pool.stored[d];
        let rest = q.pool.without(d);
        lemma_without(q.pool, d);
        let place = rest.place(e.path.parent());
        lemma_find(rest.stored, e.path.parent());
        lemma_cancel_forgets(t, w, (n - 1) as nat, parent);
        if e.path.steps.len() > 0 && !(place is Nowhere) {
            let f = rest.at(place);
            match e.path.steps.last() {
                PathStep::Field(i) => {
                    lemma_places_stay(rest, place, f.without_field(i as usize), parent);
                    lemma_places_stay(rest, place, f.without_field(i as usize), path);
                },
                PathStep::Index(i) => {
                    lemma_places_stay(rest, place, f.without_field(i as usize), parent);
                    lemma_places_stay(rest, place, f.without_field(i as usize), path);
                },
                _ => {},
            }
        }
        assert(parent != e.path) by {
            if parent == e.path {
                assert(is_stored(q.pool.stored, parent)) by {
                    assert(q.pool.stored[d].path == parent);
                }
                assert(!is_stored(rest.stored, parent));
            }
        }
        if e.path == path {
            assert(path.parent().steps =~= parent.steps);
            assert(path.steps.last() == PathStep::Field(idx) || path.steps.last()
                == PathStep::Index(idx));
        } else {
            law_stored_part_is_left_to_its_frame(t, w, (n - 1) as nat, path, parent, idx);
            assert(rest.frame_at(parent) == q.pool.frame_at(parent));
        }
    }
}

/// Giving up stored frames keeps the others in order.
pub proof fn lemma_cancel_keeps_order(t: ShapeTable, w: PoolHost, n: nat)
    requires
        ascending(w.pool.stored),
        w.pool.is_countable(),
        n <= w.pool.stored.len(),
    ensures
        ascending(cancel_stored(t, w, n).pool.stored),
        cancel_stored(t, w, n).pool.is_countable(),
        cancel_stored(t, w, n).pool.stored.len() == w.pool.stored.len() - n,
    decreases n,
{
    if n > 0 {
        lemma_cancel_keeps_order(t, w, (n - 1) as nat);
        let q = cancel_stored(t, w, (n - 1) as nat);
        lemma_deepest(q.pool.stored, q.pool.stored.len());
        let d = deepest(q.pool.stored, q.pool.stored.len()) as int;
        let e = q.pool.stored[d];
        let rest = q.pool.without(d);
        lemma_without(q.pool, d);
        let place = rest.place(e.path.parent());
        lemma_find(rest.stored, e.path.parent());
        if e.path.steps.len() > 0 && !(place is Nowhere) {
            let f = rest.at(place);
            match e.path.steps.last() {
                PathStep::Field(i) => {
                    lemma_places_stay(rest, place, f.without_field(i as usize), e.path);
                },
                PathStep::Index(i) => {
                    lemma_places_stay(rest, place, f.without_field(i as usize), e.path);
                },
                _ => {},
            }
        }
    }
}

/// What was never stored is not stored later.
proof fn lemma_cancel_forgets(t: ShapeTable, w: PoolHost, n: nat, path: PathView)
    requires
        ascending(w.pool.stored),
        w.pool.is_countable(),
        n <= w.pool.stored.len(),
    ensures
        is_stored(cancel_stored(t, w, n).pool.stored, path) ==> is_stored(w.pool.stored, path),
    decreases n,
{
    if n > 0 {
        lemma_cancel_forgets(t, w, (n - 1) as nat, path);
        lemma_cancel_keeps_order(t, w, (n - 1) as nat);
        let q = cancel_stored(t, w, (n - 1) as nat);
        lemma_deepest(q.pool.stored, q.pool.stored.len());
        let d = deepest(q.pool.stored, q.pool.stored.len()) as int;
        let e = q.pool.stored[d];
        let rest = q.pool.without(d);
        lemma_without(q.pool, d);
        let place = rest.place(e.path.parent());
        lemma_find(rest.stored, e.path.parent());
        if e.path.steps.len() > 0 && !(place is Nowhere) {
            let f = rest.at(place);
            match e.path.steps.last() {
                PathStep::Field(i) => {
                    lemma_places_stay(rest, place, f.without_field(i as usize), path);
                },
                PathStep::Index(i) => {
                    lemma_places_stay(rest, place, f.without_field(i as usize), path);
                },
                _ => {},
            }
        }
    }
}

proof fn lemma_drops_push(ops: Seq<MemOp>, op: MemOp, shape: ShapeRef, at: Addr)
    ensures
        drops(ops.push(op), shape, at) == drops(ops, shape, at) + (if op == (MemOp::DropInPlace {
            shape,
            at,
        }) {
            1nat
        } else {
            0nat
        }),
{
    assert(ops.push(op).drop_last() =~= ops);
}

/// Of the fields of a value each is dropped exactly once if it is initialized, and not at all if it
/// is not.
pub proof fn law_initialized_fields_are_dropped_once(
    t: ShapeTable,
    fields: Seq<Field>,
    at: Addr,
    iset: Set<int>,
    n: nat,
    i: int,
)
    requires
        n <= fields.len(),
        0 <= i < n,
        t.at(fields[i].shape).type_ops.drop_in_place,
        forall|j: int|
            0 <= j < n && j != i ==> (#[trigger] fields[j]).shape != fields[i].shape || at.field(
                fields[j].offset,
            ) != at.field(fields[i].offset),
    ensures
        drops(
            drop_fields_ops(t, fields, at, iset, n),
            fields[i].shape,
            at.field(fields[i].offset),
        ) == (if iset.contains(i) {
            1nat
        } else {
            0nat
        }),
    decreases n,
{
    let shape = fields[i].shape;
    let place = at.field(fields[i].offset);
    lemma_last_field_drops(t, fields, at, iset, n, shape, place);
    if i < n - 1 {
        law_initialized_fields_are_dropped_once(t, fields, at, iset, (n - 1) as nat, i);
    } else {
        lemma_no_other_drops(t, fields, at, iset, (n - 1) as nat, shape, place);
    }
}

/// What the last field adds to the drops of a value.
proof fn lemma_last_field_drops(
    t: ShapeTable,
    fields: Seq<Field>,
    at: Addr,
    iset: Set<int>,
    n: nat,
    shape: ShapeRef,
    place: Addr,
)
    requires
        0 < n <= fields.len(),
    ensures
        ({
            let last = fields[n - 1];
            let op = MemOp::DropInPlace { shape: last.shape, at: at.field(last.offset) };
            drops(drop_fields_ops(t, fields, at, iset, n), shape, place) == drops(
                drop_fields_ops(t, fields, at, iset, (n - 1) as nat),
                shape,
                place,
            ) + (if iset.contains(n - 1) && t.at(last.shape).type_ops.drop_in_place && op == (
            MemOp::DropInPlace { shape, at: place }) {
                1nat
            } else {
                0nat
            })
        }),
{
    let rest = drop_fields_ops(t, fields, at, iset, (n - 1) as nat);
    let last = fields[n - 1];
    let op = MemOp::DropInPlace { shape: last.shape, at: at.field(last.offset) };
    lemma_drops_push(rest, op, shape, place);
    if iset.contains(n - 1) {
        if t.at(last.shape).type_ops.drop_in_place {
            assert(drop_fields_ops(t, fields, at, iset, n) =~= rest.push(op));
        } else {
            assert(drop_fields_ops(t, fields, at, iset, n) =~= rest);
        }
    }
}

proof fn lemma_no_other_drops(
    t: ShapeTable,
    fields: Seq<Field>,
    at: Addr,
    iset: Set<int>,
    n: nat,
    shape: ShapeRef,
    place: Addr,
)
    requires
        n <= fields.len(),
        forall|j: int|
            0 <= j < n ==> (#[trigger] fields[j]).shape != shape || at.field(fields[j].offset)
                != place,
    ensures
        drops(drop_fields_ops(t, fields, at, iset, n), shape, place) == 0,
    decreases n,
{
    if n > 0 {
        lemma_no_other_drops(t, fields, at, iset, (n - 1) as nat, shape, place);
        lemma_last_field_drops(t, fields, at, iset, n, shape, place);
    }
}

} // verus!
