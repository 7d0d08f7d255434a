//! What exactly is dropped when a value is deinitialized, replaced or given up, and in which order.
use vstd::prelude::*;

use crate::cancel::{cancel_stack, cancel_stored, PoolHost};
use crate::deferred::{cleanup, disposed, parent_clears};
use crate::frame::{
    discard_entries_ops, discard_values_ops, drop_elements_ops, drop_fields_ops, entry_values,
    FrameOwnership, FrameView,
};
use crate::memory::{Addr, HostView, MemOp, PtrUninit};
use crate::moves::lemma_slots_dropped;
use crate::path::{PathStep, PathView};
use crate::pool::{Place, Pool};
use crate::shape::{
    ArrayType, Def, Field, Layout, MapDef, SequenceType, ShapeLayout, ShapeRef, ShapeTable, Type,
    UserType,
};
use crate::stored::{ascending, deepest, lemma_deepest, lemma_find, StoredView};
use crate::tracker::{DynamicValueView, TrackerView};

verus! {

proof fn lemma_fields_dropped(
    t: ShapeTable,
    fields: Seq<Field>,
    at: Addr,
    iset: Set<int>,
    n: nat,
)
    requires
        n <= fields.len(),
    ensures
        drop_fields_ops(t, fields, at, iset, n) == Seq::new(
            n,
            |i: int|
                if iset.contains(i) {
                    t.drop_ops(fields[i].shape, at.field(fields[i].offset))
                } else {
                    Seq::empty()
                },
        ).flatten(),
    decreases n,
{
    let step = |i: int|
        if iset.contains(i) {
            t.drop_ops(fields[i].shape, at.field(fields[i].offset))
        } else {
            Seq::empty()
        };
    if n == 0 {
        assert(Seq::new(n, step) =~= Seq::empty());
    } else {
        let m = (n - 1) as nat;
        lemma_fields_dropped(t, fields, at, iset, m);
        Seq::new(m, step).lemma_flatten_push(step(m as int));
        assert(Seq::new(n, step) =~= Seq::new(m, step).push(step(m as int)));
        assert(drop_fields_ops(t, fields, at, iset, n) =~= drop_fields_ops(t, fields, at, iset, m)
            + step(m as int));
    }
}

proof fn lemma_elements_dropped(
    t: ShapeTable,
    elem: ShapeRef,
    size: usize,
    at: Addr,
    iset: Set<int>,
    n: nat,
)
    ensures
        drop_elements_ops(t, elem, size, at, iset, n) == Seq::new(
            n,
            |i: int|
                if iset.contains(i) {
                    t.drop_ops(elem, at.field((size * i) as usize))
                } else {
                    Seq::empty()
                },
        ).flatten(),
    decreases n,
{
    let step = |i: int|
        if iset.contains(i) {
            t.drop_ops(elem, at.field((size * i) as usize))
        } else {
            Seq::empty()
        };
    if n == 0 {
        assert(Seq::new(n, step) =~= Seq::empty());
    } else {
        let m = (n - 1) as nat;
        lemma_elements_dropped(t, elem, size, at, iset, m);
        Seq::new(m, step).lemma_flatten_push(step(m as int));
        assert(Seq::new(n, step) =~= Seq::new(m, step).push(step(m as int)));
        assert(drop_elements_ops(t, elem, size, at, iset, n) =~= drop_elements_ops(
            t,
            elem,
            size,
            at,
            iset,
            m,
        ) + step(m as int));
    }
}

proof fn lemma_entries_discarded(
    t: ShapeTable,
    d: MapDef,
    entries: Seq<(PtrUninit, Option<PtrUninit>)>,
    n: nat,
)
    requires
        n <= entries.len(),
    ensures
        discard_entries_ops(t, d, entries, n) == Seq::new(
            n,
            |i: int|
                t.drop_ops(d.k, entries[i].0.addr) + t.dealloc_ops(d.k, entries[i].0.addr) + (
                match entries[i].1 {
                    Some(v) => t.drop_ops(d.v, v.addr) + t.dealloc_ops(d.v, v.addr),
                    None => Seq::empty(),
                }),
        ).flatten(),
    decreases n,
{
    let step = |i: int|
        t.drop_ops(d.k, entries[i].0.addr) + t.dealloc_ops(d.k, entries[i].0.addr) + (
        match entries[i].1 {
            Some(v) => t.drop_ops(d.v, v.addr) + t.dealloc_ops(d.v, v.addr),
            None => Seq::empty(),
        });
    if n == 0 {
        assert(Seq::new(n, step) =~= Seq::empty());
    } else {
        let m = (n - 1) as nat;
        lemma_entries_discarded(t, d, entries, m);
        Seq::new(m, step).lemma_flatten_push(step(m as int));
        assert(Seq::new(n, step) =~= Seq::new(m, step).push(step(m as int)));
        assert(discard_entries_ops(t, d, entries, n) =~= discard_entries_ops(t, d, entries, m)
            + step(m as int));
    }
}

proof fn lemma_values_discarded(t: ShapeTable, shape: ShapeRef, values: Seq<PtrUninit>, n: nat)
    requires
        n <= values.len(),
    ensures
        discard_values_ops(t, shape, values, n) == Seq::new(
            n,
            |i: int| t.drop_ops(shape, values[i].addr) + t.dealloc_ops(shape, values[i].addr),
        ).flatten(),
    decreases n,
{
    let step = |i: int| t.drop_ops(shape, values[i].addr) + t.dealloc_ops(shape, values[i].addr);
    if n == 0 {
        assert(Seq::new(n, step) =~= Seq::empty());
    } else {
        let m = (n - 1) as nat;
        lemma_values_discarded(t, shape, values, m);
        Seq::new(m, step).lemma_flatten_push(step(m as int));
        assert(Seq::new(n, step) =~= Seq::new(m, step).push(step(m as int)));
        assert(discard_values_ops(t, shape, values, n) =~= discard_values_ops(t, shape, values, m)
            + step(m as int));
    }
}

/// Of a struct that misses a field, or of the chosen variant of an enum, exactly the fields that
/// are there are dropped: each by its own type, at its own place, and in order. A struct that
/// misses none is dropped as a whole.
pub proof fn law_fields_that_are_there_are_dropped(
    f: FrameView,
    t: ShapeTable,
    fields: Seq<Field>,
    iset: Set<int>,
)
    requires
        !(f.ownership is BorrowedInPlace),
        match (f.tracker, t.at(f.allocated.shape).ty) {
            (TrackerView::Struct { iset: s, .. }, Type::User(UserType::Struct(st))) => s == iset
                && fields == st.fields@,
            (TrackerView::Enum { variant_idx, data, .. }, Type::User(UserType::Enum(e))) => data
                == iset && fields == e.variants@[variant_idx as int].fields@,
            _ => false,
        },
    ensures
        f.tracker is Struct && (forall|i: int| 0 <= i < fields.len() ==> #[trigger] iset.contains(i))
            ==> f.deinit_ops(t) == t.drop_ops(f.allocated.shape, f.data.addr),
        f.tracker is Enum || (exists|i: int| 0 <= i < fields.len() && !#[trigger] iset.contains(i))
            ==> f.deinit_ops(t) == Seq::new(
            fields.len(),
            |i: int|
                if iset.contains(i) {
                    t.drop_ops(fields[i].shape, f.data.addr.field(fields[i].offset))
                } else {
                    Seq::empty()
                },
        ).flatten(),
{
    reveal(FrameView::deinit_ops);
    lemma_fields_dropped(t, fields, f.data.addr, iset, fields.len());
}

/// Of an array exactly the elements that are there are dropped: each by the element type, as many
/// element sizes behind the start as its index says, and in order.
pub proof fn law_elements_that_are_there_are_dropped(
    f: FrameView,
    t: ShapeTable,
    a: ArrayType,
    layout: Layout,
)
    requires
        !(f.ownership is BorrowedInPlace),
        f.tracker is Array,
        t.at(f.allocated.shape).ty == Type::Sequence(SequenceType::Array(a)),
        t.at(a.t).layout == ShapeLayout::Sized(layout),
    ensures
        f.deinit_ops(t) == Seq::new(
            a.n as nat,
            |i: int|
                if f.tracker->Array_iset.contains(i) {
                    t.drop_ops(a.t, f.data.addr.field((layout.size * i) as usize))
                } else {
                    Seq::empty()
                },
        ).flatten(),
{
    reveal(FrameView::deinit_ops);
    lemma_elements_dropped(
        t,
        a.t,
        layout.size,
        f.data.addr,
        f.tracker->Array_iset,
        a.n as nat,
    );
}

/// What waits to be moved into a value is dropped and its memory released, in the order in which it
/// waits, whoever owns the memory of the value: a pointee, the value of an option, the entries of a
/// map (a key without a value alone), the parts of a dynamic value, the finished elements of a rope
/// and then the rope, a slice builder. Where nothing waits nothing is done.
pub proof fn law_what_waits_is_discarded(f: FrameView, t: ShapeTable)
    ensures
        ({
            let ops = f.drop_waiting_ops(t);
            match f.tracker {
                TrackerView::SmartPointer { pending_inner, .. } => match pending_inner {
                    Some(p) => ops == p.discard_ops(t),
                    None => ops.len() == 0,
                },
                TrackerView::SmartPointerSlice { vtable, .. } => ops == seq![
                    MemOp::SliceFree { f: vtable.free_fn, builder: f.data.addr },
                ],
                TrackerView::Option { pending_inner, .. } => match (
                    pending_inner,
                    t.at(f.allocated.shape).def,
                ) {
                    (Some(p), Def::Option(d)) => ops == t.drop_ops(d.t, p.addr) + t.dealloc_ops(
                        d.t,
                        p.addr,
                    ),
                    _ => ops.len() == 0,
                },
                TrackerView::List { rope, .. } => match (rope, t.at(f.allocated.shape).def) {
                    (Some(r), Def::List(d)) => r.initialized <= r.slots.len() ==> ops == Seq::new(
                        r.initialized as nat,
                        |i: int| t.drop_ops(d.t, r.slots[i].addr),
                    ).flatten() + seq![MemOp::FreeRope { rope: r.id }],
                    (Some(r), _) => ops.last() == (MemOp::FreeRope { rope: r.id }),
                    _ => ops.len() == 0,
                },
                TrackerView::MapOf { pending_entries: entries, .. } => match t.at(
                    f.allocated.shape,
                ).def {
                    Def::MapOf(d) => ops == Seq::new(
                        entries.len(),
                        |i: int|
                            t.drop_ops(d.k, entries[i].0.addr) + t.dealloc_ops(
                                d.k,
                                entries[i].0.addr,
                            ) + (match entries[i].1 {
                                Some(v) => t.drop_ops(d.v, v.addr) + t.dealloc_ops(d.v, v.addr),
                                None => Seq::empty(),
                            }),
                    ).flatten(),
                    _ => true,
                },
                TrackerView::DynamicValue { state } => match state {
                    DynamicValueView::Array { pending_elements: values, .. } => ops == Seq::new(
                        values.len(),
                        |i: int|
                            t.drop_ops(f.allocated.shape, values[i].addr) + t.dealloc_ops(
                                f.allocated.shape,
                                values[i].addr,
                            ),
                    ).flatten(),
                    DynamicValueView::Object { pending_entries: entries, .. } => t.at(
                        f.allocated.shape,
                    ).def is DynamicValue ==> ops == Seq::new(
                        entries.len(),
                        |i: int|
                            t.drop_ops(f.allocated.shape, entries[i].1.addr) + t.dealloc_ops(
                                f.allocated.shape,
                                entries[i].1.addr,
                            ),
                    ).flatten(),
                    _ => ops.len() == 0,
                },
                _ => ops.len() == 0,
            }
        }),
{
    let ops = f.drop_waiting_ops(t);
    match f.tracker {
        TrackerView::List { rope: Some(r), .. } => {
            if let Def::List(d) = t.at(f.allocated.shape).def {
                if r.initialized <= r.slots.len() {
                    lemma_slots_dropped(t, d.t, r.slots, r.initialized as nat);
                }
            }
        },
        TrackerView::MapOf { pending_entries, .. } => {
            if let Def::MapOf(d) = t.at(f.allocated.shape).def {
                lemma_entries_discarded(t, d, pending_entries, pending_entries.len());
            }
        },
        TrackerView::DynamicValue { state } => match state {
            DynamicValueView::Array { pending_elements, .. } => {
                lemma_values_discarded(
                    t,
                    f.allocated.shape,
                    pending_elements,
                    pending_elements.len(),
                );
            },
            DynamicValueView::Object { pending_entries: entries, .. } => {
                let values = entry_values(entries);
                lemma_values_discarded(t, f.allocated.shape, values, entries.len());
                assert(Seq::new(
                    entries.len(),
                    |i: int|
                        t.drop_ops(f.allocated.shape, values[i].addr) + t.dealloc_ops(
                            f.allocated.shape,
                            values[i].addr,
                        ),
                ) =~= Seq::new(
                    entries.len(),
                    |i: int|
                        t.drop_ops(f.allocated.shape, entries[i].1.addr) + t.dealloc_ops(
                            f.allocated.shape,
                            entries[i].1.addr,
                        ),
                ));
            },
            _ => {},
        },
        _ => {},
    }
}

/// What deinitializing a value drops besides what waits in it: the value as a whole, where it was
/// written as a whole, and never while something waits for a pointer or an option, whose own memory
/// holds nothing then. A frame on an entry of an existing collection drops nothing of the entry.
pub proof fn law_whole_values_are_dropped_whole(f: FrameView, t: ShapeTable)
    ensures
        ({
            let ops = f.deinit_ops(t);
            let whole = t.drop_ops(f.allocated.shape, f.data.addr);
            let written = if f.is_init {
                whole
            } else {
                Seq::empty()
            };
            let waiting = f.drop_waiting_ops(t);
            if f.ownership is BorrowedInPlace {
                ops == waiting
            } else {
                match f.tracker {
                    TrackerView::Scalar => ops == written,
                    TrackerView::Inner { .. } => ops == written,
                    TrackerView::SetOf { .. } => ops == written,
                    TrackerView::SmartPointer { pending_inner, .. } => ops == if pending_inner is Some {
                        waiting
                    } else {
                        written
                    },
                    TrackerView::SmartPointerSlice { .. } => ops == waiting,
                    TrackerView::List { .. } => ops == waiting + written,
                    TrackerView::DynamicValue { .. } => ops == waiting + written,
                    TrackerView::MapOf { .. } => ops == written + waiting,
                    TrackerView::Option { building_inner, pending_inner } => ops
                        == if pending_inner is Some {
                        waiting
                    } else if building_inner {
                        Seq::empty()
                    } else {
                        whole
                    },
                    TrackerView::Result { building_inner, .. } => ops == if building_inner {
                        Seq::empty()
                    } else {
                        whole
                    },
                    _ => true,
                }
            }
        }),
{
    reveal(FrameView::deinit_ops);
}

/// A frame that is given up drops what it holds and then releases its memory, if it owns it. It
/// drops what deinitializing it drops, except that an enum all of whose fields are there is dropped
/// as a whole, and an entry of an existing collection is not dropped at all.
pub proof fn law_what_giving_up_drops(f: FrameView, t: ShapeTable, h: HostView)
    ensures
        f.given_up(t, h).trace == h.trace + f.cancel_ops(t) + f.dealloc_ops(t),
        f.given_up(t, h).oracle == h.oracle,
        disposed(t, f, h).trace == h.trace + f.deinit_ops(t) + f.dealloc_ops(t),
        disposed(t, f, h).oracle == h.oracle,
        match (f.tracker, t.at(f.allocated.shape).ty) {
            (TrackerView::Enum { variant_idx, data, .. }, Type::User(UserType::Enum(e))) => f.cancel_ops(
                t,
            ) == if forall|i: int|
                0 <= i < e.variants@[variant_idx as int].fields@.len() ==> #[trigger] data.contains(i) {
                if f.ownership is BorrowedInPlace {
                    Seq::empty()
                } else {
                    t.drop_ops(f.allocated.shape, f.data.addr)
                }
            } else {
                f.deinit_ops(t)
            },
            (TrackerView::Enum { .. }, _) => true,
            _ => f.cancel_ops(t) == f.deinit_ops(t),
        },
{
}

/// Deinitializing leaves nothing initialized and nothing tracked, and nothing else changes.
pub proof fn law_deinitializing_keeps_the_place(f: FrameView)
    ensures
        f.deinited() == (FrameView { is_init: false, tracker: TrackerView::Scalar, ..f }),
{
}

/// The frames of a stack are given up from the top. Each is given up before the one below it, which
/// no longer counts the field that the frame above was on.
pub proof fn law_stack_is_given_up_from_the_top(
    t: ShapeTable,
    below: Seq<FrameView>,
    f: FrameView,
    h: HostView,
)
    ensures
        cancel_stack(t, Seq::empty(), h) == h,
        cancel_stack(t, below.push(f), h) == cancel_stack(
            t,
            match f.ownership {
                FrameOwnership::Field { field_idx } => if below.len() > 0 {
                    below.update(
                        below.len() - 1,
                        FrameView {
                            tracker: below.last().tracker.without_field(field_idx),
                            ..below.last()
                        },
                    )
                } else {
                    below
                },
                _ => below,
            },
            HostView {
                trace: h.trace + f.cancel_ops(t) + f.dealloc_ops(t),
                oracle: h.oracle,
            },
        ),
{
    assert(below.push(f).drop_last() =~= below);
    assert(below.push(f).last() == f);
}

/// Stored frames are given up, or disposed of after a failure, the deepest first, and of equally
/// deep ones the first. Each is given up once, after its parent gave up its claim to it, and no
/// other frame is touched.
pub proof fn law_stored_frames_are_given_up_deepest_first(
    t: ShapeTable,
    w: PoolHost,
    n: nat,
    i: int,
)
    requires
        0 <= i < cancel_stored(t, w, n).pool.stored.len(),
        ({
            let s = cancel_stored(t, w, n).pool.stored;
            &&& forall|j: int|
                0 <= j < s.len() ==> (#[trigger] s[j]).path.steps.len() <= s[i].path.steps.len()
            &&& forall|j: int|
                0 <= j < i ==> (#[trigger] s[j]).path.steps.len() < s[i].path.steps.len()
        }),
    ensures
        ({
            let q = cancel_stored(t, w, n);
            let next = cancel_stored(t, w, n + 1);
            let e = q.pool.stored[i];
            &&& next.host.trace == q.host.trace + e.frame.cancel_ops(t) + e.frame.dealloc_ops(t)
            &&& next.pool == parent_clears(
                Pool { stored: q.pool.stored.remove(i), stack: q.pool.stack },
                e.path,
            )
        }),
{
    let q = cancel_stored(t, w, n);
    let s = q.pool.stored;
    lemma_deepest(s, s.len());
    let d = deepest(s, s.len()) as int;
    assert(s[d].path.steps.len() <= s[i].path.steps.len());
    assert(s[i].path.steps.len() <= s[d].path.steps.len());
    assert(d == i);
    assert((n + 1 - 1) as nat == n);
}

/// The same after a failure.
pub proof fn law_stored_frames_are_disposed_of_deepest_first(
    t: ShapeTable,
    w: PoolHost,
    n: nat,
    i: int,
)
    requires
        0 <= i < cleanup(t, w, n).pool.stored.len(),
        ({
            let s = cleanup(t, w, n).pool.stored;
            &&& forall|j: int|
                0 <= j < s.len() ==> (#[trigger] s[j]).path.steps.len() <= s[i].path.steps.len()
            &&& forall|j: int|
                0 <= j < i ==> (#[trigger] s[j]).path.steps.len() < s[i].path.steps.len()
        }),
    ensures
        ({
            let q = cleanup(t, w, n);
            let next = cleanup(t, w, n + 1);
            let e = q.pool.stored[i];
            &&& cleanup(t, w, 0) == w
            &&& cancel_stored(t, w, 0) == w
            &&& next.host.trace == q.host.trace + e.frame.deinit_ops(t) + e.frame.dealloc_ops(t)
            &&& next.pool == parent_clears(
                Pool { stored: q.pool.stored.remove(i), stack: q.pool.stack },
                e.path,
            )
        }),
{
    let q = cleanup(t, w, n);
    let s = q.pool.stored;
    lemma_deepest(s, s.len());
    let d = deepest(s, s.len()) as int;
    assert(s[d].path.steps.len() <= s[i].path.steps.len());
    assert(s[i].path.steps.len() <= s[d].path.steps.len());
    assert(d == i);
    assert((n + 1 - 1) as nat == n);
}

/// A parent gives up its claim to the field or element at a path, and to no other; the parent is
/// the frame set aside under the path without its last step, or else the frame of the stack as deep
/// as that path is long. Other steps are no claims.
pub proof fn law_parent_gives_up_one_claim(pool: Pool, path: PathView)
    requires
        ascending(pool.stored),
        pool.is_countable(),
        path.steps.len() > 0,
    ensures
        ({
            let q = parent_clears(pool, path);
            let up = PathView { shape: path.shape, steps: path.steps.drop_last() };
            let cleared = |f: FrameView|
                match path.steps.last() {
                    PathStep::Field(idx) => FrameView {
                        tracker: f.tracker.without_field(idx as usize),
                        ..f
                    },
                    PathStep::Index(idx) => FrameView {
                        tracker: f.tracker.without_field(idx as usize),
                        ..f
                    },
                    _ => f,
                };
            &&& q.stored.len() == pool.stored.len()
            &&& forall|i: int|
                #![trigger pool.stored[i]]
                0 <= i < pool.stored.len() ==> q.stored[i] == (StoredView {
                    path: pool.stored[i].path,
                    frame: if pool.stored[i].path == up {
                        cleared(pool.stored[i].frame)
                    } else {
                        pool.stored[i].frame
                    },
                }) && (pool.stored[i].path == up ==> q.stack == pool.stack)
            &&& (forall|i: int|
                #![trigger pool.stored[i]]
                0 <= i < pool.stored.len() ==> pool.stored[i].path != up) ==> q.stack
                == if up.steps.len() < pool.stack.len() {
                pool.stack.update(
                    up.steps.len() as int,
                    cleared(pool.stack[up.steps.len() as int]),
                )
            } else {
                pool.stack
            }
        }),
{
    let q = parent_clears(pool, path);
    let up = path.parent();
    lemma_find(pool.stored, up);
    assert(up == PathView { shape: path.shape, steps: path.steps.drop_last() });
    let at = pool.place(up);
    assert forall|i: int| #![trigger pool.stored[i]] 0 <= i < pool.stored.len() implies (
    pool.stored[i].path == up <==> at == Place::Stored(i as usize)) by {}
    if at is Stack {
        let k = at->Stack_0 as int;
        assert(pool.stack.update(k, pool.stack[k]) =~= pool.stack);
    }
}

/// Making way for another value drops what is there. An entry of an existing collection that is
/// initialized is dropped too, although it is not the frame's own, and a dynamic value is written
/// as null in its place, so that the collection stays whole.
pub proof fn law_replacing_drops_what_is_there(f: FrameView, t: ShapeTable)
    ensures
        ({
            let entry = f.ownership is BorrowedInPlace && f.is_init;
            let whole = t.drop_ops(f.allocated.shape, f.data.addr);
            &&& !entry ==> f.replace_ops(t) == f.deinit_ops(t) && f.replaceable(t) == (FrameView {
                is_init: false,
                tracker: TrackerView::Scalar,
                ..f
            })
            &&& entry ==> match t.at(f.allocated.shape).def {
                Def::DynamicValue(d) => {
                    &&& f.replace_ops(t) == whole + seq![
                        MemOp::SetNull { f: d.set_null, at: f.data.addr },
                    ]
                    &&& f.replaceable(t) == (FrameView {
                        tracker: TrackerView::DynamicValue { state: DynamicValueView::Scalar },
                        ..f
                    })
                },
                _ => {
                    &&& f.replace_ops(t) == whole
                    &&& f.replaceable(t) == (FrameView {
                        is_init: false,
                        tracker: TrackerView::Scalar,
                        ..f
                    })
                },
            }
        }),
{
    assert(t.drop_ops(f.allocated.shape, f.data.addr) + Seq::<MemOp>::empty() =~= t.drop_ops(
        f.allocated.shape,
        f.data.addr,
    ));
}

/// Making room for another value drops what there is in a frame that owns its value or is on a
/// field, and empties a slice builder wherever it is. Elsewhere only a pointee that waits is
/// dropped. A frame in which there is nothing is left alone.
pub proof fn law_making_room_drops_what_is_there(f: FrameView, t: ShapeTable)
    ensures
        ({
            let own = f.ownership is Owned || f.ownership is Field || f.tracker is SmartPointerSlice;
            let cleared = f.cleared();
            &&& !f.is_init && f.tracker is Scalar ==> f.clear_ops(t).len() == 0 && cleared == f
            &&& own ==> f.clear_ops(t) == if f.holds_value(t) {
                f.deinit_ops(t)
            } else {
                Seq::empty()
            }
            &&& own ==> !cleared.is_init && cleared.tracker is Scalar && f.same_frame(cleared)
            &&& !own ==> (f.tracker matches TrackerView::SmartPointer { building_inner, pending_inner }
                ==> {
                &&& pending_inner matches Some(p) ==> f.clear_ops(t) == p.discard_ops(t)
                &&& pending_inner is None ==> f.clear_ops(t).len() == 0
                &&& cleared == (FrameView {
                    tracker: TrackerView::SmartPointer { building_inner, pending_inner: None },
                    ..f
                })
            })
            &&& !own && !(f.tracker is SmartPointer) ==> f.clear_ops(t).len() == 0 && cleared == f
        }),
{
}

/// A frame in which there is nothing, neither the value as a whole nor one of its parts nor
/// anything that waits, drops nothing.
pub proof fn law_empty_frames_drop_nothing(f: FrameView, t: ShapeTable)
    requires
        f.fits(t),
        !f.holds_value(t),
        f.tracker is Struct ==> t.struct_fields(f.allocated.shape).len() > 0,
    ensures
        f.deinit_ops(t).len() == 0,
        f.cancel_ops(t).len() == 0 || f.tracker is Enum,
{
    reveal(FrameView::deinit_ops);
    match f.tracker {
        TrackerView::Array { iset, .. } => {
            if let Type::Sequence(SequenceType::Array(a)) = t.at(f.shape()).ty {
                if let Some(l) = t.sized(a.t) {
                    lemma_no_elements_dropped(t, a.t, l.size, f.data.addr, iset, a.n as nat);
                }
            }
        },
        TrackerView::Struct { iset, .. } => {
            let fields = t.struct_fields(f.shape());
            lemma_no_fields_dropped(t, fields, f.data.addr, iset, fields.len());
            if t.is_struct(f.shape()) {
                assert(!iset.contains(0));
            }
        },
        TrackerView::Enum { variant_idx, data, .. } => {
            let fields = t.variant_fields(f.shape(), variant_idx);
            lemma_no_fields_dropped(t, fields, f.data.addr, data, fields.len());
        },
        _ => {},
    }
}

proof fn lemma_no_fields_dropped(t: ShapeTable, fields: Seq<Field>, at: Addr, iset: Set<int>, n: nat)
    requires
        forall|i: int| 0 <= i < n ==> !#[trigger] iset.contains(i),
    ensures
        drop_fields_ops(t, fields, at, iset, n).len() == 0,
    decreases n,
{
    if n > 0 {
        lemma_no_fields_dropped(t, fields, at, iset, (n - 1) as nat);
        assert(!iset.contains(n - 1));
    }
}

proof fn lemma_no_elements_dropped(
    t: ShapeTable,
    elem: ShapeRef,
    size: usize,
    at: Addr,
    iset: Set<int>,
    n: nat,
)
    requires
        forall|i: int| 0 <= i < n ==> !#[trigger] iset.contains(i),
    ensures
        drop_elements_ops(t, elem, size, at, iset, n).len() == 0,
    decreases n,
{
    if n > 0 {
        lemma_no_elements_dropped(t, elem, size, at, iset, (n - 1) as nat);
        assert(!iset.contains(n - 1));
    }
}

} // verus!
