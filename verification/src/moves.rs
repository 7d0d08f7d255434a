//! What completing a value moves, from where to where, and in which order.
use vstd::prelude::*;

use crate::error::ReflectErrorKind;
use crate::finish::{
    borrow_and_promote_ops, can_borrow_and_promote, full_entries, insert_entries_ops,
    insert_object_ops, push_elements_ops, push_slots_ops,
};
use crate::frame::{drop_slots_ops, FrameView, PendingSmartPointerInner};
use crate::iset::lemma_first_missing;
use crate::memory::{Addr, FnRef, MemOp, PtrUninit};
use crate::pointer::{KnownPointer, PointerDef};
use crate::rope::RopeView;
use crate::shape::{
    Def, DynamicDef, ListDef, MapDef, OptionDef, SequenceType, ShapeRef, ShapeTable, Type, UserType,
};
use crate::tracker::{DynamicObjectInsertState, DynamicValueView, MapInsertState, TrackerView};

verus! {

/// One more run of operations comes behind the others.
proof fn lemma_one_run_more(runs: Seq<Seq<MemOp>>, run: Seq<MemOp>)
    ensures
        runs.push(run).flatten() == runs.flatten() + run,
{
    runs.lemma_flatten_push(run);
}

/// What is picked from a run, and one more.
proof fn lemma_picked(a: Seq<MemOp>, op: MemOp, rest: Seq<MemOp>, pred: spec_fn(MemOp) -> bool)
    requires
        forall|i: int| 0 <= i < rest.len() ==> !pred(#[trigger] rest[i]),
    ensures
        (a.push(op) + rest).filter(pred) == if pred(op) {
            a.filter(pred).push(op)
        } else {
            a.filter(pred)
        },
{
    Seq::filter_distributes_over_add(a.push(op), rest, pred);
    a.lemma_filter_push(op, pred);
    lemma_none_picked(rest, pred);
    assert(a.push(op).filter(pred) + Seq::<MemOp>::empty() =~= a.push(op).filter(pred));
}

proof fn lemma_none_picked(rest: Seq<MemOp>, pred: spec_fn(MemOp) -> bool)
    requires
        forall|i: int| 0 <= i < rest.len() ==> !pred(#[trigger] rest[i]),
    ensures
        rest.filter(pred) == Seq::<MemOp>::empty(),
    decreases rest.len(),
{
    reveal(Seq::filter);
    if rest.len() > 0 {
        assert forall|i: int| 0 <= i < rest.drop_last().len() implies !pred(
            #[trigger] rest.drop_last()[i],
        ) by {
            assert(!pred(rest[i]));
        }
        lemma_none_picked(rest.drop_last(), pred);
        assert(!pred(rest[rest.len() - 1]));
    }
}

proof fn lemma_elements_in_order(
    t: ShapeTable,
    d: DynamicDef,
    shape: ShapeRef,
    array: Addr,
    elements: Seq<PtrUninit>,
    n: nat,
    pred: spec_fn(MemOp) -> bool,
)
    requires
        n <= elements.len(),
        forall|op: MemOp| #[trigger] pred(op) <==> op is PushElement,
    ensures
        ({
            let ops = push_elements_ops(t, d, shape, array, elements, n);
            &&& ops.filter(pred).len() == n
            &&& forall|i: int|
                0 <= i < n ==> #[trigger] ops.filter(pred)[i] == (MemOp::PushElement {
                    f: d.push_array_element,
                    array,
                    item: elements[i].addr,
                })
            &&& ops == Seq::new(
                n,
                |i: int|
                    seq![
                        MemOp::PushElement {
                            f: d.push_array_element,
                            array,
                            item: elements[i].addr,
                        },
                    ] + t.dealloc_ops(shape, elements[i].addr),
            ).flatten()
        }),
    decreases n,
{
    let step = |i: int|
        seq![MemOp::PushElement { f: d.push_array_element, array, item: elements[i].addr }]
            + t.dealloc_ops(shape, elements[i].addr);
    let ops = push_elements_ops(t, d, shape, array, elements, n);
    reveal(Seq::filter);
    if n == 0 {
        assert(Seq::new(n, step) =~= Seq::empty());
        assert(ops =~= Seq::<MemOp>::empty());
    } else {
        let m = (n - 1) as nat;
        lemma_elements_in_order(t, d, shape, array, elements, m, pred);
        let less = push_elements_ops(t, d, shape, array, elements, m);
        let item = elements[m as int].addr;
        let op = MemOp::PushElement { f: d.push_array_element, array, item };
        lemma_picked(less, op, t.dealloc_ops(shape, item), pred);
        lemma_one_run_more(Seq::new(m, step), step(m as int));
        assert(Seq::new(n, step) =~= Seq::new(m, step).push(step(m as int)));
        assert(ops =~= less + step(m as int));
    }
}

/// The elements of a dynamic array go in when the array is completed, in the order in which they
/// were ended: each once, from its own buffer, which is released right afterwards. Then none waits.
pub proof fn law_array_elements_go_in_in_order(
    f: FrameView,
    t: ShapeTable,
    d: DynamicDef,
    elements: Seq<PtrUninit>,
)
    requires
        f.tracker == (TrackerView::DynamicValue {
            state: DynamicValueView::Array { building_element: false, pending_elements: elements },
        }),
        t.at(f.allocated.shape).def == Def::DynamicValue(d),
    ensures
        ({
            let c = f.completed(t);
            let pushes = c.ops.filter(|op: MemOp| op is PushElement);
            &&& c.result is Ok
            &&& pushes.len() == elements.len()
            &&& forall|i: int|
                0 <= i < elements.len() ==> #[trigger] pushes[i] == (MemOp::PushElement {
                    f: d.push_array_element,
                    array: f.data.addr,
                    item: elements[i].addr,
                })
            &&& c.ops == Seq::new(
                elements.len(),
                |i: int|
                    seq![
                        MemOp::PushElement {
                            f: d.push_array_element,
                            array: f.data.addr,
                            item: elements[i].addr,
                        },
                    ] + t.dealloc_ops(f.allocated.shape, elements[i].addr),
            ).flatten()
            &&& c.frame == (FrameView {
                tracker: TrackerView::DynamicValue {
                    state: DynamicValueView::Array {
                        building_element: false,
                        pending_elements: Seq::empty(),
                    },
                },
                ..f
            })
        }),
{
    reveal(FrameView::completed);
    let pred = |op: MemOp| op is PushElement;
    lemma_elements_in_order(
        t,
        d,
        f.allocated.shape,
        f.data.addr,
        elements,
        elements.len(),
        pred,
    );
}

proof fn lemma_object_in_order(
    t: ShapeTable,
    d: DynamicDef,
    shape: ShapeRef,
    object: Addr,
    entries: Seq<(String, PtrUninit)>,
    n: nat,
)
    requires
        n <= entries.len(),
    ensures
        insert_object_ops(t, d, shape, object, entries, n) == Seq::new(
            n,
            |i: int|
                seq![
                    MemOp::InsertEntry {
                        f: d.insert_object_entry,
                        object,
                        key: entries[i].0,
                        value: entries[i].1.addr,
                    },
                ] + t.dealloc_ops(shape, entries[i].1.addr),
        ).flatten(),
    decreases n,
{
    let step = |i: int|
        seq![
            MemOp::InsertEntry {
                f: d.insert_object_entry,
                object,
                key: entries[i].0,
                value: entries[i].1.addr,
            },
        ] + t.dealloc_ops(shape, entries[i].1.addr);
    let ops = insert_object_ops(t, d, shape, object, entries, n);
    if n == 0 {
        assert(Seq::new(n, step) =~= Seq::empty());
        assert(ops =~= Seq::<MemOp>::empty());
    } else {
        let m = (n - 1) as nat;
        lemma_object_in_order(t, d, shape, object, entries, m);
        lemma_one_run_more(Seq::new(m, step), step(m as int));
        assert(Seq::new(n, step) =~= Seq::new(m, step).push(step(m as int)));
        assert(ops =~= insert_object_ops(t, d, shape, object, entries, m) + step(m as int));
    }
}

/// The entries of a dynamic object go in when the object is completed, in the order in which they
/// were ended: each once, under its own key, from its own buffer, which is released right
/// afterwards. Then none waits.
pub proof fn law_object_entries_go_in_in_order(
    f: FrameView,
    t: ShapeTable,
    d: DynamicDef,
    entries: Seq<(String, PtrUninit)>,
)
    requires
        f.tracker == (TrackerView::DynamicValue {
            state: DynamicValueView::Object {
                insert_state: DynamicObjectInsertState::Idle,
                pending_entries: entries,
            },
        }),
        t.at(f.allocated.shape).def == Def::DynamicValue(d),
    ensures
        ({
            let c = f.completed(t);
            &&& c.result is Ok
            &&& c.ops == Seq::new(
                entries.len(),
                |i: int|
                    seq![
                        MemOp::InsertEntry {
                            f: d.insert_object_entry,
                            object: f.data.addr,
                            key: entries[i].0,
                            value: entries[i].1.addr,
                        },
                    ] + t.dealloc_ops(f.allocated.shape, entries[i].1.addr),
            ).flatten()
            &&& c.frame == (FrameView {
                tracker: TrackerView::DynamicValue {
                    state: DynamicValueView::Object {
                        insert_state: DynamicObjectInsertState::Idle,
                        pending_entries: Seq::empty(),
                    },
                },
                ..f
            })
        }),
{
    reveal(FrameView::completed);
    lemma_object_in_order(t, d, f.allocated.shape, f.data.addr, entries, entries.len());
}

proof fn lemma_entries_in_order(
    t: ShapeTable,
    d: MapDef,
    map: Addr,
    entries: Seq<(PtrUninit, Option<PtrUninit>)>,
    n: nat,
)
    requires
        n <= entries.len(),
    ensures
        insert_entries_ops(t, d, map, entries, n) == Seq::new(
            n,
            |i: int|
                seq![
                    MemOp::MapInsert {
                        f: d.insert,
                        map,
                        key: entries[i].0.addr,
                        value: entries[i].1->0.addr,
                    },
                ] + t.dealloc_ops(d.k, entries[i].0.addr) + t.dealloc_ops(
                    d.v,
                    entries[i].1->0.addr,
                ),
        ).flatten(),
    decreases n,
{
    let step = |i: int|
        seq![
            MemOp::MapInsert {
                f: d.insert,
                map,
                key: entries[i].0.addr,
                value: entries[i].1->0.addr,
            },
        ] + t.dealloc_ops(d.k, entries[i].0.addr) + t.dealloc_ops(d.v, entries[i].1->0.addr);
    let ops = insert_entries_ops(t, d, map, entries, n);
    if n == 0 {
        assert(Seq::new(n, step) =~= Seq::empty());
        assert(ops =~= Seq::<MemOp>::empty());
    } else {
        let m = (n - 1) as nat;
        lemma_entries_in_order(t, d, map, entries, m);
        lemma_one_run_more(Seq::new(m, step), step(m as int));
        assert(Seq::new(n, step) =~= Seq::new(m, step).push(step(m as int)));
        assert(ops =~= insert_entries_ops(t, d, map, entries, m) + step(m as int));
    }
}

/// As many entries are moved as come before the first key without a value.
proof fn lemma_full_entries(entries: Seq<(PtrUninit, Option<PtrUninit>)>, k: nat, n: nat)
    requires
        k <= n <= entries.len(),
        forall|i: int| 0 <= i < k ==> (#[trigger] entries[i]).1 is Some,
        k < n ==> entries[k as int].1 is None,
    ensures
        full_entries(entries, n) == k,
    decreases n,
{
    if n > 0 {
        if k < n {
            lemma_full_entries(entries, k, (n - 1) as nat);
        } else {
            lemma_full_entries(entries, (n - 1) as nat, (n - 1) as nat);
        }
    }
}

/// The entries of a map go in when the map is completed, in the order in which they were ended:
/// each key once, with its own value, from their own buffers, which are released right afterwards.
/// The first key without a value stops it, and waits on with all that follow; where there is none,
/// the map is complete.
pub proof fn law_map_entries_go_in_in_order(
    f: FrameView,
    t: ShapeTable,
    d: MapDef,
    entries: Seq<(PtrUninit, Option<PtrUninit>)>,
    k: nat,
)
    requires
        f.is_init,
        f.tracker matches TrackerView::MapOf { insert_state, pending_entries, .. } && insert_state
            == MapInsertState::Idle && pending_entries == entries,
        t.at(f.allocated.shape).def == Def::MapOf(d),
        k <= entries.len(),
        forall|i: int| 0 <= i < k ==> (#[trigger] entries[i]).1 is Some,
        k < entries.len() ==> entries[k as int].1 is None,
    ensures
        ({
            let c = f.completed(t);
            &&& c.result is Ok <==> k == entries.len()
            &&& c.ops == Seq::new(
                k,
                |i: int|
                    seq![
                        MemOp::MapInsert {
                            f: d.insert,
                            map: f.data.addr,
                            key: entries[i].0.addr,
                            value: entries[i].1->0.addr,
                        },
                    ] + t.dealloc_ops(d.k, entries[i].0.addr) + t.dealloc_ops(
                        d.v,
                        entries[i].1->0.addr,
                    ),
            ).flatten()
            &&& c.frame.tracker matches TrackerView::MapOf { insert_state, pending_entries, .. }
            &&& insert_state is Idle
            &&& pending_entries == entries.skip(k as int)
            &&& c.frame.is_init
            &&& f.same_frame(c.frame)
        }),
{
    reveal(FrameView::completed);
    lemma_full_entries(entries, k, entries.len());
    lemma_entries_in_order(t, d, f.data.addr, entries, k);
}

proof fn lemma_slots_in_order(
    d: ListDef,
    push: FnRef,
    list: Addr,
    slots: Seq<PtrUninit>,
    count: usize,
    n: nat,
)
    requires
        n <= slots.len(),
    ensures
        push_slots_ops(d, push, list, slots, count, n) == push_slots_ops(
            d,
            push,
            list,
            slots,
            count,
            0,
        ) + Seq::new(n, |i: int| MemOp::ListPush { f: push, list, item: slots[i].addr }),
    decreases n,
{
    let all = Seq::new(n, |i: int| MemOp::ListPush { f: push, list, item: slots[i].addr });
    let first = push_slots_ops(d, push, list, slots, count, 0);
    if n > 0 {
        let m = (n - 1) as nat;
        lemma_slots_in_order(d, push, list, slots, count, m);
        let less = Seq::new(m, |i: int| MemOp::ListPush { f: push, list, item: slots[i].addr });
        assert(all =~= less.push(MemOp::ListPush { f: push, list, item: slots[m as int].addr }));
        assert(push_slots_ops(d, push, list, slots, count, n) =~= first + all);
    } else {
        assert(first + all =~= first);
    }
}

/// The finished elements of a rope go into the list when the list is completed, in the order of
/// their slots and each once, after room was made for all of them. The rope is released afterwards.
/// Where the list cannot take them, they are dropped instead, and the list is not complete.
pub proof fn law_rope_elements_go_in_in_order(f: FrameView, t: ShapeTable, d: ListDef, r: RopeView)
    requires
        f.is_init,
        f.tracker == (TrackerView::List { current_child: None, rope: Some(r) }),
        t.at(f.allocated.shape).def == Def::List(d),
        r.initialized <= r.slots.len(),
    ensures
        ({
            let c = f.completed(t);
            let n = r.initialized as nat;
            let list = f.data.addr;
            let room = match d.reserve {
                Some(g) => seq![MemOp::ListReserve { f: g, list, additional: r.initialized }],
                None => Seq::empty(),
            };
            &&& c.frame == (FrameView {
                tracker: TrackerView::List { current_child: None, rope: None },
                ..f
            })
            &&& n == 0 ==> c.ops == seq![MemOp::FreeRope { rope: r.id }]
            &&& n > 0 ==> match d.push {
                Some(push) => c.ops == (room + Seq::new(
                    n,
                    |i: int| MemOp::ListPush { f: push, list, item: r.slots[i].addr },
                )).push(MemOp::FreeRope { rope: r.id }),
                None => c.ops == Seq::new(n, |i: int| t.drop_ops(d.t, r.slots[i].addr)).flatten().push(
                    MemOp::FreeRope { rope: r.id },
                ),
            }
            &&& c.result is Ok <==> n == 0 || d.push is Some
        }),
{
    reveal(FrameView::completed);
    let n = r.initialized as nat;
    match d.push {
        Some(push) => {
            lemma_slots_in_order(d, push, f.data.addr, r.slots, r.initialized, n);
        },
        None => {
            lemma_slots_dropped(t, d.t, r.slots, n);
        },
    }
}

/// The values in slots are dropped in order.
pub proof fn lemma_slots_dropped(
    t: ShapeTable,
    shape: ShapeRef,
    slots: Seq<PtrUninit>,
    n: nat,
)
    requires
        n <= slots.len(),
    ensures
        drop_slots_ops(t, shape, slots, n) == Seq::new(
            n,
            |i: int| t.drop_ops(shape, slots[i].addr),
        ).flatten(),
    decreases n,
{
    let step = |i: int| t.drop_ops(shape, slots[i].addr);
    let ops = drop_slots_ops(t, shape, slots, n);
    if n == 0 {
        assert(Seq::new(n, step) =~= Seq::empty());
        assert(ops =~= Seq::<MemOp>::empty());
    } else {
        let m = (n - 1) as nat;
        lemma_slots_dropped(t, shape, slots, m);
        lemma_one_run_more(Seq::new(m, step), step(m as int));
        assert(Seq::new(n, step) =~= Seq::new(m, step).push(step(m as int)));
        assert(ops =~= drop_slots_ops(t, shape, slots, m) + step(m as int));
    }
}

/// A value that waits for an option goes in when the option is completed: once, from its own
/// buffer, which is released right afterwards. Where none waits nothing is moved.
pub proof fn law_option_takes_what_waits(
    f: FrameView,
    t: ShapeTable,
    d: OptionDef,
    waiting: Option<PtrUninit>,
)
    requires
        f.tracker == (TrackerView::Option { building_inner: false, pending_inner: waiting }),
        t.at(f.allocated.shape).def == Def::Option(d),
    ensures
        ({
            let c = f.completed(t);
            &&& c.result is Ok
            &&& c.ops == match waiting {
                Some(p) => seq![
                    MemOp::InitSome { f: d.init_some, dst: f.data.addr, src: p.addr },
                ] + t.dealloc_ops(d.t, p.addr),
                None => Seq::empty(),
            }
            &&& c.frame == (FrameView {
                tracker: TrackerView::Option { building_inner: false, pending_inner: None },
                ..f
            })
        }),
{
    reveal(FrameView::completed);
}

/// A value that waits for a pointer is used up when the pointer is completed, in one of three ways.
/// A pointer that takes values of its pointee's type takes it, and the value is not dropped. One
/// that can only borrow borrows it and is made to own a clone, and then the value is dropped. A
/// pointer to `str` is made from a `String`. In every way the pointer comes to lie where the frame
/// is, and is complete.
pub proof fn law_pointer_takes_what_waits(
    f: FrameView,
    t: ShapeTable,
    p: PointerDef,
    w: PendingSmartPointerInner,
)
    requires
        f.tracker == (TrackerView::SmartPointer { building_inner: false, pending_inner: Some(w) }),
        t.at(f.allocated.shape).def == Def::Pointer(p),
    ensures
        ({
            let c = f.completed(t);
            let dst = f.data.addr;
            let src = w.data.addr;
            let inner = w.allocated.shape;
            let takes = p.vtable.new_into_fn is Some && p.pointee == Some(inner);
            let clones = p.vtable.borrow_from_pointee_fn is Some && p.vtable.promote_to_owned_fn is Some
                && p.pointee == Some(inner) && t.at(inner).layout is Sized;
            let string = p.pointee == Some(t.str_shape) && inner == t.string_shape && (
            p.known == Some(KnownPointer::Box) || p.known == Some(KnownPointer::Arc) || p.known == Some(
                KnownPointer::Rc,
            ) || p.known == Some(KnownPointer::Cow));
            &&& takes ==> c.ops == seq![
                MemOp::NewInto { f: p.vtable.new_into_fn->0, dst, src },
            ] + w.moved_ops(t)
            &&& !takes && clones ==> c.ops == seq![
                MemOp::BorrowFromPointee { f: p.vtable.borrow_from_pointee_fn->0, dst, pointee: src },
                MemOp::PromoteToOwned { f: p.vtable.promote_to_owned_fn->0, at: dst },
            ] + w.discard_ops(t)
            &&& !takes && !clones && string ==> c.ops == seq![
                MemOp::StringInto { kind: p.known->0, dst, src },
            ] + w.moved_ops(t)
            &&& !takes && !clones && !string ==> c.ops == w.discard_ops(t)
            &&& c.result is Ok <==> takes || clones || string
            &&& c.frame == (FrameView {
                is_init: takes || clones || string,
                tracker: TrackerView::SmartPointer { building_inner: false, pending_inner: None },
                ..f
            })
        }),
{
    reveal(FrameView::completed);
    let c = f.completed(t);
    let dst = f.data.addr;
    let src = w.data.addr;
    if can_borrow_and_promote(t, p, w.allocated.shape) {
        assert(borrow_and_promote_ops(p, dst, src) =~= seq![
            MemOp::BorrowFromPointee { f: p.vtable.borrow_from_pointee_fn->0, dst, pointee: src },
            MemOp::PromoteToOwned { f: p.vtable.promote_to_owned_fn->0, at: dst },
        ]);
    }
}

/// When a value counts as complete. It is not complete while a part of it is worked on, and
/// otherwise if it was written as a whole, or if all of its parts were. Nothing is done to memory
/// where nothing waits, and a value that is not complete stays as it is.
pub proof fn law_when_a_value_is_complete(f: FrameView, t: ShapeTable)
    ensures
        ({
            let c = f.completed(t);
            let shape = t.at(f.allocated.shape);
            match f.tracker {
                TrackerView::Scalar => {
                    &&& c.result is Ok <==> f.is_init
                    &&& c.ops.len() == 0
                    &&& c.frame == f
                },
                TrackerView::Array { iset, .. } => {
                    &&& c.result is Ok <==> (shape.ty matches Type::Sequence(SequenceType::Array(a))
                        && forall|i: int| 0 <= i < a.n ==> #[trigger] iset.contains(i))
                    &&& c.ops.len() == 0
                    &&& c.frame == f
                },
                TrackerView::Struct { iset, .. } => {
                    &&& c.result is Ok <==> (shape.ty matches Type::User(UserType::Struct(st))
                        && forall|i: int| 0 <= i < st.fields@.len() ==> #[trigger] iset.contains(i))
                    &&& c.ops.len() == 0
                    &&& c.frame == f
                },
                TrackerView::Enum { variant_idx, data, .. } => {
                    &&& shape.ty matches Type::User(UserType::Enum(e)) ==> (c.result is Ok <==> forall|
                        i: int,
                    |
                        0 <= i < e.variants@[variant_idx as int].fields@.len()
                            ==> #[trigger] data.contains(i))
                    &&& c.ops.len() == 0
                    &&& c.frame == f
                },
                TrackerView::SmartPointer { building_inner, pending_inner } => pending_inner is None
                    || building_inner ==> {
                    &&& c.result is Ok <==> !building_inner && f.is_init
                    &&& c.ops.len() == 0
                    &&& c.frame == f
                },
                TrackerView::SmartPointerSlice { building_item, .. } => {
                    &&& c.result is Ok <==> !building_item
                    &&& c.ops.len() == 0
                    &&& c.frame == f
                },
                TrackerView::List { current_child, rope } => rope is None || !f.is_init
                    || current_child is Some ==> {
                    &&& c.result is Ok <==> f.is_init && current_child is None
                    &&& c.ops.len() == 0
                    &&& c.frame == f
                },
                TrackerView::MapOf { insert_state, .. } => !f.is_init || !(insert_state is Idle) ==> {
                    &&& c.result is Err
                    &&& c.ops.len() == 0
                    &&& c.frame == f
                },
                TrackerView::SetOf { current_child } => {
                    &&& c.result is Ok <==> f.is_init && !current_child
                    &&& c.ops.len() == 0
                    &&& c.frame == f
                },
                TrackerView::Option { building_inner, .. } => building_inner ==> {
                    &&& c.result is Err
                    &&& c.ops.len() == 0
                    &&& c.frame == f
                },
                TrackerView::Result { building_inner, .. } => {
                    &&& c.result is Ok <==> !building_inner
                    &&& c.ops.len() == 0
                    &&& c.frame == f
                },
                TrackerView::Inner { building_inner } => {
                    &&& c.result is Ok <==> !building_inner && f.is_init
                    &&& c.ops.len() == 0
                    &&& c.frame == f
                },
                TrackerView::DynamicValue { state } => match state {
                    DynamicValueView::Uninit => c.result is Err && c.ops.len() == 0 && c.frame == f,
                    DynamicValueView::Scalar => c.result is Ok && c.ops.len() == 0 && c.frame == f,
                    DynamicValueView::Object { insert_state, .. } => !(insert_state is Idle)
                        ==> c.result is Err && c.ops.len() == 0 && c.frame == f,
                    DynamicValueView::Array { building_element, .. } => building_element
                        ==> c.result is Err && c.ops.len() == 0 && c.frame == f,
                },
            }
        }),
{
    reveal(FrameView::completed);
    match f.tracker {
        TrackerView::Struct { iset, .. } => {
            lemma_first_missing(iset, t.struct_fields(f.shape()).len());
        },
        TrackerView::Enum { variant_idx, data, .. } => {
            lemma_first_missing(data, t.variant_fields(f.shape(), variant_idx).len());
        },
        _ => {},
    }
}

/// What is said of a value that is not complete: a struct or the chosen variant of an enum names
/// its first missing field, and any other value of which nothing waits its own type.
pub proof fn law_what_is_said_of_an_incomplete_value(f: FrameView, t: ShapeTable, i: int)
    requires
        f.completed(t).result is Err,
    ensures
        ({
            let e = f.completed(t).result->Err_0;
            let shape = f.allocated.shape;
            match f.tracker {
                TrackerView::Struct { iset, .. } => match t.at(shape).ty {
                    Type::User(UserType::Struct(st)) => 0 <= i < st.fields@.len() && !iset.contains(i) && (
                    forall|j: int| 0 <= j < i ==> #[trigger] iset.contains(j)) ==> e
                        == (ReflectErrorKind::UninitializedField {
                        shape,
                        field_name: st.fields@[i].name,
                    }),
                    _ => e == (ReflectErrorKind::UninitializedValue { shape }),
                },
                TrackerView::Enum { variant_idx, data, .. } => t.at(shape).ty matches Type::User(
                    UserType::Enum(en),
                ) ==> (0 <= i < en.variants@[variant_idx as int].fields@.len() && !data.contains(i) && (
                forall|j: int| 0 <= j < i ==> #[trigger] data.contains(j)) ==> e
                    == (ReflectErrorKind::UninitializedField {
                    shape,
                    field_name: en.variants@[variant_idx as int].fields@[i].name,
                })),
                TrackerView::SmartPointer { building_inner, pending_inner } => pending_inner is None
                    || building_inner ==> e == (ReflectErrorKind::UninitializedValue { shape }),
                TrackerView::List { current_child, rope } => rope is None || !f.is_init
                    || current_child is Some ==> e == (ReflectErrorKind::UninitializedValue {
                    shape,
                }),
                TrackerView::MapOf { insert_state, .. } => !f.is_init || !(insert_state is Idle) ==> e
                    == (ReflectErrorKind::UninitializedValue { shape }),
                _ => e == (ReflectErrorKind::UninitializedValue { shape }),
            }
        }),
{
    reveal(FrameView::completed);
    match f.tracker {
        TrackerView::Struct { iset, .. } => {
            lemma_first_missing(iset, t.struct_fields(f.shape()).len());
        },
        TrackerView::Enum { variant_idx, data, .. } => {
            lemma_first_missing(data, t.variant_fields(f.shape(), variant_idx).len());
        },
        _ => {},
    }
}

} // verus!
