//! What the words mean that the contracts use: addresses, sets of fields, shapes, releasing and
//! dropping memory, trackers.
use vstd::prelude::*;

use crate::absorb::Converted;
use crate::frame::{discard_value_ops, AllocatedShape, Frame, FrameOwnership, FrameView};
use crate::iset::{all_below, first_missing, has_all, has_none, lemma_first_missing};
use crate::memory::{
    Addr, ConvertCall, Host, HostView, MemOp, PtrUninit, Recorder, TryFromCall, ValidateCall,
};
use crate::partial::alloc_ops;
use crate::plan::NodeId;
use crate::rope::RopeView;
use crate::shape::{Layout, ShapeLayout, ShapeRef, ShapeTable, Type, UserType};
use crate::tracker::TrackerView;

verus! {

/// A field lies in the buffer of the value, as far behind its start as the offset says. The field
/// at offset zero starts where the value does, and fields of fields add up.
pub proof fn law_field_lies_in_its_value(at: Addr, a: usize, b: usize)
    ensures
        at.field(a).buf == at.buf,
        at.offset + a <= usize::MAX ==> at.field(a).offset == at.offset + a,
        at.field(0) == at,
        at.offset + a + b <= usize::MAX ==> at.field(a).field(b) == at.field((a + b) as usize),
        at.field(a) == at.field(b) ==> a == b,
{
    let n = usize::MAX + 1;
    assert(at.offset + a < n || at.field(a).offset == at.offset + a - n);
    assert(at.offset + b < n || at.field(b).offset == at.offset + b - n);
}

/// A buffer starts at offset zero, and different buffers start at different addresses.
pub proof fn law_buffers_start_apart(a: u64, b: u64)
    ensures
        Addr::start(a).buf == a,
        Addr::start(a).offset == 0,
        Addr::start(a) == Addr::start(b) ==> a == b,
{
}

/// The host does what it is told behind what it did, in order, and its hooks stay the same.
pub proof fn law_host_appends(h: HostView, op: MemOp, ops: Seq<MemOp>)
    ensures
        h.after(op).trace == h.trace.push(op),
        h.plus(ops).trace == h.trace + ops,
        h.after(op).oracle == h.oracle,
        h.plus(ops).oracle == h.oracle,
{
}

/// The answers of the hooks are those of the oracle, to this call and after what was done so far.
pub proof fn law_hooks_answer_the_call(
    h: HostView,
    from: TryFromCall,
    convert: ConvertCall,
    check: ValidateCall,
)
    ensures
        h.try_from(from) == (h.oracle.try_from)(h.trace, from),
        h.convert_in(convert) == (h.oracle.convert_in)(h.trace, convert),
        h.validate(check) == (h.oracle.validate)(h.trace, check),
{
}

/// All fields are there if none below the count is missing, none is there if all are missing, and
/// the first missing one is missing while all before it are there.
pub proof fn law_sets_of_fields(s: Set<int>, n: nat)
    ensures
        has_all(s, n as int) <==> forall|i: int| 0 <= i < n ==> #[trigger] s.contains(i),
        has_none(s, n as int) <==> forall|i: int| 0 <= i < n ==> !#[trigger] s.contains(i),
        forall|i: int| #[trigger] all_below(n as int).contains(i) <==> 0 <= i < n,
        first_missing(s, n) is None <==> forall|i: int| 0 <= i < n ==> #[trigger] s.contains(i),
        first_missing(s, n) matches Some(k) ==> {
            &&& 0 <= k < n
            &&& !s.contains(k)
            &&& forall|i: int| 0 <= i < k ==> #[trigger] s.contains(i)
        },
{
    lemma_first_missing(s, n);
}

/// What is known of a type is what the table holds under its number.
pub proof fn law_types_are_looked_up(t: ShapeTable, r: ShapeRef)
    ensures
        t.has(r) <==> r.id < t.shapes@.len(),
        t.at(r) == t.shapes@[r.id as int],
        t.sized(r) == match t.shapes@[r.id as int].layout {
            ShapeLayout::Sized(l) => Some(l),
            ShapeLayout::Unsized => None,
        },
        t.can_default(r) == t.shapes@[r.id as int].type_ops.default_in_place,
        match t.shapes@[r.id as int].ty {
            Type::User(UserType::Struct(st)) => {
                &&& t.is_struct(r)
                &&& !t.is_enum(r)
                &&& t.struct_fields(r) == st.fields@
            },
            Type::User(UserType::Enum(e)) => {
                &&& !t.is_struct(r)
                &&& t.is_enum(r)
                &&& t.variants(r) == e.variants@
                &&& forall|v: usize| #[trigger] t.variant_fields(r, v) == e.variants@[v as int].fields@
            },
            _ => !t.is_struct(r) && !t.is_enum(r) && t.struct_fields(r).len() == 0 && t.variants(
                r,
            ).len() == 0,
        },
{
}

/// A value is dropped, and given its default, by its own type, at its own place, and at most once;
/// not at all if the type has no destructor, or no default.
pub proof fn law_types_act_in_place(t: ShapeTable, r: ShapeRef, at: Addr)
    ensures
        t.at(r).type_ops.drop_in_place ==> t.drop_ops(r, at) == seq![
            MemOp::DropInPlace { shape: r, at },
        ],
        !t.at(r).type_ops.drop_in_place ==> t.drop_ops(r, at).len() == 0,
        t.at(r).type_ops.default_in_place ==> t.default_ops(r, at) == seq![
            MemOp::DefaultInPlace { shape: r, at },
        ],
        !t.at(r).type_ops.default_in_place ==> t.default_ops(r, at).len() == 0,
{
}

/// What is allocated for a type is released under the same layout: an allocation and a release of
/// the same buffer name the same layout, and a type without size needs neither.
pub proof fn law_release_matches_allocation(t: ShapeTable, r: ShapeRef, layout: Layout, buf: u64)
    requires
        t.at(r).layout == ShapeLayout::Sized(layout),
    ensures
        layout.size > 0 ==> {
            &&& alloc_ops(layout, buf) == seq![MemOp::Alloc { buf, layout }]
            &&& t.dealloc_ops(r, Addr { buf, offset: 0 }) == seq![
                MemOp::Dealloc { at: Addr { buf, offset: 0 }, layout },
            ]
        },
        layout.size == 0 ==> {
            &&& alloc_ops(layout, buf).len() == 0
            &&& t.dealloc_ops(r, Addr { buf, offset: 0 }).len() == 0
        },
{
}

/// Only a frame that owns its memory releases it: all that was allocated, where its data is, with
/// the alignment of its type. One on a field, an entry, a slot or memory of the caller releases
/// nothing.
pub proof fn law_only_owners_release(f: FrameView, t: ShapeTable, layout: Layout)
    requires
        t.at(f.allocated.shape).layout == ShapeLayout::Sized(layout),
    ensures
        f.ownership.releases() <==> f.ownership is Owned || f.ownership is TrackedBuffer,
        (f.ownership is Owned || f.ownership is TrackedBuffer) && f.allocated.allocated_size > 0
            ==> f.dealloc_ops(t) == seq![
            MemOp::Dealloc {
                at: f.data.addr,
                layout: Layout { size: f.allocated.allocated_size, align: layout.align },
            },
        ],
        !(f.ownership is Owned || f.ownership is TrackedBuffer) || f.allocated.allocated_size == 0
            ==> f.dealloc_ops(t).len() == 0,
{
}

/// A value that waits for a pointer is released like the frame that built it once it was moved, and
/// is dropped first where it was not moved; an entry of an existing collection is never dropped.
pub proof fn law_waiting_value_goes_like_its_frame(f: FrameView, t: ShapeTable)
    ensures
        f.staged().data == f.data,
        f.staged().allocated == f.allocated,
        f.staged().ownership == f.ownership,
        f.staged().moved_ops(t) == f.dealloc_ops(t),
        f.ownership is BorrowedInPlace ==> f.staged().discard_ops(t) == f.dealloc_ops(t),
        !(f.ownership is BorrowedInPlace) ==> f.staged().discard_ops(t) == t.drop_ops(
            f.allocated.shape,
            f.data.addr,
        ) + f.dealloc_ops(t),
{
}

/// A value in a buffer is dropped before the buffer is released.
pub proof fn law_value_is_dropped_before_its_buffer(t: ShapeTable, r: ShapeRef, at: Addr)
    ensures
        discard_value_ops(t, r, at) == t.drop_ops(r, at) + t.dealloc_ops(r, at),
{
}

/// Counting a field as initialized and counting it as not initialized undo each other, and touch no
/// other field, nor the part that is worked on.
pub proof fn law_fields_are_counted_alone(s: Set<int>, child: Option<usize>, v: usize, idx: usize)
    ensures
        (TrackerView::Struct { iset: s, current_child: child }).with_field(idx)
            == (TrackerView::Struct { iset: s.insert(idx as int), current_child: child }),
        (TrackerView::Struct { iset: s, current_child: child }).without_field(idx)
            == (TrackerView::Struct { iset: s.remove(idx as int), current_child: child }),
        (TrackerView::Enum { variant_idx: v, data: s, current_child: child }).with_field(idx)
            == (TrackerView::Enum {
            variant_idx: v,
            data: s.insert(idx as int),
            current_child: child,
        }),
        (TrackerView::Enum { variant_idx: v, data: s, current_child: child }).without_field(idx)
            == (TrackerView::Enum {
            variant_idx: v,
            data: s.remove(idx as int),
            current_child: child,
        }),
        (TrackerView::Array { iset: s, current_child: child }).with_field(idx)
            == (TrackerView::Array { iset: s.insert(idx as int), current_child: child }),
        (TrackerView::Array { iset: s, current_child: child }).without_field(idx)
            == (TrackerView::Array { iset: s.remove(idx as int), current_child: child }),
{
}

/// Working on a part, or on none, changes nothing else of what is tracked.
pub proof fn law_current_part_is_tracked_alone(
    s: Set<int>,
    child: Option<usize>,
    v: usize,
    rope: Option<RopeView>,
    idx: usize,
)
    ensures
        (TrackerView::Struct { iset: s, current_child: child }).with_child(idx)
            == (TrackerView::Struct { iset: s, current_child: Some(idx) }),
        (TrackerView::Struct { iset: s, current_child: child }).without_child()
            == (TrackerView::Struct { iset: s, current_child: None }),
        (TrackerView::Enum { variant_idx: v, data: s, current_child: child }).with_child(idx)
            == (TrackerView::Enum { variant_idx: v, data: s, current_child: Some(idx) }),
        (TrackerView::Enum { variant_idx: v, data: s, current_child: child }).without_child()
            == (TrackerView::Enum { variant_idx: v, data: s, current_child: None }),
        (TrackerView::Array { iset: s, current_child: child }).with_child(idx)
            == (TrackerView::Array { iset: s, current_child: Some(idx) }),
        (TrackerView::Array { iset: s, current_child: child }).without_child()
            == (TrackerView::Array { iset: s, current_child: None }),
        (TrackerView::List { current_child: child, rope }).without_child() == (TrackerView::List {
            current_child: None,
            rope,
        }),
        !((TrackerView::SetOf { current_child: true }).without_child()->SetOf_current_child),
{
}

/// Only fields and elements are counted: a tracker without them stays as it is.
pub proof fn law_other_trackers_count_nothing(k: TrackerView, idx: usize)
    requires
        !(k is Struct) && !(k is Enum) && !(k is Array),
    ensures
        k.with_field(idx) == k,
        k.without_field(idx) == k,
        k.with_child(idx) == k,
        !(k is List) && !(k is SetOf) ==> k.without_child() == k,
{
}

/// The next slot of a rope is finished, and no other, as long as there is one.
pub proof fn law_rope_slots_are_finished_in_order(r: RopeView)
    requires
        r.slots.len() <= usize::MAX,
    ensures
        r.marked().id == r.id,
        r.marked().slots == r.slots,
        r.initialized < r.slots.len() ==> r.marked().initialized == r.initialized + 1,
        r.initialized >= r.slots.len() ==> r.marked().initialized == r.initialized,
{
}

/// A new frame tracks nothing, and only a struct without fields is initialized from the start.
pub proof fn law_new_frame_is_empty(
    t: ShapeTable,
    data: PtrUninit,
    allocated: AllocatedShape,
    ownership: FrameOwnership,
    node: NodeId,
)
    ensures
        ({
            let f = Frame::spec_new(t, data, allocated, ownership, node);
            &&& f.data == data
            &&& f.allocated == allocated
            &&& f.ownership == ownership
            &&& f.type_plan == node
            &&& f.tracker is Scalar
            &&& f.is_init <==> (t.at(allocated.shape).ty matches Type::User(UserType::Struct(st))
                && st.fields@.len() == 0)
            &&& !f.using_custom_deserialization
            &&& f.shape_level_proxy is None
        }),
{
}

/// A recorder writes down what it is asked to do. Its conversion hooks all convert or all refuse, its
/// proxy conversions write where they are told to, and its validators accept.
pub proof fn law_recorder_answers_the_same(
    r: Recorder,
    past: Seq<MemOp>,
    from: TryFromCall,
    convert: ConvertCall,
    check: ValidateCall,
)
    ensures
        r.view().trace == r.ops@,
        r.converts ==> (r.view().oracle.try_from)(past, from) is Converted,
        !r.converts ==> (r.view().oracle.try_from)(past, from) is Unsupported,
        (r.view().oracle.convert_in)(past, convert) == Ok::<Addr, String>(convert.dst),
        (r.view().oracle.validate)(past, check) is Ok,
{
}

} // verus!
