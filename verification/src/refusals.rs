//! What exactly is said where something cannot be done, and what is handed back.
use vstd::prelude::*;

use crate::deferred::{slice_finished, PartialOutcome};
use crate::end::agrees;
use crate::error::{ReflectError, ReflectErrorKind, ReflectErrorView};
use crate::fill::field_default_ops;
use crate::frame::{FrameView, PendingSmartPointerInner};
use crate::memory::{Addr, HostView, MemOp};
use crate::partial::{Partial, PartialView};
use crate::path::PathView;
use crate::plan::{FieldDefault, FillRule, NodeId, TypePlanCore, TypePlanNode, TypePlanNodeKind};
use crate::pool::Pool;
use crate::rope::RopeView;
use crate::shape::{
    ArrayType, Def, DefaultSource, EnumType, Field, Layout, ListDef, SequenceType, Shape,
    ShapeLayout, ShapeTable, Type, UserType,
};
use crate::stored::{ascending, lemma_find};
use crate::tracker::{DynamicValueView, TrackerKind, TrackerView};

verus! {

/// A successful operation hands the value back as it is then, and leaves the host as it is. A
/// failed one hands back the error alone, after all of the value was given up.
pub proof fn law_what_is_handed_back<'facet, const BORROW: bool>(
    o: PartialOutcome,
    plan: &'facet TypePlanCore,
    r: Result<Partial<'facet, BORROW>, ReflectError>,
    host: HostView,
)
    requires
        o.returned(plan, r, host),
    ensures
        r is Ok <==> o.result is Ok,
        r matches Ok(p) ==> p@ == o.partial && p.root_plan == plan && p.wf() && host == o.host,
        r matches Err(e) ==> o.result == Err::<(), ReflectErrorView>(e@) && host
            == o.partial.cancelled(plan.shapes, o.host),
{
}

/// What an operation in place answers is what came out: success, or the same error.
pub proof fn law_what_is_answered(
    r: Result<(), ReflectError>,
    expected: Result<(), ReflectErrorView>,
)
    requires
        agrees(r, expected),
    ensures
        r is Ok <==> expected is Ok,
        r matches Err(e) ==> expected == Err::<(), ReflectErrorView>(e@),
{
}

/// An outcome without an error is a success with that value and host, and one with an error is that
/// error, with the value as it is.
pub proof fn law_successes_and_errors(
    p: PartialView,
    t: ShapeTable,
    h: HostView,
    kind: ReflectErrorKind,
)
    ensures
        p.ok(h) == (PartialOutcome { partial: p, host: h, result: Ok(()) }),
        p.failing(t, h, kind) == (PartialOutcome {
            partial: p,
            host: h,
            result: Err(p.err(t, kind)),
        }),
{
}

/// Why a pointer for which a value waits cannot be completed: it cannot be made from a value of
/// that type at all, or it is a pointer to `str` of a kind that is not known, or that is not made
/// from a `String`. Or the frame is no pointer by its definition.
pub proof fn law_why_a_pointer_is_not_made(
    f: FrameView,
    t: ShapeTable,
    w: PendingSmartPointerInner,
)
    requires
        f.tracker == (TrackerView::SmartPointer { building_inner: false, pending_inner: Some(w) }),
    ensures
        ({
            let c = f.completed(t);
            let shape = f.allocated.shape;
            match t.at(shape).def {
                Def::Pointer(p) => c.result matches Err(e) ==> e == (ReflectErrorKind::OperationFailed {
                    shape,
                    operation: if p.pointee == Some(t.str_shape) && w.allocated.shape
                        == t.string_shape {
                        if p.known is Some {
                            "Unsupported SmartPointer<str> type"
                        } else {
                            "SmartPointer<str> missing known pointer type"
                        }
                    } else {
                        "SmartPointer missing an owned construction capability and not a supported unsized type"
                    },
                }),
                _ => {
                    &&& c.result == Err::<(), ReflectErrorKind>(
                        ReflectErrorKind::OperationFailed {
                            shape,
                            operation: "SmartPointer frame without SmartPointer definition",
                        },
                    )
                    &&& c.ops == w.discard_ops(t)
                    &&& !c.frame.is_init
                },
            }
        }),
{
    reveal(FrameView::completed);
}

/// A list that cannot take the elements of its rope says so, and names the type of the elements.
pub proof fn law_why_a_rope_is_not_drained(f: FrameView, t: ShapeTable, d: ListDef, r: RopeView)
    requires
        f.is_init,
        f.tracker == (TrackerView::List { current_child: None, rope: Some(r) }),
        t.at(f.allocated.shape).def == Def::List(d),
        d.push is None,
        r.initialized > 0,
    ensures
        f.completed(t).result == Err::<(), ReflectErrorKind>(
            ReflectErrorKind::OperationFailed {
                shape: d.t,
                operation: "List missing push function for rope drain",
            },
        ),
{
    reveal(FrameView::completed);
}

/// What is said where an element of an array cannot be entered.
pub proof fn law_why_an_element_is_not_entered(
    f: FrameView,
    t: ShapeTable,
    a: ArrayType,
    idx: usize,
    node: NodeId,
)
    ensures
        ({
            let e = f.array_element_begun(t, a, idx, node);
            let says = |operation: &'static str|
                e.result == Err::<FrameView, ReflectErrorKind>(
                    ReflectErrorKind::OperationFailed { shape: f.allocated.shape, operation },
                );
            let fitting = f.tracker is Array || (f.tracker is Scalar && !f.is_init);
            &&& idx >= a.n ==> says("array index out of bounds")
            &&& idx < a.n && a.n > 63 ==> says(
                "arrays larger than 63 elements are not yet supported",
            )
            &&& idx < a.n <= 63 && !fitting ==> says(
                "unexpected tracker state: expected uninitialized Scalar or Array",
            )
            &&& idx < a.n <= 63 && fitting && t.at(a.t).layout is Unsized ==> e.result == Err::<
                FrameView,
                ReflectErrorKind,
            >(
                ReflectErrorKind::Unsized {
                    shape: a.t,
                    operation: "begin_nth_element, calculating array element offset",
                },
            )
        }),
{
}

/// What is said where a field of an enum is entered before a variant was chosen.
pub proof fn law_why_a_variant_field_is_not_entered(
    f: FrameView,
    t: ShapeTable,
    fields: Seq<Field>,
    idx: usize,
    node: NodeId,
)
    requires
        idx < fields.len(),
        !(f.tracker is Enum),
    ensures
        f.enum_field_begun(t, fields, idx, node).result == Err::<FrameView, ReflectErrorKind>(
            ReflectErrorKind::OperationFailed {
                shape: f.allocated.shape,
                operation: "selecting a field on an enum requires selecting a variant first",
            },
        ),
{
}

/// What is said where a variant cannot be chosen.
pub proof fn law_why_a_variant_is_not_chosen(
    p: PartialView,
    t: ShapeTable,
    e: EnumType,
    variant_idx: usize,
    h: HostView,
)
    requires
        p.stack.len() > 0,
        t.at(p.top().allocated.shape).ty == Type::User(UserType::Enum(e)),
        variant_idx < e.variants@.len(),
    ensures
        ({
            let o = p.variant_selected(t, variant_idx, h);
            let says = |operation: &'static str|
                o.result == Err::<(), ReflectErrorView>(
                    p.err(
                        t,
                        ReflectErrorKind::OperationFailed {
                            shape: p.top().allocated.shape,
                            operation,
                        },
                    ),
                );
            &&& e.enum_repr is Rust ==> says(
                "Rust enums with unspecified discriminant layout are not supported for incremental building",
            )
            &&& e.enum_repr is RustNPO ==> says(
                "RustNPO enums are not supported for incremental building",
            )
            &&& !(e.enum_repr is Rust) && !(e.enum_repr is RustNPO)
                && e.variants@[variant_idx as int].discriminant is None ==> says(
                "trying to select an enum variant without a discriminant",
            )
        }),
{
}

/// What is said where a pointee cannot be entered.
pub proof fn law_why_a_pointee_is_not_entered(p: PartialView, plan: TypePlanCore, h: HostView)
    requires
        p.stack.len() > 0,
    ensures
        ({
            let o = p.smart_ptr_begun(plan, h);
            let says = |operation: &'static str|
                o.result == Err::<(), ReflectErrorView>(
                    o.partial.err(
                        plan.shapes,
                        ReflectErrorKind::OperationFailed {
                            shape: p.top().allocated.shape,
                            operation,
                        },
                    ),
                );
            match plan.shapes.at(p.top().allocated.shape).def {
                Def::Pointer(d) => {
                    &&& !d.is_constructible() ==> says(
                        "push_smart_ptr can only be called on compatible types",
                    )
                    &&& d.is_constructible() && d.pointee is None ==> says(
                        "Smart pointer must have a pointee shape",
                    )
                    &&& d.is_constructible() && p.deferred is None ==> (d.pointee matches Some(x)
                        ==> {
                        let odd = plan.shapes.at(x).layout is Unsized && x != plan.shapes.str_shape;
                        let slice = plan.shapes.at(x).ty matches Type::Sequence(
                            SequenceType::Slice(_),
                        );
                        &&& odd && slice && d.vtable.slice_builder_vtable is None ==> says(
                            "smart pointer does not support slice building",
                        )
                        &&& odd && !slice ==> says(
                            "push_smart_ptr can only be called on pointers to supported pointee types",
                        )
                        &&& !odd || (slice && d.vtable.slice_builder_vtable is Some)
                            ==> o.result is Ok
                    })
                },
                _ => says("push_smart_ptr can only be called on compatible types"),
            }
        }),
{
}

/// What is said where a slice has no place in strict mode: its parent is no struct, its frame is of
/// an ownership that has no place for it, or it is not sized. Nothing is done, and the value stays
/// as it is.
pub proof fn law_why_a_slice_is_not_placed(p: PartialView, t: ShapeTable, h: HostView)
    requires
        p.stack.len() >= 2,
        p.deferred is None,
        p.top().tracker matches TrackerView::SmartPointerSlice { building_item, .. }
            && !building_item,
    ensures
        ({
            let o = p.slice_ended(t, h);
            let f = p.top();
            let parent = p.stack[p.stack.len() - 2];
            let under_struct = t.at(parent.allocated.shape).ty matches Type::User(
                UserType::Struct(_),
            );
            let sized = t.at(f.allocated.shape).layout is Sized;
            let stays = o.partial == p && o.host == h && o.result is Err && o.result->Err_0 == p.err(
                t,
                o.result->Err_0.kind,
            );
            let kind = o.result->Err_0.kind;
            &&& f.ownership is Field && !under_struct ==> stays && kind
                == (ReflectErrorKind::InvariantViolation {
                invariant: "SmartPointerSlice field frame parent must be a struct",
            })
            &&& (f.ownership is Field && under_struct && !sized) || (f.ownership is Owned && !sized)
                ==> stays && kind == (ReflectErrorKind::Unsized {
                shape: f.allocated.shape,
                operation: "SmartPointerSlice conversion requires sized Arc",
            })
            &&& !(f.ownership is Field) && !(f.ownership is Owned) ==> stays && kind
                == (ReflectErrorKind::InvariantViolation {
                invariant: "SmartPointerSlice cannot have TrackedBuffer/BorrowedInPlace/External/RopeSlot ownership after conversion",
            })
        }),
{
}

/// An unsized slice that was set aside is an error at the end of deferred mode, which names its
/// type; the builder is left to be freed.
pub proof fn law_unsized_stored_slice_is_an_error(
    t: ShapeTable,
    pool: Pool,
    path: PathView,
    frame: FrameView,
    h: HostView,
    next_buffer: u64,
)
    requires
        frame.tracker is SmartPointerSlice,
        t.at(frame.allocated.shape).layout is Unsized,
    ensures
        ({
            let a = slice_finished(t, pool, path, frame, h, next_buffer);
            &&& a.result == Err::<(), ReflectErrorKind>(
                ReflectErrorKind::UninitializedValue { shape: frame.allocated.shape },
            )
            &&& a.frame == frame
            &&& a.host == h
            &&& a.next_buffer == next_buffer
        }),
{
}

/// The fields that can be entered are those of the struct, or of the variant that was chosen. For
/// every other type it is said why there are none.
pub proof fn law_which_fields_can_be_entered(p: PartialView, t: ShapeTable)
    requires
        p.stack.len() > 0,
    ensures
        ({
            let fields = p.enterable_fields(t);
            let says = |operation: &'static str|
                fields == Err::<Seq<Field>, ReflectErrorKind>(
                    ReflectErrorKind::OperationFailed {
                        shape: p.top().allocated.shape,
                        operation,
                    },
                );
            match t.at(p.top().allocated.shape).ty {
                Type::User(UserType::Struct(st)) => fields == Ok::<Seq<Field>, ReflectErrorKind>(
                    st.fields@,
                ),
                Type::User(UserType::Enum(e)) => match p.top().tracker {
                    TrackerView::Enum { variant_idx, .. } => fields == Ok::<
                        Seq<Field>,
                        ReflectErrorKind,
                    >(e.variants@[variant_idx as int].fields@),
                    _ => says("must select variant before selecting enum fields"),
                },
                Type::Undefined => says(
                    "shape type is undefined - shape was not properly configured",
                ),
                Type::Primitive => says("cannot select a field from a primitive type"),
                Type::Sequence(_) => says("cannot select a field from a sequence type"),
                Type::Pointer => says("cannot select a field from a pointer type"),
                Type::Unknown => says("cannot select a field from this type"),
                Type::User(UserType::Union) => says("cannot select a field from a union type"),
                Type::User(UserType::Opaque) => says("opaque types cannot be reflected upon"),
                Type::User(UserType::Unknown) => says("cannot select a field from this user type"),
            }
        }),
{
}

/// When there is something in a frame: the value as a whole, one of the parts that are counted, a
/// value that waits, a rope or a slice builder. An option or a result that works on nothing is
/// written.
pub proof fn law_when_a_frame_holds_something(f: FrameView, t: ShapeTable)
    ensures
        f.is_init ==> f.holds_value(t),
        !f.is_init ==> match f.tracker {
            TrackerView::Array { iset, .. } => match t.at(f.allocated.shape).ty {
                Type::Sequence(SequenceType::Array(a)) => f.holds_value(t) <==> exists|i: int|
                    0 <= i < a.n && #[trigger] iset.contains(i),
                _ => !f.holds_value(t),
            },
            TrackerView::Struct { iset, .. } => match t.at(f.allocated.shape).ty {
                Type::User(UserType::Struct(st)) => f.holds_value(t) <==> exists|i: int|
                    0 <= i < st.fields@.len() && #[trigger] iset.contains(i),
                _ => !f.holds_value(t),
            },
            TrackerView::Enum { variant_idx, data, .. } => match t.at(f.allocated.shape).ty {
                Type::User(UserType::Enum(e)) => f.holds_value(t) <==> exists|i: int|
                    0 <= i < e.variants@[variant_idx as int].fields@.len() && #[trigger] data.contains(i),
                _ => true,
            },
            TrackerView::SmartPointer { pending_inner, .. } => f.holds_value(t)
                <==> pending_inner is Some,
            TrackerView::SmartPointerSlice { .. } => f.holds_value(t),
            TrackerView::List { rope, .. } => f.holds_value(t) <==> rope is Some,
            TrackerView::MapOf { pending_entries, .. } => f.holds_value(t) <==> pending_entries.len()
                > 0,
            TrackerView::Option { building_inner, pending_inner } => f.holds_value(t)
                <==> !building_inner || pending_inner is Some,
            TrackerView::Result { building_inner, .. } => f.holds_value(t) <==> !building_inner,
            TrackerView::DynamicValue { state } => match state {
                DynamicValueView::Object { pending_entries, .. } => f.holds_value(t)
                    <==> pending_entries.len() > 0,
                DynamicValueView::Array { pending_elements, .. } => f.holds_value(t)
                    <==> pending_elements.len() > 0,
                _ => !f.holds_value(t),
            },
            _ => !f.holds_value(t),
        },
{
}

/// A field that was left out gets the default that it names itself; else that of its type, if the
/// type has one and the field or its container asks for it, or the type has an obvious empty value;
/// else none.
pub proof fn law_which_default_a_field_gets(t: ShapeTable, field: Field, at: Addr, container: bool)
    ensures
        ({
            let given = field_default_ops(t, field, at, container);
            let empty = field.shape == t.unit_shape || t.at(field.shape).def is Option || t.at(
                field.shape,
            ).def is List || t.at(field.shape).def is MapOf || t.at(field.shape).def is SetOf;
            let asked = field.default is Some || container || empty;
            match field.default {
                Some(DefaultSource::Custom(f)) => given == Some(seq![MemOp::CallDefault { f, at }]),
                _ => given == if asked && t.at(field.shape).type_ops.default_in_place {
                    Some(seq![MemOp::DefaultInPlace { shape: field.shape, at }])
                } else {
                    None
                },
            }
        }),
{
}

/// Making room where the type is not sized drops what is there, and allocates nothing.
pub proof fn law_room_without_a_size(p: PartialView, t: ShapeTable, h: HostView)
    requires
        p.stack.len() > 0,
        t.at(p.top().allocated.shape).layout is Unsized,
    ensures
        ({
            let o = p.room_made(t, h);
            &&& o.result is Ok
            &&& o.host.trace == h.trace + p.top().clear_ops(t)
            &&& o.partial == (PartialView {
                stack: p.stack.update(p.stack.len() - 1, p.top().cleared()),
                ..p
            })
        }),
{
}

/// A pointee that was set aside is entered again as it was, except that it works on no part: it is
/// pushed, and is no longer among the frames set aside, of which no other changes. The pointer
/// works on it. Room is made in the pointer first, and nothing else is done.
pub proof fn law_stored_pointee_is_pushed_again(
    p: PartialView,
    plan: TypePlanCore,
    i: int,
    h: HostView,
)
    requires
        p.stack.len() > 0,
        p.deferred matches Some(d) && ascending(d.stored) && 0 <= i < d.stored.len()
            && d.stored[i].path == p.derived_path(plan.shapes),
        p.top().tracker matches TrackerView::SmartPointer { building_inner, .. } && building_inner,
        plan.shapes.at(p.top().allocated.shape).def matches Def::Pointer(x) && x.is_constructible()
            && x.pointee is Some,
    ensures
        ({
            let o = p.smart_ptr_begun(plan, h);
            let d = p.deferred->0;
            let n = p.stack.len() as int;
            let f = d.stored[i].frame;
            &&& o.result is Ok
            &&& o.host.trace == h.trace + p.top().clear_ops(plan.shapes)
            &&& o.partial.deferred matches Some(e)
            &&& e.stored == d.stored.remove(i)
            &&& e.start_depth == d.start_depth
            &&& o.partial.next_buffer == p.next_buffer
            &&& o.partial.stack.len() == n + 1
            &&& forall|k: int| 0 <= k < n - 1 ==> #[trigger] o.partial.stack[k] == p.stack[k]
            &&& o.partial.stack[n - 1] == (FrameView {
                tracker: TrackerView::SmartPointer { building_inner: true, pending_inner: None },
                ..p.top().cleared()
            })
            &&& o.partial.stack[n] == (FrameView { tracker: f.tracker.without_child(), ..f })
        }),
{
    lemma_find(p.deferred->0.stored, p.derived_path(plan.shapes));
}

/// The kind of a tracker is that of what it tracks.
pub proof fn law_kinds_of_trackers(k: TrackerView)
    ensures
        k is Scalar <==> k.kind() == TrackerKind::Scalar,
        k is Array <==> k.kind() == TrackerKind::Array,
        k is Struct <==> k.kind() == TrackerKind::Struct,
        k is SmartPointer <==> k.kind() == TrackerKind::SmartPointer,
        k is SmartPointerSlice <==> k.kind() == TrackerKind::SmartPointerSlice,
        k is Enum <==> k.kind() == TrackerKind::Enum,
        k is List <==> k.kind() == TrackerKind::List,
        k is MapOf <==> k.kind() == TrackerKind::MapOf,
        k is SetOf <==> k.kind() == TrackerKind::SetOf,
        k is Option <==> k.kind() == TrackerKind::Option,
        k is Result <==> k.kind() == TrackerKind::Result,
        k is DynamicValue <==> k.kind() == TrackerKind::DynamicValue,
        k is Inner <==> k.kind() == TrackerKind::Inner,
{
}

/// A layout is one that an allocator accepts if it has an alignment, and its size rounded up to
/// that alignment is not above the largest size.
pub proof fn law_which_layouts_are_valid(l: Layout)
    ensures
        l.is_valid() <==> l.align > 0 && l.size + (l.align - 1) <= isize::MAX,
{
}

/// Which fields fit: those whose types are there.
pub proof fn law_which_fields_fit(t: ShapeTable, fields: Seq<Field>, idx: usize)
    ensures
        t.fields_ok(fields) <==> forall|k: int|
            #![trigger fields[k]]
            0 <= k < fields.len() ==> fields[k].shape.id < t.shapes@.len(),
        t.field_ok(fields, idx) <==> (idx < fields.len() ==> fields[idx as int].shape.id
            < t.shapes@.len() && t.at(fields[idx as int].shape).layout is Sized),
{
}

/// Which types fit into a table. Every type that is mentioned is there: types of fields, elements,
/// items, keys, values and pointees. An array fits into memory, the layout is valid, a pointer that
/// builds slices is not empty, and a dynamic value can be dropped.
pub proof fn law_which_types_fit(t: ShapeTable, s: Shape)
    ensures
        t.shape_ok(s) <==> {
            let n = t.shapes@.len();
            &&& match s.ty {
                Type::User(UserType::Struct(st)) => t.fields_ok(st.fields@),
                Type::User(UserType::Enum(e)) => forall|v: int|
                    #![trigger e.variants@[v]]
                    0 <= v < e.variants@.len() ==> t.fields_ok(e.variants@[v].fields@),
                Type::Sequence(SequenceType::Array(a)) => a.t.id < n && (
                t.shapes@[a.t.id as int].layout matches ShapeLayout::Sized(l) ==> a.n * l.size
                    <= usize::MAX),
                Type::Sequence(SequenceType::Slice(x)) => x.id < n,
                _ => true,
            }
            &&& match s.def {
                Def::Pointer(p) => {
                    &&& p.pointee matches Some(x) ==> x.id < n
                    &&& p.vtable.slice_builder_vtable is Some ==> (
                    s.layout matches ShapeLayout::Sized(l) ==> l.size > 0)
                },
                Def::List(d) => d.t.id < n,
                Def::MapOf(d) => d.k.id < n && d.v.id < n,
                Def::SetOf(d) => d.t.id < n,
                Def::Option(d) => d.t.id < n,
                Def::DynamicValue(_) => s.type_ops.drop_in_place,
                _ => true,
            }
            &&& s.layout matches ShapeLayout::Sized(l) ==> l.align > 0 && l.size + l.align - 1
                <= isize::MAX
        },
{
}

/// Which tables fit together: all types in them fit, `str` is there and is not sized, `String` is
/// there and is, and `()` is there.
pub proof fn law_which_tables_fit_together(t: ShapeTable)
    ensures
        t.wf() <==> {
            let n = t.shapes@.len();
            &&& t.str_shape.id < n && t.string_shape.id < n && t.unit_shape.id < n
            &&& t.shapes@[t.str_shape.id as int].layout is Unsized
            &&& t.shapes@[t.string_shape.id as int].layout is Sized
            &&& forall|i: int| #![trigger t.shapes@[i]] 0 <= i < n ==> t.shape_ok(t.shapes@[i])
        },
{
}

/// Which plan nodes fit into a plan. The type is there; what has fields is neither a pointer nor an
/// option; the plans, variants and nodes that are named are there; a node that refers back refers
/// to one of the same type that does not. A pointer that can be built from a pointee in memory of
/// its own has a node for what is built: the pointee, or a `String` for `str`.
pub proof fn law_which_nodes_fit(plan: TypePlanCore, node: TypePlanNode)
    ensures
        plan.node_ok(node) <==> {
            let t = plan.shapes;
            let n = plan.nodes@.len();
            let def = t.at(node.shape).def;
            &&& node.shape.id < t.shapes@.len()
            &&& node.kind is Struct || node.kind is Enum ==> !(def is Pointer) && !(def is Option)
            &&& match node.kind {
                TypePlanNodeKind::Struct(p) => p.fields.start + p.fields.len
                    <= plan.field_plans@.len(),
                TypePlanNodeKind::Enum(p) => p.variants.start + p.variants.len
                    <= plan.variant_plans@.len(),
                TypePlanNodeKind::Pointer { pointee } => pointee matches Some(id) ==> id.index < n,
                TypePlanNodeKind::BackRef(target) => target.index < n && !(
                plan.nodes@[target.index as int].kind is BackRef)
                    && plan.nodes@[target.index as int].shape == node.shape,
                TypePlanNodeKind::Unknown => true,
            }
            &&& node.kind is BackRef || match def {
                Def::Pointer(p) => p.pointee matches Some(x) ==> (p.is_constructible() && (t.at(
                    x,
                ).layout is Sized || x == t.str_shape) ==> {
                    &&& node.kind matches TypePlanNodeKind::Pointer { pointee: Some(inner) }
                    &&& inner.index < n
                    &&& plan.nodes@[inner.index as int].shape == if t.at(x).layout is Sized {
                        x
                    } else {
                        t.string_shape
                    }
                }),
                _ => true,
            }
        },
{
}

/// Which plans fit together: the table of types, all nodes, all field plans with their validators
/// and the types whose defaults they name, and all variants with their field plans.
pub proof fn law_which_plans_fit_together(plan: TypePlanCore)
    ensures
        plan.wf() <==> {
            &&& plan.shapes.wf()
            &&& forall|i: int|
                #![trigger plan.nodes@[i]]
                0 <= i < plan.nodes@.len() ==> plan.node_ok(plan.nodes@[i])
            &&& forall|i: int|
                #![trigger plan.field_plans@[i]]
                0 <= i < plan.field_plans@.len() ==> {
                    let f = plan.field_plans@[i];
                    &&& f.validators.start + f.validators.len <= plan.validator_fns@.len()
                    &&& f.fill_rule matches FillRule::Defaultable(FieldDefault::FromTrait(s))
                        ==> s.id < plan.shapes.shapes@.len()
                }
            &&& forall|i: int|
                #![trigger plan.variant_plans@[i]]
                0 <= i < plan.variant_plans@.len() ==> plan.variant_plans@[i].fields.start
                    + plan.variant_plans@[i].fields.len <= plan.field_plans@.len()
        },
{
}

} // verus!
