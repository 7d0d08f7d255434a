//! What becomes of fields that were left out, and where validators look.
use vstd::prelude::*;

use crate::error::ReflectErrorKind;
use crate::fill::{field_default_ops, fill_fields, takes_type_default};
use crate::frame::FrameView;
use crate::iset::has_all;
use crate::memory::{Addr, MemOp};
use crate::shape::{DefaultSource, EnumType, Field, ShapeTable, StructType, Type, UserType};
use crate::tracker::TrackerView;

verus! {

/// What is in one of the runs is in all of them together.
pub proof fn lemma_in_flattened<A>(runs: Seq<Seq<A>>, i: int, x: A)
    requires
        0 <= i < runs.len(),
        runs[i].contains(x),
    ensures
        runs.flatten().contains(x),
    decreases runs.len(),
{
    let last = runs.last();
    let less = runs.drop_last();
    assert(runs =~= less.push(last));
    less.lemma_flatten_push(last);
    if i < less.len() {
        lemma_in_flattened(less, i, x);
        let k = choose|k: int| 0 <= k < less.flatten().len() && less.flatten()[k] == x;
        assert(runs.flatten()[k] == x);
    } else {
        let k = choose|k: int| 0 <= k < last.len() && last[k] == x;
        assert(runs.flatten()[less.flatten().len() + k] == x);
    }
}

/// There is a default for a field that was left out.
spec fn is_given(t: ShapeTable, field: Field, container: bool) -> bool {
    (field.default is Some && field.default->0 is Custom) || (t.can_default(field.shape)
        && takes_type_default(t, field, container))
}

/// What is done for one field.
spec fn field_run(t: ShapeTable, field: Field, at: Addr, container: bool, is_set: bool) -> Seq<MemOp> {
    if is_set || !is_given(t, field, container) {
        Seq::empty()
    } else {
        field_default_ops(t, field, at.field(field.offset), container)->0
    }
}

/// The first `k` fields are filled in, and the next one stops it if there is another.
proof fn lemma_filled_up_to(
    t: ShapeTable,
    fields: Seq<Field>,
    at: Addr,
    container: bool,
    iset: Set<int>,
    k: nat,
    n: nat,
)
    requires
        k <= n <= fields.len(),
        forall|i: int|
            #![trigger fields[i]]
            0 <= i < k ==> iset.contains(i) || is_given(t, fields[i], container)
                || fields[i].default is None,
        k < n ==> !iset.contains(k as int) && !is_given(t, fields[k as int], container)
            && fields[k as int].default is Some,
    ensures
        ({
            let fill = fill_fields(t, fields, at, container, iset, n);
            &&& fill.failed == if k < n {
                Some(fields[k as int].shape)
            } else {
                None
            }
            &&& forall|i: int| #[trigger]
                fill.iset.contains(i) <==> iset.contains(i) || (0 <= i < k && is_given(
                    t,
                    fields[i],
                    container,
                ))
            &&& fill.ops == Seq::new(
                k,
                |i: int| field_run(t, fields[i], at, container, iset.contains(i)),
            ).flatten()
        }),
    decreases n,
{
    let run = |i: int| field_run(t, fields[i], at, container, iset.contains(i));
    if n == 0 {
        assert(Seq::new(k, run) =~= Seq::empty());
    } else {
        let m = (n - 1) as nat;
        if k == n {
            lemma_filled_up_to(t, fields, at, container, iset, m, m);
            let runs = Seq::new(m, run);
            runs.lemma_flatten_push(run(m as int));
            assert(Seq::new(n, run) =~= runs.push(run(m as int)));
            assert(runs.flatten() + Seq::<MemOp>::empty() =~= runs.flatten());
        } else {
            lemma_filled_up_to(t, fields, at, container, iset, k, m);
        }
    }
}

/// Fields of a struct that were left out get their defaults, where there are any: what the field
/// asks for, or the default of its type, if the field asks for that, or the struct does, or the
/// type has an obvious empty value. Each such field gets one, at its own place, and from then on is
/// initialized; fields that were set, and fields without a default, stay as they are. This is so
/// unless nothing was set and the struct has a default of its own, or some field asks for a default
/// that its type lacks.
pub proof fn law_left_out_fields_get_defaults(f: FrameView, t: ShapeTable, st: StructType)
    requires
        f.tracker is Struct,
        t.at(f.allocated.shape).ty == Type::User(UserType::Struct(st)),
        !t.at(f.allocated.shape).type_ops.default_in_place || exists|i: int|
            0 <= i < st.fields@.len() && #[trigger] f.tracker->Struct_iset.contains(i),
        forall|i: int|
            #![trigger st.fields@[i]]
            0 <= i < st.fields@.len() && !f.tracker->Struct_iset.contains(i)
                && st.fields@[i].default is Some && !(st.fields@[i].default->0 is Custom) ==> t.at(
                st.fields@[i].shape,
            ).type_ops.default_in_place,
    ensures
        ({
            let c = f.filled(t);
            let fields = st.fields@;
            let iset = f.tracker->Struct_iset;
            let after = c.frame.tracker->Struct_iset;
            let given = |i: int|
                (fields[i].default is Some && fields[i].default->0 is Custom) || (t.at(
                    fields[i].shape,
                ).type_ops.default_in_place && (fields[i].default is Some || t.at(
                    f.allocated.shape,
                ).default_attr || fields[i].shape == t.unit_shape || t.at(
                    fields[i].shape,
                ).def is Option || t.at(fields[i].shape).def is List || t.at(
                    fields[i].shape,
                ).def is MapOf || t.at(fields[i].shape).def is SetOf));
            let written = |i: int|
                match fields[i].default {
                    Some(DefaultSource::Custom(g)) => MemOp::CallDefault {
                        f: g,
                        at: f.data.addr.field(fields[i].offset),
                    },
                    _ => MemOp::DefaultInPlace {
                        shape: fields[i].shape,
                        at: f.data.addr.field(fields[i].offset),
                    },
                };
            &&& c.result is Ok
            &&& c.frame.tracker is Struct
            &&& forall|i: int|
                0 <= i < fields.len() ==> (#[trigger] after.contains(i) <==> iset.contains(i) || given(
                    i,
                ))
            &&& forall|i: int|
                0 <= i < fields.len() && !iset.contains(i) && #[trigger] given(i) ==> c.ops.contains(
                    written(i),
                )
            &&& c.ops == Seq::new(
                fields.len(),
                |i: int|
                    if iset.contains(i) || !given(i) {
                        Seq::empty()
                    } else {
                        seq![written(i)]
                    },
            ).flatten()
            &&& c.frame == (FrameView {
                tracker: TrackerView::Struct {
                    iset: after,
                    current_child: f.tracker->Struct_current_child,
                },
                ..f
            })
        }),
{
    reveal(FrameView::filled);
    let c = f.filled(t);
    let fields = st.fields@;
    let iset = f.tracker->Struct_iset;
    let container = t.at(f.allocated.shape).default_attr;
    let n = fields.len();
    assert(t.struct_fields(f.shape()) == fields);
    assert forall|i: int| #![trigger fields[i]] 0 <= i < n implies iset.contains(i) || is_given(
        t,
        fields[i],
        container,
    ) || fields[i].default is None by {}
    lemma_filled_up_to(t, fields, f.data.addr, container, iset, n, n);
    let runs = Seq::new(
        n,
        |i: int| field_run(t, fields[i], f.data.addr, container, iset.contains(i)),
    );
    if has_all(iset, n as int) {
        lemma_all_empty(runs);
    }
    assert(c.ops == runs.flatten());
    let given = |i: int|
        (fields[i].default is Some && fields[i].default->0 is Custom) || (t.at(
            fields[i].shape,
        ).type_ops.default_in_place && (fields[i].default is Some || t.at(
            f.allocated.shape,
        ).default_attr || fields[i].shape == t.unit_shape || t.at(
            fields[i].shape,
        ).def is Option || t.at(fields[i].shape).def is List || t.at(
            fields[i].shape,
        ).def is MapOf || t.at(fields[i].shape).def is SetOf));
    let written = |i: int|
        match fields[i].default {
            Some(DefaultSource::Custom(g)) => MemOp::CallDefault {
                f: g,
                at: f.data.addr.field(fields[i].offset),
            },
            _ => MemOp::DefaultInPlace {
                shape: fields[i].shape,
                at: f.data.addr.field(fields[i].offset),
            },
        };
    assert forall|i: int| 0 <= i < n implies #[trigger] given(i) == is_given(
        t,
        fields[i],
        container,
    ) by {}
    assert forall|i: int| 0 <= i < n && !iset.contains(i) && #[trigger] given(i) implies c.ops.contains(
        written(i),
    ) by {
        assert(runs[i] == seq![written(i)]);
        assert(runs[i][0] == written(i));
        lemma_in_flattened(runs, i, written(i));
    }
    let stated = Seq::new(
        fields.len(),
        |i: int|
            if iset.contains(i) || !given(i) {
                Seq::empty()
            } else {
                seq![written(i)]
            },
    );
    assert(runs =~= stated);
    assert(c.frame.tracker->Struct_iset =~= if has_all(iset, n as int) {
        iset
    } else {
        fill_fields(t, fields, f.data.addr, container, iset, n).iset
    });
    let after = c.frame.tracker->Struct_iset;
    assert forall|i: int| 0 <= i < n implies (#[trigger] after.contains(i) <==> iset.contains(i)
        || given(i)) by {}
}

/// Fields of the chosen variant of an enum that were left out get their defaults in the same way,
/// unless one of them asks for a default that its type lacks.
pub proof fn law_left_out_fields_of_a_variant_get_defaults(
    f: FrameView,
    t: ShapeTable,
    e: EnumType,
    fields: Seq<Field>,
)
    requires
        f.tracker is Enum,
        t.at(f.allocated.shape).ty == Type::User(UserType::Enum(e)),
        fields == e.variants@[f.tracker->Enum_variant_idx as int].fields@,
        forall|i: int|
            #![trigger fields[i]]
            0 <= i < fields.len() && !f.tracker->data.contains(i) && fields[i].default is Some && !(
            fields[i].default->0 is Custom) ==> t.at(fields[i].shape).type_ops.default_in_place,
    ensures
        ({
            let c = f.filled(t);
            let iset = f.tracker->data;
            let after = c.frame.tracker->data;
            let given = |i: int|
                (fields[i].default is Some && fields[i].default->0 is Custom) || (t.at(
                    fields[i].shape,
                ).type_ops.default_in_place && (fields[i].default is Some || t.at(
                    f.allocated.shape,
                ).default_attr || fields[i].shape == t.unit_shape || t.at(
                    fields[i].shape,
                ).def is Option || t.at(fields[i].shape).def is List || t.at(
                    fields[i].shape,
                ).def is MapOf || t.at(fields[i].shape).def is SetOf));
            let written = |i: int|
                match fields[i].default {
                    Some(DefaultSource::Custom(g)) => MemOp::CallDefault {
                        f: g,
                        at: f.data.addr.field(fields[i].offset),
                    },
                    _ => MemOp::DefaultInPlace {
                        shape: fields[i].shape,
                        at: f.data.addr.field(fields[i].offset),
                    },
                };
            &&& c.result is Ok
            &&& c.frame.tracker is Enum
            &&& forall|i: int|
                0 <= i < fields.len() ==> (#[trigger] after.contains(i) <==> iset.contains(i) || given(
                    i,
                ))
            &&& forall|i: int|
                0 <= i < fields.len() && !iset.contains(i) && #[trigger] given(i) ==> c.ops.contains(
                    written(i),
                )
            &&& c.ops == Seq::new(
                fields.len(),
                |i: int|
                    if iset.contains(i) || !given(i) {
                        Seq::empty()
                    } else {
                        seq![written(i)]
                    },
            ).flatten()
            &&& c.frame == (FrameView {
                tracker: TrackerView::Enum {
                    variant_idx: f.tracker->Enum_variant_idx,
                    data: after,
                    current_child: f.tracker->Enum_current_child,
                },
                ..f
            })
        }),
{
    reveal(FrameView::filled);
    let c = f.filled(t);
    let iset = f.tracker->data;
    let container = t.at(f.allocated.shape).default_attr;
    let n = fields.len();
    assert(t.variant_fields(f.shape(), f.tracker->Enum_variant_idx) == fields);
    assert forall|i: int| #![trigger fields[i]] 0 <= i < n implies iset.contains(i) || is_given(
        t,
        fields[i],
        container,
    ) || fields[i].default is None by {}
    lemma_filled_up_to(t, fields, f.data.addr, container, iset, n, n);
    let runs = Seq::new(
        n,
        |i: int| field_run(t, fields[i], f.data.addr, container, iset.contains(i)),
    );
    if has_all(iset, n as int) {
        lemma_all_empty(runs);
    }
    assert(c.ops == runs.flatten());
    let given = |i: int|
        (fields[i].default is Some && fields[i].default->0 is Custom) || (t.at(
            fields[i].shape,
        ).type_ops.default_in_place && (fields[i].default is Some || t.at(
            f.allocated.shape,
        ).default_attr || fields[i].shape == t.unit_shape || t.at(
            fields[i].shape,
        ).def is Option || t.at(fields[i].shape).def is List || t.at(
            fields[i].shape,
        ).def is MapOf || t.at(fields[i].shape).def is SetOf));
    let written = |i: int|
        match fields[i].default {
            Some(DefaultSource::Custom(g)) => MemOp::CallDefault {
                f: g,
                at: f.data.addr.field(fields[i].offset),
            },
            _ => MemOp::DefaultInPlace {
                shape: fields[i].shape,
                at: f.data.addr.field(fields[i].offset),
            },
        };
    assert forall|i: int| 0 <= i < n implies #[trigger] given(i) == is_given(
        t,
        fields[i],
        container,
    ) by {}
    assert forall|i: int| 0 <= i < n && !iset.contains(i) && #[trigger] given(i) implies c.ops.contains(
        written(i),
    ) by {
        assert(runs[i] == seq![written(i)]);
        assert(runs[i][0] == written(i));
        lemma_in_flattened(runs, i, written(i));
    }
    let stated = Seq::new(
        fields.len(),
        |i: int|
            if iset.contains(i) || !given(i) {
                Seq::empty()
            } else {
                seq![written(i)]
            },
    );
    assert(runs =~= stated);
    assert(c.frame.tracker->data =~= if has_all(iset, n as int) {
        iset
    } else {
        fill_fields(t, fields, f.data.addr, container, iset, n).iset
    });
    let after = c.frame.tracker->data;
    assert forall|i: int| 0 <= i < n implies (#[trigger] after.contains(i) <==> iset.contains(i)
        || given(i)) by {}
}

/// A field that was left out and asks for a default that its type lacks is an error, which names
/// the type of the first such field. The fields before it got their defaults, and none after it
/// did.
pub proof fn law_default_that_is_lacking_is_reported(
    f: FrameView,
    t: ShapeTable,
    fields: Seq<Field>,
    iset: Set<int>,
    k: nat,
)
    requires
        match (f.tracker, t.at(f.allocated.shape).ty) {
            (TrackerView::Struct { iset: s, .. }, Type::User(UserType::Struct(st))) => s == iset
                && fields == st.fields@ && (!t.at(f.allocated.shape).type_ops.default_in_place
                || exists|i: int| 0 <= i < fields.len() && #[trigger] iset.contains(i)),
            (TrackerView::Enum { variant_idx, data, .. }, Type::User(UserType::Enum(e))) => data
                == iset && fields == e.variants@[variant_idx as int].fields@,
            _ => false,
        },
        k < fields.len(),
        !iset.contains(k as int),
        fields[k as int].default is Some,
        !(fields[k as int].default->0 is Custom),
        !t.at(fields[k as int].shape).type_ops.default_in_place,
        forall|i: int|
            #![trigger fields[i]]
            0 <= i < k && !iset.contains(i) && fields[i].default is Some && !(
            fields[i].default->0 is Custom) ==> t.at(fields[i].shape).type_ops.default_in_place,
    ensures
        ({
            let c = f.filled(t);
            let given = |i: int|
                (fields[i].default is Some && fields[i].default->0 is Custom) || (t.at(
                    fields[i].shape,
                ).type_ops.default_in_place && (fields[i].default is Some || t.at(
                    f.allocated.shape,
                ).default_attr || fields[i].shape == t.unit_shape || t.at(
                    fields[i].shape,
                ).def is Option || t.at(fields[i].shape).def is List || t.at(
                    fields[i].shape,
                ).def is MapOf || t.at(fields[i].shape).def is SetOf));
            let written = |i: int|
                match fields[i].default {
                    Some(DefaultSource::Custom(g)) => MemOp::CallDefault {
                        f: g,
                        at: f.data.addr.field(fields[i].offset),
                    },
                    _ => MemOp::DefaultInPlace {
                        shape: fields[i].shape,
                        at: f.data.addr.field(fields[i].offset),
                    },
                };
            &&& c.result == Err::<(), ReflectErrorKind>(
                ReflectErrorKind::DefaultAttrButNoDefaultImpl { shape: fields[k as int].shape },
            )
            &&& f.same_frame(c.frame)
            &&& c.ops == Seq::new(
                k,
                |i: int|
                    if iset.contains(i) || !given(i) {
                        Seq::empty()
                    } else {
                        seq![written(i)]
                    },
            ).flatten()
            &&& match c.frame.tracker {
                TrackerView::Struct { iset: after, .. } => f.tracker is Struct && forall|i: int|
                    #[trigger] after.contains(i) <==> iset.contains(i) || (0 <= i < k && given(i)),
                TrackerView::Enum { variant_idx, data: after, .. } => f.tracker is Enum && variant_idx
                    == f.tracker->Enum_variant_idx && forall|i: int|
                    #[trigger] after.contains(i) <==> iset.contains(i) || (0 <= i < k && given(i)),
                _ => false,
            }
        }),
{
    reveal(FrameView::filled);
    let container = t.at(f.allocated.shape).default_attr;
    let n = fields.len();
    assert forall|i: int| #![trigger fields[i]] 0 <= i < k implies iset.contains(i) || is_given(
        t,
        fields[i],
        container,
    ) || fields[i].default is None by {}
    lemma_filled_up_to(t, fields, f.data.addr, container, iset, k, n);
    assert(!has_all(iset, n as int));
    let runs = Seq::new(
        k,
        |i: int| field_run(t, fields[i], f.data.addr, container, iset.contains(i)),
    );
    let given = |i: int|
        (fields[i].default is Some && fields[i].default->0 is Custom) || (t.at(
            fields[i].shape,
        ).type_ops.default_in_place && (fields[i].default is Some || t.at(
            f.allocated.shape,
        ).default_attr || fields[i].shape == t.unit_shape || t.at(
            fields[i].shape,
        ).def is Option || t.at(fields[i].shape).def is List || t.at(
            fields[i].shape,
        ).def is MapOf || t.at(fields[i].shape).def is SetOf));
    let written = |i: int|
        match fields[i].default {
            Some(DefaultSource::Custom(g)) => MemOp::CallDefault {
                f: g,
                at: f.data.addr.field(fields[i].offset),
            },
            _ => MemOp::DefaultInPlace {
                shape: fields[i].shape,
                at: f.data.addr.field(fields[i].offset),
            },
        };
    assert forall|i: int| 0 <= i < k implies #[trigger] given(i) == is_given(
        t,
        fields[i],
        container,
    ) by {}
    let stated = Seq::new(
        k,
        |i: int|
            if iset.contains(i) || !given(i) {
                Seq::empty()
            } else {
                seq![written(i)]
            },
    );
    assert(runs =~= stated);
}

/// Where nothing at all was set, the default of the whole type comes first: a struct or an option
/// that has one is written as a whole, once, at its own place, and is complete.
pub proof fn law_untouched_value_takes_its_own_default(f: FrameView, t: ShapeTable)
    requires
        t.at(f.allocated.shape).type_ops.default_in_place,
        match f.tracker {
            TrackerView::Scalar => !f.is_init && (t.at(f.allocated.shape).def is Option || t.at(
                f.allocated.shape,
            ).ty matches Type::User(UserType::Struct(_))),
            TrackerView::Struct { iset, .. } => t.at(f.allocated.shape).ty matches Type::User(
                UserType::Struct(st),
            ) && st.fields@.len() > 0 && forall|i: int|
                0 <= i < st.fields@.len() ==> !#[trigger] iset.contains(i),
            _ => false,
        },
    ensures
        ({
            let c = f.filled(t);
            &&& c.result is Ok
            &&& c.ops == seq![
                MemOp::DefaultInPlace { shape: f.allocated.shape, at: f.data.addr },
            ]
            &&& c.frame == (FrameView { tracker: TrackerView::Scalar, is_init: true, ..f })
            &&& c.frame.completed(t).result is Ok
        }),
{
    reveal(FrameView::filled);
    reveal(FrameView::completed);
    if f.tracker is Struct {
        assert(!f.tracker->Struct_iset.contains(0));
    }
}

/// A struct of which nothing was set, and that has no default of its own, gets the defaults of its
/// fields: it is treated like one whose fields are tracked and all missing.
pub proof fn law_untouched_struct_gets_defaults_of_fields(f: FrameView, t: ShapeTable)
    requires
        f.tracker is Scalar,
        !f.is_init,
        t.at(f.allocated.shape).ty matches Type::User(UserType::Struct(_)),
        !t.at(f.allocated.shape).type_ops.default_in_place,
    ensures
        f.filled(t) == (FrameView {
            tracker: TrackerView::Struct { iset: Set::empty(), current_child: None },
            ..f
        }).filled(t),
{
    reveal(FrameView::filled);
}

/// Nothing is filled in where nothing is missing: a value that was written as a whole, a struct or
/// variant all of whose fields were set, and a value that has no fields.
pub proof fn law_nothing_is_filled_into_whole_values(f: FrameView, t: ShapeTable)
    requires
        match f.tracker {
            TrackerView::Scalar => f.is_init || (!(t.at(f.allocated.shape).ty matches Type::User(
                UserType::Struct(_),
            )) && (!(t.at(f.allocated.shape).def is Option) || !t.at(
                f.allocated.shape,
            ).type_ops.default_in_place)),
            TrackerView::Struct { iset, .. } => t.at(f.allocated.shape).ty matches Type::User(
                UserType::Struct(st),
            ) ==> forall|i: int| 0 <= i < st.fields@.len() ==> #[trigger] iset.contains(i),
            TrackerView::Enum { variant_idx, data, .. } => t.at(f.allocated.shape).ty matches Type::User(
                UserType::Enum(e),
            ) && forall|i: int|
                0 <= i < e.variants@[variant_idx as int].fields@.len() ==> #[trigger] data.contains(i),
            _ => true,
        },
    ensures
        f.filled(t).frame == f,
        f.filled(t).ops.len() == 0,
        f.filled(t).result is Ok,
{
    reveal(FrameView::filled);
}

proof fn lemma_all_empty(runs: Seq<Seq<MemOp>>)
    requires
        forall|i: int| 0 <= i < runs.len() ==> (#[trigger] runs[i]).len() == 0,
    ensures
        runs.flatten() == Seq::<MemOp>::empty(),
    decreases runs.len(),
{
    if runs.len() > 0 {
        let less = runs.drop_last();
        assert(runs =~= less.push(runs.last()));
        less.lemma_flatten_push(runs.last());
        assert forall|i: int| 0 <= i < less.len() implies (#[trigger] less[i]).len() == 0 by {
            assert(runs[i].len() == 0);
        }
        lemma_all_empty(less);
        assert(runs[runs.len() - 1].len() == 0);
        assert(runs.flatten() =~= Seq::<MemOp>::empty());
    }
}

} // verus!
