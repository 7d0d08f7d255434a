//! What completing a struct or a variant by its field plans does: which fields get which defaults, and
//! which validators look where.
use vstd::prelude::*;

use crate::defaults::lemma_in_flattened;
use crate::error::ReflectErrorKind;
use crate::fill::{planned_default, planned_fill, validated, PlannedFill};
use crate::frame::FrameView;
use crate::iset::has_all;
use crate::memory::{Addr, HostView, MemOp, ValidateCall};
use crate::plan::{FieldDefault, FieldPlan, FillRule, TypePlanCore};
use crate::shape::{ShapeRef, Type, UserType};
use crate::tracker::TrackerView;

verus! {

/// The plan with this number is the first that speaks of a field which was left out.
spec fn is_first_missing(plans: Seq<FieldPlan>, all: bool, iset: Set<int>, i: int) -> bool {
    !all && !iset.contains(plans[i].index as int) && forall|j: int|
        0 <= j < i ==> (#[trigger] plans[j]).index != plans[i].index
}

/// The default for one field.
spec fn default_run(plans: Seq<FieldPlan>, at: Addr, all: bool, iset: Set<int>, i: int) -> Seq<MemOp> {
    if is_first_missing(plans, all, iset, i) {
        match plans[i].fill_rule {
            FillRule::Defaultable(FieldDefault::Custom(g)) => seq![
                MemOp::CallDefault { f: g, at: at.field(plans[i].offset) },
            ],
            FillRule::Defaultable(FieldDefault::FromTrait(s)) => seq![
                MemOp::DefaultInPlace { shape: s, at: at.field(plans[i].offset) },
            ],
            FillRule::Required => Seq::empty(),
        }
    } else {
        Seq::empty()
    }
}

/// The first `n` validators of one field.
spec fn validator_run(
    plan: TypePlanCore,
    plans: Seq<FieldPlan>,
    at: Addr,
    shape: ShapeRef,
    i: int,
    n: nat,
) -> Seq<MemOp> {
    Seq::new(
        n,
        |j: int|
            MemOp::Validate {
                call: ValidateCall {
                    f: plan.validators_in(plans[i].validators)[j],
                    at: at.field(plans[i].offset),
                    shape,
                },
            },
    )
}

spec fn plan_run(
    plan: TypePlanCore,
    plans: Seq<FieldPlan>,
    at: Addr,
    shape: ShapeRef,
    all: bool,
    iset: Set<int>,
    i: int,
) -> Seq<MemOp> {
    default_run(plans, at, all, iset, i) + validator_run(
        plan,
        plans,
        at,
        shape,
        i,
        plan.validators_in(plans[i].validators).len(),
    )
}

/// All validators that were called from position `from` on accepted.
spec fn all_accepted(h: HostView, from: nat) -> bool {
    forall|k: int|
        #![trigger h.trace[k]]
        from <= k < h.trace.len() ==> (h.trace[k] matches MemOp::Validate { call } ==> (
        h.oracle.validate)(h.trace.take(k), call) is Ok)
}

proof fn lemma_accepted_more(h: HostView, from: nat, op: MemOp)
    requires
        all_accepted(h, from),
        op matches MemOp::Validate { call } ==> (h.oracle.validate)(h.trace, call) is Ok,
    ensures
        all_accepted(h.after(op), from),
{
    let g = h.after(op);
    assert forall|k: int| #![trigger g.trace[k]] from <= k < g.trace.len() implies (
    g.trace[k] matches MemOp::Validate { call } ==> (g.oracle.validate)(g.trace.take(k), call) is Ok) by {
        if k < h.trace.len() {
            assert(g.trace.take(k) =~= h.trace.take(k));
            assert(g.trace[k] == h.trace[k]);
        } else {
            assert(g.trace.take(k) =~= h.trace);
        }
    }
}

/// Runs the validators of one field.
proof fn lemma_validated(
    plan: TypePlanCore,
    plans: Seq<FieldPlan>,
    i: int,
    at: Addr,
    shape: ShapeRef,
    p: PlannedFill,
    n: nat,
    from: nat,
)
    requires
        p.failed is None,
        all_accepted(p.host, from),
        n <= plan.validators_in(plans[i].validators).len(),
    ensures
        ({
            let fns = plan.validators_in(plans[i].validators);
            let q = validated(fns, plans[i], at.field(plans[i].offset), shape, p, n);
            &&& q.iset == p.iset
            &&& q.host.oracle == p.host.oracle
            &&& q.failed is None ==> {
                &&& q.host.trace == p.host.trace + validator_run(plan, plans, at, shape, i, n)
                &&& all_accepted(q.host, from)
            }
            &&& q.failed matches Some(e) ==> {
                &&& e is ValidationFailed
                &&& e->ValidationFailed_shape == shape
                &&& e->ValidationFailed_field_name == plans[i].name
                &&& exists|m: nat|
                    #![trigger validator_run(plan, plans, at, shape, i, m)]
                    {
                        &&& 0 < m <= n
                        &&& q.host.trace == p.host.trace + validator_run(plan, plans, at, shape, i, m)
                        &&& (p.host.oracle.validate)(
                            q.host.trace.drop_last(),
                            ValidateCall { f: fns[m - 1], at: at.field(plans[i].offset), shape },
                        ) == Err::<(), String>(e->ValidationFailed_message)
                        &&& all_accepted(
                            HostView { trace: q.host.trace.drop_last(), oracle: q.host.oracle },
                            from,
                        )
                    }
            }
        }),
    decreases n,
{
    let fns = plan.validators_in(plans[i].validators);
    if n == 0 {
        assert(validator_run(plan, plans, at, shape, i, 0) =~= Seq::empty());
        assert(p.host.trace + Seq::<MemOp>::empty() =~= p.host.trace);
    } else {
        let m = (n - 1) as nat;
        lemma_validated(plan, plans, i, at, shape, p, m, from);
        let q = validated(fns, plans[i], at.field(plans[i].offset), shape, p, m);
        let call = ValidateCall { f: fns[m as int], at: at.field(plans[i].offset), shape };
        if q.failed is None {
            let less = validator_run(plan, plans, at, shape, i, m);
            let run = validator_run(plan, plans, at, shape, i, n);
            assert(run =~= less.push(MemOp::Validate { call }));
            assert(q.host.trace.push(MemOp::Validate { call }) =~= p.host.trace + run);
            match q.host.validate(call) {
                Ok(_) => {
                    lemma_accepted_more(q.host, from, MemOp::Validate { call });
                },
                Err(_) => {
                    let after = q.host.trace.push(MemOp::Validate { call });
                    assert(after.drop_last() =~= q.host.trace);
                    assert(HostView { trace: after.drop_last(), oracle: q.host.oracle } == q.host);
                },
            }
        }
    }
}

/// All plans up to `n` were gone through, or one of them stopped it.
spec fn plans_done(
    plan: TypePlanCore,
    plans: Seq<FieldPlan>,
    at: Addr,
    shape: ShapeRef,
    all: bool,
    iset: Set<int>,
    n: nat,
) -> Seq<MemOp> {
    Seq::new(n, |i: int| plan_run(plan, plans, at, shape, all, iset, i)).flatten()
}

/// The plan speaks of a field that was left out and for which there is no default.
spec fn is_lacking(plan: TypePlanCore, plans: Seq<FieldPlan>, all: bool, iset: Set<int>, i: int) -> bool {
    is_first_missing(plans, all, iset, i) && match plans[i].fill_rule {
        FillRule::Required => true,
        FillRule::Defaultable(FieldDefault::Custom(_)) => false,
        FillRule::Defaultable(FieldDefault::FromTrait(s)) => !plan.shapes.can_default(s),
    }
}

proof fn lemma_planned(
    plan: TypePlanCore,
    plans: Seq<FieldPlan>,
    at: Addr,
    shape: ShapeRef,
    all: bool,
    iset: Set<int>,
    h: HostView,
    n: nat,
)
    requires
        n <= plans.len(),
    ensures
        ({
            let p0 = PlannedFill { iset, host: h, failed: None };
            let q = planned_fill(plan, plans, at, shape, all, p0, n);
            let from = h.trace.len();
            &&& q.host.oracle == h.oracle
            &&& q.failed is None ==> {
                &&& q.host.trace == h.trace + plans_done(plan, plans, at, shape, all, iset, n)
                &&& all_accepted(q.host, from)
                &&& forall|i: int| 0 <= i < n ==> !#[trigger] is_lacking(plan, plans, all, iset, i)
                &&& forall|x: int| #[trigger]
                    q.iset.contains(x) <==> iset.contains(x) || (!all && exists|i: int|
                        0 <= i < n && (#[trigger] plans[i]).index == x)
            }
            &&& q.failed matches Some(e) ==> exists|k: int|
                #![trigger plans[k]]
                0 <= k < n && stopped_at(plan, plans, at, shape, all, iset, h, q.host, e, k)
        }),
    decreases n,
{
    let p0 = PlannedFill { iset, host: h, failed: None };
    let from = h.trace.len();
    let run = |i: int| plan_run(plan, plans, at, shape, all, iset, i);
    if n == 0 {
        assert(Seq::new(n, run) =~= Seq::empty());
        assert(h.trace + Seq::<MemOp>::empty() =~= h.trace);
    } else {
        let m = (n - 1) as nat;
        lemma_planned(plan, plans, at, shape, all, iset, h, m);
        let q = planned_fill(plan, plans, at, shape, all, p0, m);
        if q.failed is Some {
            let k = choose|k: int|
                #![trigger plans[k]]
                0 <= k < m && stopped_at(
                    plan,
                    plans,
                    at,
                    shape,
                    all,
                    iset,
                    h,
                    q.host,
                    q.failed->0,
                    k,
                );
            assert(0 <= k < n);
        } else {
            let field = plans[m as int];
            let place = at.field(field.offset);
            let missing = !all && !q.iset.contains(field.index as int);
            assert(missing == is_first_missing(plans, all, iset, m as int)) by {
                if !all && !iset.contains(field.index as int) {
                    if exists|j: int| 0 <= j < m && (#[trigger] plans[j]).index == field.index as int {
                        let j = choose|j: int|
                            0 <= j < m && (#[trigger] plans[j]).index == field.index as int;
                        assert(plans[j].index == field.index);
                    }
                }
            }
            let d = if missing {
                planned_default(plan.shapes, field, place, shape, q)
            } else {
                q
            };
            let written = default_run(plans, at, all, iset, m as int);
            let done = plans_done(plan, plans, at, shape, all, iset, m);
            assert(h.trace + done + Seq::<MemOp>::empty() =~= h.trace + done);
            if d.failed is Some {
                assert(is_lacking(plan, plans, all, iset, m as int));
                assert(stopped_at(
                    plan,
                    plans,
                    at,
                    shape,
                    all,
                    iset,
                    h,
                    d.host,
                    d.failed->0,
                    m as int,
                ));
            } else {
                assert(d.host.trace =~= h.trace + done + written);
                if written.len() > 0 {
                    lemma_accepted_more(q.host, from, written[0]);
                    assert(d.host == q.host.after(written[0]));
                } else {
                    assert(d.host == q.host);
                }
                let fns = plan.validators_in(field.validators);
                lemma_validated(plan, plans, m as int, at, shape, d, fns.len(), from);
                let r = validated(fns, field, place, shape, d, fns.len());
                if r.failed is None {
                    Seq::new(m, run).lemma_flatten_push(run(m as int));
                    assert(Seq::new(n, run) =~= Seq::new(m, run).push(run(m as int)));
                    assert(r.host.trace =~= h.trace + plans_done(
                        plan,
                        plans,
                        at,
                        shape,
                        all,
                        iset,
                        n,
                    ));
                    assert(!is_lacking(plan, plans, all, iset, m as int));
                    assert forall|x: int| #[trigger]
                        r.iset.contains(x) <==> iset.contains(x) || (!all && exists|i: int|
                            0 <= i < n && (#[trigger] plans[i]).index == x) by {
                        if !all && q.iset.contains(x) && !iset.contains(x) {
                            let i = choose|i: int| 0 <= i < m && (#[trigger] plans[i]).index == x;
                            assert(plans[i].index == x);
                        }
                        if !all && x == field.index {
                            assert(plans[m as int].index == x);
                        }
                    }
                } else {
                    let e = r.failed->0;
                    assert(stopped_at(plan, plans, at, shape, all, iset, h, r.host, e, m as int));
                }
            }
        }
    }
}

/// What holds where the plan with number `k` stopped it.
spec fn stopped_at(
    plan: TypePlanCore,
    plans: Seq<FieldPlan>,
    at: Addr,
    shape: ShapeRef,
    all: bool,
    iset: Set<int>,
    h: HostView,
    after: HostView,
    e: ReflectErrorKind,
    k: int,
) -> bool {
    let done = plans_done(plan, plans, at, shape, all, iset, k as nat);
    let fns = plan.validators_in(plans[k].validators);
    &&& forall|i: int| 0 <= i < k ==> !#[trigger] is_lacking(plan, plans, all, iset, i)
    &&& if is_lacking(plan, plans, all, iset, k) {
        &&& e == (ReflectErrorKind::UninitializedField { shape, field_name: plans[k].name })
        &&& after.trace == h.trace + done
        &&& all_accepted(after, h.trace.len())
    } else {
        &&& e is ValidationFailed
        &&& e->ValidationFailed_shape == shape
        &&& e->ValidationFailed_field_name == plans[k].name
        &&& exists|m: nat|
            #![trigger validator_run(plan, plans, at, shape, k, m)]
            {
                &&& 0 < m <= fns.len()
                &&& after.trace == h.trace + done + default_run(plans, at, all, iset, k)
                    + validator_run(plan, plans, at, shape, k, m)
                &&& (h.oracle.validate)(
                    after.trace.drop_last(),
                    ValidateCall { f: fns[m - 1], at: at.field(plans[k].offset), shape },
                ) == Err::<(), String>(e->ValidationFailed_message)
                &&& all_accepted(
                    HostView { trace: after.trace.drop_last(), oracle: after.oracle },
                    h.trace.len(),
                )
            }
    }
}

/// Completing by plans is what goes through the plans.
proof fn lemma_by_plans(
    f: FrameView,
    plan: TypePlanCore,
    plans: Seq<FieldPlan>,
    num_fields: usize,
    iset: Set<int>,
    h: HostView,
)
    requires
        match f.tracker {
            TrackerView::Struct { iset: s, .. } => s == iset,
            TrackerView::Enum { data, .. } => data == iset,
            TrackerView::Scalar => !f.is_init && iset == Set::<int>::empty() && (plan.shapes.at(
                f.allocated.shape,
            ).ty matches Type::User(UserType::Struct(_))) && !plan.shapes.at(
                f.allocated.shape,
            ).type_ops.default_in_place,
            _ => false,
        },
    ensures
        ({
            let r = f.fill_and_require(plan, plans, num_fields, h);
            let all = has_all(iset, num_fields as int);
            let p0 = PlannedFill { iset, host: h, failed: None };
            let q = planned_fill(
                plan,
                plans,
                f.data.addr,
                f.allocated.shape,
                all,
                p0,
                plans.len(),
            );
            &&& r.host == q.host
            &&& r.result is Ok <==> q.failed is None
            &&& r.result matches Err(e) ==> q.failed == Some(e)
            &&& r.frame == (FrameView {
                tracker: match f.tracker {
                    TrackerView::Enum { variant_idx, current_child, .. } => TrackerView::Enum {
                        variant_idx,
                        data: q.iset,
                        current_child,
                    },
                    TrackerView::Struct { current_child, .. } => TrackerView::Struct {
                        iset: q.iset,
                        current_child,
                    },
                    _ => TrackerView::Struct { iset: q.iset, current_child: None },
                },
                ..f
            })
        }),
{
    reveal(FrameView::fill_and_require);
}

/// Completing a struct or variant by its field plans succeeds exactly after this: for each plan, in
/// order, the field that was left out got the default that its plan names, at its own place, and
/// then all validators of the field were called on that place, in order, and each accepted. No
/// field was left out that has no default. Afterwards the fields that were set are set, and those
/// that the plans speak of. Nothing is filled in unless some field is missing.
pub proof fn law_fields_are_filled_and_validated(
    f: FrameView,
    plan: TypePlanCore,
    plans: Seq<FieldPlan>,
    num_fields: usize,
    iset: Set<int>,
    some: bool,
    h: HostView,
)
    requires
        some <==> exists|i: int| 0 <= i < num_fields && !#[trigger] iset.contains(i),
        match f.tracker {
            TrackerView::Struct { iset: s, .. } => s == iset,
            TrackerView::Enum { data, .. } => data == iset,
            TrackerView::Scalar => !f.is_init && iset == Set::<int>::empty() && (plan.shapes.at(
                f.allocated.shape,
            ).ty matches Type::User(UserType::Struct(_))) && !plan.shapes.at(
                f.allocated.shape,
            ).type_ops.default_in_place,
            _ => false,
        },
        f.fill_and_require(plan, plans, num_fields, h).result is Ok,
    ensures
        ({
            let r = f.fill_and_require(plan, plans, num_fields, h);
            let at = f.data.addr;
            let shape = f.allocated.shape;
            let left_out = |i: int|
                some && !iset.contains(plans[i].index as int) && forall|j: int|
                    0 <= j < i ==> (#[trigger] plans[j]).index != plans[i].index;
            let lacking = |i: int|
                left_out(i) && match plans[i].fill_rule {
                    FillRule::Required => true,
                    FillRule::Defaultable(FieldDefault::Custom(_)) => false,
                    FillRule::Defaultable(FieldDefault::FromTrait(s)) => !plan.shapes.at(
                        s,
                    ).type_ops.default_in_place,
                };
            &&& forall|i: int| 0 <= i < plans.len() ==> !#[trigger] lacking(i)
            &&& r.host.oracle == h.oracle
            &&& r.host.trace == h.trace + Seq::new(
                plans.len(),
                |i: int|
                    (if left_out(i) {
                        match plans[i].fill_rule {
                            FillRule::Defaultable(FieldDefault::Custom(g)) => seq![
                                MemOp::CallDefault { f: g, at: at.field(plans[i].offset) },
                            ],
                            FillRule::Defaultable(FieldDefault::FromTrait(s)) => seq![
                                MemOp::DefaultInPlace { shape: s, at: at.field(plans[i].offset) },
                            ],
                            FillRule::Required => Seq::empty(),
                        }
                    } else {
                        Seq::empty()
                    }) + Seq::new(
                        plan.validator_fns@.subrange(
                            plans[i].validators.start as int,
                            plans[i].validators.start + plans[i].validators.len,
                        ).len(),
                        |j: int|
                            MemOp::Validate {
                                call: ValidateCall {
                                    f: plan.validator_fns@.subrange(
                                        plans[i].validators.start as int,
                                        plans[i].validators.start + plans[i].validators.len,
                                    )[j],
                                    at: at.field(plans[i].offset),
                                    shape,
                                },
                            },
                    ),
            ).flatten()
            &&& forall|k: int|
                #![trigger r.host.trace[k]]
                h.trace.len() <= k < r.host.trace.len() ==> (
                r.host.trace[k] matches MemOp::Validate { call } ==> (h.oracle.validate)(
                    r.host.trace.take(k),
                    call,
                ) is Ok)
            &&& match r.frame.tracker {
                TrackerView::Struct { iset: after, .. } => forall|x: int| #[trigger]
                    after.contains(x) <==> iset.contains(x) || (some && exists|i: int|
                        0 <= i < plans.len() && (#[trigger] plans[i]).index == x),
                TrackerView::Enum { data: after, .. } => forall|x: int| #[trigger]
                    after.contains(x) <==> iset.contains(x) || (some && exists|i: int|
                        0 <= i < plans.len() && (#[trigger] plans[i]).index == x),
                _ => false,
            }
            &&& f.same_frame(r.frame)
            &&& r.frame.is_init == f.is_init
            &&& f.tracker matches TrackerView::Enum { variant_idx, .. } ==> (
            r.frame.tracker matches TrackerView::Enum { variant_idx: v, .. } && v == variant_idx)
            &&& !(f.tracker is Enum) ==> r.frame.tracker is Struct
        }),
{
    let r = f.fill_and_require(plan, plans, num_fields, h);
    let at = f.data.addr;
    let shape = f.allocated.shape;
    let n = plans.len();
    lemma_by_plans(f, plan, plans, num_fields, iset, h);
    lemma_planned(plan, plans, at, shape, has_all(iset, num_fields as int), iset, h, n);
    let left_out = |i: int|
        some && !iset.contains(plans[i].index as int) && forall|j: int|
            0 <= j < i ==> (#[trigger] plans[j]).index != plans[i].index;
    let lacking = |i: int|
        left_out(i) && match plans[i].fill_rule {
            FillRule::Required => true,
            FillRule::Defaultable(FieldDefault::Custom(_)) => false,
            FillRule::Defaultable(FieldDefault::FromTrait(s)) => !plan.shapes.at(
                s,
            ).type_ops.default_in_place,
        };
    let all = has_all(iset, num_fields as int);
    assert(some == !all);
    assert forall|i: int| 0 <= i < n implies #[trigger] lacking(i) == is_lacking(
        plan,
        plans,
        all,
        iset,
        i,
    ) by {
        assert(left_out(i) == is_first_missing(plans, all, iset, i));
    }
    let stated = Seq::new(
        plans.len(),
        |i: int|
            (if left_out(i) {
                match plans[i].fill_rule {
                    FillRule::Defaultable(FieldDefault::Custom(g)) => seq![
                        MemOp::CallDefault { f: g, at: at.field(plans[i].offset) },
                    ],
                    FillRule::Defaultable(FieldDefault::FromTrait(s)) => seq![
                        MemOp::DefaultInPlace { shape: s, at: at.field(plans[i].offset) },
                    ],
                    FillRule::Required => Seq::empty(),
                }
            } else {
                Seq::empty()
            }) + Seq::new(
                plan.validator_fns@.subrange(
                    plans[i].validators.start as int,
                    plans[i].validators.start + plans[i].validators.len,
                ).len(),
                |j: int|
                    MemOp::Validate {
                        call: ValidateCall {
                            f: plan.validator_fns@.subrange(
                                plans[i].validators.start as int,
                                plans[i].validators.start + plans[i].validators.len,
                            )[j],
                            at: at.field(plans[i].offset),
                            shape,
                        },
                    },
            ),
    );
    assert forall|i: int| 0 <= i < n implies stated[i] =~= plan_run(
        plan,
        plans,
        at,
        shape,
        all,
        iset,
        i,
    ) by {
        assert(left_out(i) == is_first_missing(plans, all, iset, i));
    }
    assert(stated =~= Seq::new(n, |i: int| plan_run(plan, plans, at, shape, all, iset, i)));
}

/// Completing a struct or variant by its field plans fails in two ways only. A field was left out
/// that has no default: the error names that field, and all validators that were called before
/// accepted. Or a validator of a field refused that field, at its own place: that call was the last
/// thing done, the error names the field and carries the answer, and all validators before
/// accepted.
pub proof fn law_why_fields_are_refused(
    f: FrameView,
    plan: TypePlanCore,
    plans: Seq<FieldPlan>,
    num_fields: usize,
    iset: Set<int>,
    some: bool,
    h: HostView,
)
    requires
        some <==> exists|i: int| 0 <= i < num_fields && !#[trigger] iset.contains(i),
        match f.tracker {
            TrackerView::Struct { iset: s, .. } => s == iset,
            TrackerView::Enum { data, .. } => data == iset,
            TrackerView::Scalar => !f.is_init && iset == Set::<int>::empty() && (plan.shapes.at(
                f.allocated.shape,
            ).ty matches Type::User(UserType::Struct(_))) && !plan.shapes.at(
                f.allocated.shape,
            ).type_ops.default_in_place,
            _ => false,
        },
        forall|i: int|
            #![trigger plans[i]]
            0 <= i < plans.len() ==> plans[i].validators.start + plans[i].validators.len
                <= plan.validator_fns@.len(),
        f.fill_and_require(plan, plans, num_fields, h).result is Err,
    ensures
        ({
            let r = f.fill_and_require(plan, plans, num_fields, h);
            let at = f.data.addr;
            let shape = f.allocated.shape;
            let left_out = |i: int|
                some && !iset.contains(plans[i].index as int) && forall|j: int|
                    0 <= j < i ==> (#[trigger] plans[j]).index != plans[i].index;
            let lacking = |i: int|
                left_out(i) && match plans[i].fill_rule {
                    FillRule::Required => true,
                    FillRule::Defaultable(FieldDefault::Custom(_)) => false,
                    FillRule::Defaultable(FieldDefault::FromTrait(s)) => !plan.shapes.at(
                        s,
                    ).type_ops.default_in_place,
                };
            let e = r.result->Err_0;
            let trace = r.host.trace;
            &&& r.host.oracle == h.oracle
            &&& e is UninitializedField || e is ValidationFailed
            &&& e is UninitializedField ==> {
                &&& exists|k: int|
                    0 <= k < plans.len() && #[trigger] lacking(k) && e
                        == (ReflectErrorKind::UninitializedField {
                        shape,
                        field_name: plans[k].name,
                    }) && forall|i: int| 0 <= i < k ==> !#[trigger] lacking(i)
                &&& forall|k: int|
                    #![trigger trace[k]]
                    h.trace.len() <= k < trace.len() ==> (
                    trace[k] matches MemOp::Validate { call } ==> (h.oracle.validate)(
                        trace.take(k),
                        call,
                    ) is Ok)
            }
            &&& e is ValidationFailed ==> {
                &&& trace.len() > h.trace.len()
                &&& exists|k: int, m: int|
                    #![trigger plans[k], plan.validator_fns@[m]]
                    {
                        let call = ValidateCall {
                            f: plan.validator_fns@[m],
                            at: at.field(plans[k].offset),
                            shape,
                        };
                        &&& 0 <= k < plans.len()
                        &&& plans[k].validators.start <= m < plans[k].validators.start
                            + plans[k].validators.len
                        &&& trace.last() == (MemOp::Validate { call })
                        &&& (h.oracle.validate)(trace.drop_last(), call) is Err
                        &&& e == (ReflectErrorKind::ValidationFailed {
                            shape,
                            field_name: plans[k].name,
                            message: (h.oracle.validate)(trace.drop_last(), call)->Err_0,
                        })
                        &&& forall|i: int| 0 <= i <= k ==> !#[trigger] lacking(i)
                    }
                &&& forall|k: int|
                    #![trigger trace[k]]
                    h.trace.len() <= k < trace.len() - 1 ==> (
                    trace[k] matches MemOp::Validate { call } ==> (h.oracle.validate)(
                        trace.take(k),
                        call,
                    ) is Ok)
            }
        }),
{
    let r = f.fill_and_require(plan, plans, num_fields, h);
    let at = f.data.addr;
    let shape = f.allocated.shape;
    let n = plans.len();
    lemma_by_plans(f, plan, plans, num_fields, iset, h);
    lemma_planned(plan, plans, at, shape, has_all(iset, num_fields as int), iset, h, n);
    let left_out = |i: int|
        some && !iset.contains(plans[i].index as int) && forall|j: int|
            0 <= j < i ==> (#[trigger] plans[j]).index != plans[i].index;
    let lacking = |i: int|
        left_out(i) && match plans[i].fill_rule {
            FillRule::Required => true,
            FillRule::Defaultable(FieldDefault::Custom(_)) => false,
            FillRule::Defaultable(FieldDefault::FromTrait(s)) => !plan.shapes.at(
                s,
            ).type_ops.default_in_place,
        };
    let e = r.result->Err_0;
    let all = has_all(iset, num_fields as int);
    assert(some == !all);
    assert forall|i: int| 0 <= i < n implies #[trigger] lacking(i) == is_lacking(
        plan,
        plans,
        all,
        iset,
        i,
    ) by {
        assert(left_out(i) == is_first_missing(plans, all, iset, i));
    }
    let k = choose|k: int|
        #![trigger plans[k]]
        0 <= k < n && stopped_at(plan, plans, at, shape, all, iset, h, r.host, e, k);
    assert(lacking(k) == is_lacking(plan, plans, all, iset, k));
    if !lacking(k) {
        let range = plans[k].validators;
        let m = choose|m: nat|
            #![trigger validator_run(plan, plans, at, shape, k, m)]
            {
                &&& 0 < m <= plan.validators_in(range).len()
                &&& r.host.trace == h.trace + plans_done(plan, plans, at, shape, all, iset, k as nat)
                    + default_run(plans, at, all, iset, k) + validator_run(
                    plan,
                    plans,
                    at,
                    shape,
                    k,
                    m,
                )
                &&& (h.oracle.validate)(
                    r.host.trace.drop_last(),
                    ValidateCall {
                        f: plan.validators_in(range)[m - 1],
                        at: at.field(plans[k].offset),
                        shape,
                    },
                ) == Err::<(), String>(e->ValidationFailed_message)
                &&& all_accepted(
                    HostView { trace: r.host.trace.drop_last(), oracle: r.host.oracle },
                    h.trace.len(),
                )
            };
        let before = r.host.trace.drop_last();
        let call = ValidateCall {
            f: plan.validators_in(range)[m - 1],
            at: at.field(plans[k].offset),
            shape,
        };
        assert(r.host.trace.last() == MemOp::Validate { call });
        assert(r.host.trace.len() > h.trace.len());
        assert forall|k: int|
            #![trigger r.host.trace[k]]
            h.trace.len() <= k < r.host.trace.len() - 1 implies (
        r.host.trace[k] matches MemOp::Validate { call } ==> (h.oracle.validate)(
            r.host.trace.take(k),
            call,
        ) is Ok) by {
            assert(before[k] == r.host.trace[k]);
            assert(before.take(k) =~= r.host.trace.take(k));
        }
        assert(plans[k].validators.start + plans[k].validators.len <= plan.validator_fns@.len());
        assert(call.f == plan.validator_fns@[range.start + m - 1]);
        assert(forall|i: int| 0 <= i < k ==> !#[trigger] lacking(i));
    }
}

/// An operation is a validator of one of the first `n` plans, called on the field of that plan.
spec fn is_own_check(
    plan: TypePlanCore,
    plans: Seq<FieldPlan>,
    at: Addr,
    shape: ShapeRef,
    n: nat,
    call: ValidateCall,
) -> bool {
    exists|i: int, j: int|
        #![trigger plans[i], plan.validators_in(plans[i].validators)[j]]
        0 <= i < n && 0 <= j < plan.validators_in(plans[i].validators).len() && call
            == (ValidateCall {
            f: plan.validators_in(plans[i].validators)[j],
            at: at.field(plans[i].offset),
            shape,
        })
}

/// All validators called from position `from` on are those of the first `n` plans.
spec fn are_own_checks(
    plan: TypePlanCore,
    plans: Seq<FieldPlan>,
    at: Addr,
    shape: ShapeRef,
    n: nat,
    h: HostView,
    from: nat,
) -> bool {
    forall|k: int|
        #![trigger h.trace[k]]
        from <= k < h.trace.len() ==> (h.trace[k] matches MemOp::Validate { call } ==> is_own_check(
            plan,
            plans,
            at,
            shape,
            n,
            call,
        ))
}

proof fn lemma_own_checks_of_field(
    plan: TypePlanCore,
    plans: Seq<FieldPlan>,
    at: Addr,
    shape: ShapeRef,
    p: PlannedFill,
    i: int,
    n: nat,
    from: nat,
)
    requires
        0 <= i < plans.len(),
        n <= plan.validators_in(plans[i].validators).len(),
        are_own_checks(plan, plans, at, shape, (i + 1) as nat, p.host, from),
    ensures
        ({
            let fns = plan.validators_in(plans[i].validators);
            let q = validated(fns, plans[i], at.field(plans[i].offset), shape, p, n);
            are_own_checks(plan, plans, at, shape, (i + 1) as nat, q.host, from)
        }),
    decreases n,
{
    if n > 0 {
        lemma_own_checks_of_field(plan, plans, at, shape, p, i, (n - 1) as nat, from);
        let fns = plan.validators_in(plans[i].validators);
        let call = ValidateCall { f: fns[n - 1], at: at.field(plans[i].offset), shape };
        assert(is_own_check(plan, plans, at, shape, (i + 1) as nat, call));
    }
}

proof fn lemma_own_checks(
    plan: TypePlanCore,
    plans: Seq<FieldPlan>,
    at: Addr,
    shape: ShapeRef,
    all: bool,
    p: PlannedFill,
    n: nat,
)
    requires
        n <= plans.len(),
    ensures
        are_own_checks(
            plan,
            plans,
            at,
            shape,
            n,
            planned_fill(plan, plans, at, shape, all, p, n).host,
            p.host.trace.len(),
        ),
    decreases n,
{
    if n > 0 {
        let m = (n - 1) as nat;
        let from = p.host.trace.len();
        lemma_own_checks(plan, plans, at, shape, all, p, m);
        let q = planned_fill(plan, plans, at, shape, all, p, m);
        let field = plans[m as int];
        let place = at.field(field.offset);
        let d = planned_default(plan.shapes, field, place, shape, q);
        assert forall|call: ValidateCall| #[trigger]
            is_own_check(plan, plans, at, shape, m, call) implies is_own_check(
            plan,
            plans,
            at,
            shape,
            n,
            call,
        ) by {
            let (i, j) = choose|i: int, j: int|
                #![trigger plans[i], plan.validators_in(plans[i].validators)[j]]
                0 <= i < m && 0 <= j < plan.validators_in(plans[i].validators).len() && call
                    == (ValidateCall {
                    f: plan.validators_in(plans[i].validators)[j],
                    at: at.field(plans[i].offset),
                    shape,
                });
            assert(call.f == plan.validators_in(plans[i].validators)[j]);
        }
        assert(are_own_checks(plan, plans, at, shape, n, q.host, from));
        assert(are_own_checks(plan, plans, at, shape, n, d.host, from));
        let fns = plan.validators_in(field.validators);
        lemma_own_checks_of_field(plan, plans, at, shape, q, m as int, fns.len(), from);
        lemma_own_checks_of_field(plan, plans, at, shape, d, m as int, fns.len(), from);
    }
}

/// Validators look at their own fields: whatever comes of it, every validator that completing a
/// value by its field plans calls is one of some plan, and is called where the field of that plan
/// lies. Where it succeeds, every validator of every plan was called there.
pub proof fn law_validators_look_at_their_own_fields(
    f: FrameView,
    plan: TypePlanCore,
    plans: Seq<FieldPlan>,
    num_fields: usize,
    h: HostView,
)
    requires
        forall|i: int|
            #![trigger plans[i]]
            0 <= i < plans.len() ==> plans[i].validators.start + plans[i].validators.len
                <= plan.validator_fns@.len(),
    ensures
        ({
            let r = f.fill_and_require(plan, plans, num_fields, h);
            let shape = f.allocated.shape;
            &&& forall|k: int|
                #![trigger r.host.trace[k]]
                h.trace.len() <= k < r.host.trace.len() ==> (
                r.host.trace[k] matches MemOp::Validate { call } ==> exists|i: int, j: int|
                    #![trigger plans[i], plan.validator_fns@[j]]
                    {
                        &&& 0 <= i < plans.len()
                        &&& plans[i].validators.start <= j < plans[i].validators.start
                            + plans[i].validators.len
                        &&& call == (ValidateCall {
                            f: plan.validator_fns@[j],
                            at: f.data.addr.field(plans[i].offset),
                            shape,
                        })
                    })
            &&& f.tracker is Struct || f.tracker is Enum ==> (r.result is Ok ==> forall|i: int, j: int|
                #![trigger plans[i], plan.validator_fns@[j]]
                0 <= i < plans.len() && plans[i].validators.start <= j < plans[i].validators.start
                    + plans[i].validators.len ==> r.host.trace.skip(h.trace.len() as int).contains(
                    MemOp::Validate {
                        call: ValidateCall {
                            f: plan.validator_fns@[j],
                            at: f.data.addr.field(plans[i].offset),
                            shape,
                        },
                    },
                ))
        }),
{
    reveal(FrameView::fill_and_require);
    let r = f.fill_and_require(plan, plans, num_fields, h);
    let shape = f.allocated.shape;
    let at = f.data.addr;
    let iset = match f.tracker {
        TrackerView::Struct { iset, .. } => iset,
        TrackerView::Enum { data, .. } => data,
        _ => Set::empty(),
    };
    let all = has_all(iset, num_fields as int);
    let p0 = PlannedFill { iset, host: h, failed: None };
    lemma_own_checks(plan, plans, at, shape, all, p0, plans.len());
    assert forall|k: int|
        #![trigger r.host.trace[k]]
        h.trace.len() <= k < r.host.trace.len() implies (
    r.host.trace[k] matches MemOp::Validate { call } ==> exists|i: int, j: int|
        #![trigger plans[i], plan.validator_fns@[j]]
        {
            &&& 0 <= i < plans.len()
            &&& plans[i].validators.start <= j < plans[i].validators.start + plans[i].validators.len
            &&& call == (ValidateCall {
                f: plan.validator_fns@[j],
                at: f.data.addr.field(plans[i].offset),
                shape,
            })
        }) by {
        if let MemOp::Validate { call } = r.host.trace[k] {
            assert(is_own_check(plan, plans, at, shape, plans.len(), call));
            let (i, j) = choose|i: int, j: int|
                #![trigger plans[i], plan.validators_in(plans[i].validators)[j]]
                0 <= i < plans.len() && 0 <= j < plan.validators_in(plans[i].validators).len() && call
                    == (ValidateCall {
                    f: plan.validators_in(plans[i].validators)[j],
                    at: at.field(plans[i].offset),
                    shape,
                });
            assert(call.f == plan.validator_fns@[plans[i].validators.start + j]);
        }
    }
    if (f.tracker is Struct || f.tracker is Enum) && r.result is Ok {
        lemma_by_plans(f, plan, plans, num_fields, iset, h);
        lemma_planned(plan, plans, at, shape, all, iset, h, plans.len());
        let runs = Seq::new(
            plans.len(),
            |i: int| plan_run(plan, plans, at, shape, all, iset, i),
        );
        assert(r.host.trace.skip(h.trace.len() as int) =~= runs.flatten());
        assert forall|i: int, j: int|
            #![trigger plans[i], plan.validator_fns@[j]]
            0 <= i < plans.len() && plans[i].validators.start <= j < plans[i].validators.start
                + plans[i].validators.len implies r.host.trace.skip(h.trace.len() as int).contains(
            MemOp::Validate {
                call: ValidateCall {
                    f: plan.validator_fns@[j],
                    at: f.data.addr.field(plans[i].offset),
                    shape,
                },
            },
        ) by {
            let x = MemOp::Validate {
                call: ValidateCall {
                    f: plan.validator_fns@[j],
                    at: f.data.addr.field(plans[i].offset),
                    shape,
                },
            };
            let first = default_run(plans, at, all, iset, i);
            assert(runs[i][first.len() + (j - plans[i].validators.start)] == x);
            lemma_in_flattened(runs, i, x);
        }
    }
}

/// A struct of which nothing was set, and that has a default of its own, takes that, and no plan is
/// gone through. A value that was written as a whole, and one that has no fields, is left alone.
pub proof fn law_plans_leave_whole_values_alone(
    f: FrameView,
    plan: TypePlanCore,
    plans: Seq<FieldPlan>,
    num_fields: usize,
    h: HostView,
)
    requires
        !(f.tracker is Struct),
        !(f.tracker is Enum),
    ensures
        ({
            let r = f.fill_and_require(plan, plans, num_fields, h);
            let shape = f.allocated.shape;
            let is_struct = plan.shapes.at(shape).ty matches Type::User(UserType::Struct(_));
            let untouched = !f.is_init && f.tracker is Scalar && is_struct;
            &&& untouched && plan.shapes.at(shape).type_ops.default_in_place ==> {
                &&& r.result is Ok
                &&& r.host.trace == h.trace.push(
                    MemOp::DefaultInPlace { shape, at: f.data.addr },
                )
                &&& r.host.oracle == h.oracle
                &&& r.frame == (FrameView { is_init: true, ..f })
            }
            &&& !untouched ==> r.result is Ok && r.host == h && r.frame == f
        }),
{
    reveal(FrameView::fill_and_require);
    let shape = f.allocated.shape;
    assert(h.trace + seq![MemOp::DefaultInPlace { shape, at: f.data.addr }] =~= h.trace.push(
        MemOp::DefaultInPlace { shape, at: f.data.addr },
    ));
}

} // verus!
