//! Giving fields that were left out their defaults.
use vstd::prelude::*;

use crate::error::ReflectErrorKind;
use crate::finish::FrameOutcome;
use crate::frame::{Frame, FrameView};
use crate::iset::{has_all, has_none, ISet};
use crate::memory::{Addr, FnRef, Host, HostView, MemOp, PtrUninit, ValidateCall};
use crate::plan::{FieldDefault, FieldPlan, FillRule, TypePlanCore};
use crate::shape::{Def, DefaultSource, Field, ShapeRef, ShapeTable};
use crate::tracker::{Tracker, TrackerView};

verus! {

/// A field that was left out takes the default of its type: because the field or the container
/// asks for it, or because the type has an obvious empty value.
pub open spec fn takes_type_default(
    t: ShapeTable,
    field: Field,
    container_has_default: bool,
) -> bool {
    ||| field.default is Some
    ||| container_has_default
    ||| field.shape == t.unit_shape
    ||| match t.at(field.shape).def {
        Def::Option(_) | Def::List(_) | Def::MapOf(_) | Def::SetOf(_) => true,
        _ => false,
    }
}

/// Operations that give a field its default value, if it has one.
pub open spec fn field_default_ops(
    t: ShapeTable,
    field: Field,
    at: Addr,
    container_has_default: bool,
) -> Option<Seq<MemOp>> {
    match field.default {
        Some(DefaultSource::Custom(f)) => Some(seq![MemOp::CallDefault { f, at }]),
        _ => if t.can_default(field.shape) && takes_type_default(t, field, container_has_default) {
            Some(seq![MemOp::DefaultInPlace { shape: field.shape, at }])
        } else {
            None
        },
    }
}

/// How far filling in defaults has come.
#[verifier::ext_equal]
pub struct Fill {
    /// The fields that are initialized by now.
    pub iset: Set<int>,
    /// What was done for it.
    pub ops: Seq<MemOp>,
    /// The type of a field that asks for a default its type does not have; nothing follows it.
    pub failed: Option<ShapeRef>,
}

/// Defaults for those of the first `n` fields that are not initialized, in order.
pub open spec fn fill_fields(
    t: ShapeTable,
    fields: Seq<Field>,
    at: Addr,
    container_has_default: bool,
    iset: Set<int>,
    n: nat,
) -> Fill
    decreases n,
{
    if n == 0 {
        Fill { iset, ops: Seq::empty(), failed: None }
    } else {
        let p = fill_fields(t, fields, at, container_has_default, iset, (n - 1) as nat);
        let field = fields[n - 1];
        if p.failed is Some || p.iset.contains(n - 1) {
            p
        } else {
            match field_default_ops(t, field, at.field(field.offset), container_has_default) {
                Some(ops) => Fill { iset: p.iset.insert(n - 1), ops: p.ops + ops, failed: None },
                None => if field.default is Some {
                    Fill { failed: Some(field.shape), ..p }
                } else {
                    p
                },
            }
        }
    }
}

impl FrameView {
    /// The whole value was written at once, as the default of its type.
    pub open spec fn defaulted(self) -> FrameOutcome {
        FrameOutcome {
            frame: FrameView { tracker: TrackerView::Scalar, is_init: true, ..self },
            ops: seq![MemOp::DefaultInPlace { shape: self.shape(), at: self.data.addr }],
            result: Ok(()),
        }
    }

    /// The frame with defaults for the fields that its tracker knows to be missing.
    pub open spec fn filled_fields(self, t: ShapeTable) -> FrameOutcome {
        let container = t.at(self.shape()).default_attr;
        let nothing = FrameOutcome { frame: self, ops: Seq::empty(), result: Ok(()) };
        match self.tracker {
            TrackerView::Struct { iset, current_child } => if t.is_struct(self.shape()) {
                let fields = t.struct_fields(self.shape());
                if has_all(iset, fields.len() as int) {
                    nothing
                } else if has_none(iset, fields.len() as int) && t.can_default(self.shape()) {
                    self.defaulted()
                } else {
                    let fill = fill_fields(t, fields, self.data.addr, container, iset, fields.len());
                    FrameOutcome {
                        frame: FrameView {
                            tracker: TrackerView::Struct { iset: fill.iset, current_child },
                            ..self
                        },
                        ops: fill.ops,
                        result: fill_result(fill),
                    }
                }
            } else {
                nothing
            },
            TrackerView::Enum { variant_idx, data, current_child } => {
                let fields = t.variant_fields(self.shape(), variant_idx);
                if has_all(data, fields.len() as int) {
                    nothing
                } else {
                    let fill = fill_fields(t, fields, self.data.addr, container, data, fields.len());
                    FrameOutcome {
                        frame: FrameView {
                            tracker: TrackerView::Enum { variant_idx, data: fill.iset, current_child },
                            ..self
                        },
                        ops: fill.ops,
                        result: fill_result(fill),
                    }
                }
            },
            _ => nothing,
        }
    }

    /// The frame with defaults for everything that was left out.
    ///
    /// Where nothing at all was set, a default of the whole type comes first.
    #[verifier::opaque]
    pub open spec fn filled(self, t: ShapeTable) -> FrameOutcome {
        if !self.is_init && self.tracker is Scalar && t.is_struct(self.shape()) {
            if t.can_default(self.shape()) {
                self.defaulted()
            } else {
                (FrameView {
                    tracker: TrackerView::Struct { iset: Set::empty(), current_child: None },
                    ..self
                }).filled_fields(t)
            }
        } else if !self.is_init && self.tracker is Scalar && t.at(self.shape()).def is Option
            && t.can_default(self.shape()) {
            self.defaulted()
        } else {
            self.filled_fields(t)
        }
    }
}

/// What running validators, or filling in fields while running them, has come to.
#[verifier::ext_equal]
pub struct PlannedFill {
    /// The fields that are initialized by now.
    pub iset: Set<int>,
    /// The host after what was done for it.
    pub host: HostView,
    /// The first thing that went wrong; nothing follows it.
    pub failed: Option<ReflectErrorKind>,
}

/// Runs the first `n` validators of a field; the first refusal ends it.
pub open spec fn validated(
    fns: Seq<FnRef>,
    plan: FieldPlan,
    at: Addr,
    shape: ShapeRef,
    p: PlannedFill,
    n: nat,
) -> PlannedFill
    decreases n,
{
    if n == 0 {
        p
    } else {
        let q = validated(fns, plan, at, shape, p, (n - 1) as nat);
        let call = ValidateCall { f: fns[n - 1], at, shape };
        if q.failed is Some {
            q
        } else {
            PlannedFill {
                iset: q.iset,
                host: q.host.after(MemOp::Validate { call }),
                failed: match q.host.validate(call) {
                    Ok(_) => None,
                    Err(message) => Some(
                        ReflectErrorKind::ValidationFailed { shape, field_name: plan.name, message },
                    ),
                },
            }
        }
    }
}

/// Gives a missing field its default; a required one is an error.
pub open spec fn planned_default(
    t: ShapeTable,
    plan: FieldPlan,
    at: Addr,
    shape: ShapeRef,
    p: PlannedFill,
) -> PlannedFill {
    let missing = PlannedFill {
        failed: Some(ReflectErrorKind::UninitializedField { shape, field_name: plan.name }),
        ..p
    };
    match plan.fill_rule {
        FillRule::Required => missing,
        FillRule::Defaultable(FieldDefault::Custom(f)) => PlannedFill {
            iset: p.iset.insert(plan.index as int),
            host: p.host.after(MemOp::CallDefault { f, at }),
            failed: None,
        },
        FillRule::Defaultable(FieldDefault::FromTrait(s)) => if t.can_default(s) {
            PlannedFill {
                iset: p.iset.insert(plan.index as int),
                host: p.host.after(MemOp::DefaultInPlace { shape: s, at }),
                failed: None,
            }
        } else {
            missing
        },
    }
}

/// Goes through the first `n` field plans: fills in what is missing and validates each field.
///
/// Nothing is filled in where all fields were set from the start.
pub open spec fn planned_fill(
    plan: TypePlanCore,
    plans: Seq<FieldPlan>,
    at: Addr,
    shape: ShapeRef,
    all_set: bool,
    p: PlannedFill,
    n: nat,
) -> PlannedFill
    decreases n,
{
    if n == 0 {
        p
    } else {
        let q = planned_fill(plan, plans, at, shape, all_set, p, (n - 1) as nat);
        let field = plans[n - 1];
        let place = at.field(field.offset);
        if q.failed is Some {
            q
        } else {
            let d = if !all_set && !q.iset.contains(field.index as int) {
                planned_default(plan.shapes, field, place, shape, q)
            } else {
                q
            };
            if d.failed is Some {
                d
            } else {
                let fns = plan.validators_in(field.validators);
                validated(fns, field, place, shape, d, fns.len())
            }
        }
    }
}

/// What a step with hooks makes of a frame.
#[verifier::ext_equal]
pub struct FrameHostOutcome {
    pub frame: FrameView,
    pub host: HostView,
    pub result: Result<(), ReflectErrorKind>,
}

/// The result of a planned fill.
pub open spec fn planned_result(p: PlannedFill) -> Result<(), ReflectErrorKind> {
    match p.failed {
        None => Ok(()),
        Some(e) => Err(e),
    }
}

impl FrameView {
    /// The frame after its missing fields were filled in and all fields were validated.
    #[verifier::opaque]
    pub open spec fn fill_and_require(
        self,
        plan: TypePlanCore,
        plans: Seq<FieldPlan>,
        num_fields: usize,
        h: HostView,
    ) -> FrameHostOutcome {
        let t = plan.shapes;
        let untouched = !self.is_init && self.tracker is Scalar && t.is_struct(self.shape());
        if untouched && t.can_default(self.shape()) {
            FrameHostOutcome {
                frame: FrameView { is_init: true, ..self },
                host: h.plus(t.default_ops(self.shape(), self.data.addr)),
                result: Ok(()),
            }
        } else {
            let tracker = if untouched {
                TrackerView::Struct { iset: Set::empty(), current_child: None }
            } else {
                self.tracker
            };
            match tracker {
                TrackerView::Struct { iset, current_child } => {
                    let p = planned_fill(
                        plan,
                        plans,
                        self.data.addr,
                        self.shape(),
                        has_all(iset, num_fields as int),
                        PlannedFill { iset, host: h, failed: None },
                        plans.len(),
                    );
                    FrameHostOutcome {
                        frame: FrameView {
                            tracker: TrackerView::Struct { iset: p.iset, current_child },
                            ..self
                        },
                        host: p.host,
                        result: planned_result(p),
                    }
                },
                TrackerView::Enum { variant_idx, data, current_child } => {
                    let p = planned_fill(
                        plan,
                        plans,
                        self.data.addr,
                        self.shape(),
                        has_all(data, num_fields as int),
                        PlannedFill { iset: data, host: h, failed: None },
                        plans.len(),
                    );
                    FrameHostOutcome {
                        frame: FrameView {
                            tracker: TrackerView::Enum { variant_idx, data: p.iset, current_child },
                            ..self
                        },
                        host: p.host,
                        result: planned_result(p),
                    }
                },
                _ => FrameHostOutcome { frame: self, host: h, result: Ok(()) },
            }
        }
    }
}

/// Whether filling in defaults succeeded.
pub open spec fn fill_result(fill: Fill) -> Result<(), ReflectErrorKind> {
    match fill.failed {
        None => Ok(()),
        Some(shape) => Err(ReflectErrorKind::DefaultAttrButNoDefaultImpl { shape }),
    }
}

fn fill_missing_fields<H: Host>(
    t: &ShapeTable,
    fields: &Vec<Field>,
    at: Addr,
    container_has_default: bool,
    iset: &mut ISet,
    host: &mut H,
) -> (r: Result<(), ReflectErrorKind>)
    requires
        t.fields_ok(fields@),
    ensures
        ({
            let fill = fill_fields(
                *t,
                fields@,
                at,
                container_has_default,
                old(iset)@,
                fields@.len(),
            );
            &&& r == fill_result(fill)
            &&& final(iset)@ == fill.iset
            &&& final(host).view() == old(host).view().plus(fill.ops)
        }),
{
    let mut idx: usize = 0;
    while idx < fields.len()
        invariant
            idx <= fields@.len(),
            t.fields_ok(fields@),
            fill_fields(*t, fields@, at, container_has_default, old(iset)@, idx as nat).failed is None,
            iset@ == fill_fields(*t, fields@, at, container_has_default, old(iset)@, idx as nat).iset,
            host.view() == old(host).view().plus(
                fill_fields(*t, fields@, at, container_has_default, old(iset)@, idx as nat).ops,
            ),
        decreases fields@.len() - idx,
    {
        if !iset.get(idx) {
            let field = &fields[idx];
            if Frame::try_init_field_default(
                t,
                field,
                PtrUninit { addr: at.field(field.offset) },
                container_has_default,
                host,
            ) {
                iset.set(idx);
            } else if field.default.is_some() {
                proof {
                    lemma_fill_stops(
                        *t,
                        fields@,
                        at,
                        container_has_default,
                        old(iset)@,
                        (idx + 1) as nat,
                        fields@.len(),
                    );
                }
                return Err(ReflectErrorKind::DefaultAttrButNoDefaultImpl { shape: field.shape });
            }
        }
        idx = idx + 1;
    }
    Ok(())
}

/// Once filling has failed, nothing follows.
proof fn lemma_fill_stops(
    t: ShapeTable,
    fields: Seq<Field>,
    at: Addr,
    container_has_default: bool,
    iset: Set<int>,
    i: nat,
    n: nat,
)
    requires
        i <= n,
        fill_fields(t, fields, at, container_has_default, iset, i).failed is Some,
    ensures
        fill_fields(t, fields, at, container_has_default, iset, n) == fill_fields(
            t,
            fields,
            at,
            container_has_default,
            iset,
            i,
        ),
    decreases n - i,
{
    if i < n {
        lemma_fill_stops(t, fields, at, container_has_default, iset, i, (n - 1) as nat);
    }
}

impl Frame {
    /// Gives a field its default value if there is one: an explicit default function comes
    /// first, then the default of the type where the field, the container or the kind of type
    /// asks for it. Tells whether a default was written.
    pub fn try_init_field_default<H: Host>(
        t: &ShapeTable,
        field: &Field,
        field_ptr: PtrUninit,
        container_has_default: bool,
        host: &mut H,
    ) -> (r: bool)
        requires
            t.has(field.shape),
        ensures
            r == field_default_ops(*t, *field, field_ptr.addr, container_has_default) is Some,
            final(host).view() == match field_default_ops(
                *t,
                *field,
                field_ptr.addr,
                container_has_default,
            ) {
                Some(ops) => old(host).view().plus(ops),
                None => old(host).view(),
            },
    {
        let ghost h0 = host.view();
        if let Some(source) = field.default {
            match source {
                DefaultSource::Custom(f) => {
                    host.act(MemOp::CallDefault { f, at: field_ptr.addr });
                    return true;
                },
                _ => {},
            }
        }
        let obvious = match t.get(field.shape).def {
            Def::Option(_) | Def::List(_) | Def::MapOf(_) | Def::SetOf(_) => true,
            _ => field.shape == t.unit_shape,
        };
        if field.default.is_some() || container_has_default || obvious {
            let done = t.call_default_in_place(field.shape, field_ptr.addr, host);
            if !done {
                assert(host.view() == h0);
            }
            done
        } else {
            false
        }
    }

    /// Gives defaults to fields that were left out.
    ///
    /// Where nothing was set at all and the type has a default, the whole value takes it.
    /// Otherwise each missing field takes its own default if it has one; a field that asks for a
    /// default its type does not have is an error.
    pub fn fill_defaults<H: Host>(&mut self, t: &ShapeTable, host: &mut H) -> (r: Result<
        (),
        ReflectErrorKind,
    >)
        requires
            t.wf(),
            old(self)@.fits(*t),
        ensures
            final(self)@ == old(self)@.filled(*t).frame,
            final(host).view() == old(host).view().plus(old(self)@.filled(*t).ops),
            r == old(self)@.filled(*t).result,
            final(self)@.fits(*t),
            old(self)@.same_frame(final(self)@),
    {
        reveal(FrameView::filled);
        let shape = self.allocated.shape();
        let at = self.data.addr;
        let untouched = !self.is_init && match self.tracker {
            Tracker::Scalar => true,
            _ => false,
        };
        if untouched {
            if let Some(st) = t.struct_type(shape) {
                if t.call_default_in_place(shape, at, host) {
                    self.is_init = true;
                    return Ok(());
                }
                self.tracker = Tracker::Struct { iset: ISet::new(), current_child: None };
            } else if let Def::Option(_) = t.get(shape).def {
                if t.call_default_in_place(shape, at, host) {
                    self.is_init = true;
                    return Ok(());
                }
            }
        }
        let container = t.get(shape).default_attr;
        match &mut self.tracker {
            Tracker::Struct { iset, .. } => {
                if let Some(st) = t.struct_type(shape) {
                    if iset.all_set(st.fields.len()) {
                        return Ok(());
                    }
                    if iset.none_set(st.fields.len()) {
                        if t.call_default_in_place(shape, at, host) {
                            self.tracker = Tracker::Scalar;
                            self.is_init = true;
                            return Ok(());
                        }
                    }
                    return fill_missing_fields(t, &st.fields, at, container, iset, host);
                }
                Ok(())
            },
            Tracker::Enum { variant_idx, data, .. } => {
                let variant = t.variant(shape, *variant_idx);
                if variant.fields.len() == 0 || data.all_set(variant.fields.len()) {
                    return Ok(());
                }
                fill_missing_fields(t, &variant.fields, at, container, data, host)
            },
            _ => Ok(()),
        }
    }

    /// Fills in missing fields and validates all of them, in one pass over the field plans.
    ///
    /// The first field that is missing without a default, or that a validator refuses, is the
    /// error.
    pub fn fill_and_require_fields<H: Host>(
        &mut self,
        plans: &[FieldPlan],
        num_fields: usize,
        plan: &TypePlanCore,
        host: &mut H,
    ) -> (r: Result<(), ReflectErrorKind>)
        requires
            plan.wf(),
            old(self)@.fits(plan.shapes),
            plan.plans_ok(plans@),
        ensures
            ({
                let done = old(self)@.fill_and_require(*plan, plans@, num_fields, old(host).view());
                &&& final(self)@ == done.frame
                &&& final(host).view() == done.host
                &&& r == done.result
            }),
    {
        reveal(FrameView::fill_and_require);
        let shape = self.allocated.shape();
        let at = self.data.addr;
        let untouched = !self.is_init && match self.tracker {
            Tracker::Scalar => true,
            _ => false,
        };
        if untouched && plan.shapes.struct_type(shape).is_some() {
            if plan.shapes.call_default_in_place(shape, at, host) {
                self.is_init = true;
                return Ok(());
            }
            assert(host.view() == old(host).view());
            self.tracker = Tracker::Struct { iset: ISet::new(), current_child: None };
        }
        match &mut self.tracker {
            Tracker::Struct { iset, .. } => fill_by_plan(
                plans,
                num_fields,
                plan,
                at,
                shape,
                iset,
                host,
            ),
            Tracker::Enum { data, .. } => fill_by_plan(
                plans,
                num_fields,
                plan,
                at,
                shape,
                data,
                host,
            ),
            _ => Ok(()),
        }
    }
}

/// Once something went wrong, nothing follows.
proof fn lemma_planned_fill_stops(
    plan: TypePlanCore,
    plans: Seq<FieldPlan>,
    at: Addr,
    shape: ShapeRef,
    all_set: bool,
    p: PlannedFill,
    i: nat,
    n: nat,
)
    requires
        i <= n,
        planned_fill(plan, plans, at, shape, all_set, p, i).failed is Some,
    ensures
        planned_fill(plan, plans, at, shape, all_set, p, n) == planned_fill(
            plan,
            plans,
            at,
            shape,
            all_set,
            p,
            i,
        ),
    decreases n - i,
{
    if i < n {
        lemma_planned_fill_stops(plan, plans, at, shape, all_set, p, i, (n - 1) as nat);
    }
}

/// After a refusal no further validator runs.
proof fn lemma_validated_stops(
    fns: Seq<FnRef>,
    plan: FieldPlan,
    at: Addr,
    shape: ShapeRef,
    p: PlannedFill,
    i: nat,
    n: nat,
)
    requires
        i <= n,
        validated(fns, plan, at, shape, p, i).failed is Some,
    ensures
        validated(fns, plan, at, shape, p, n) == validated(fns, plan, at, shape, p, i),
    decreases n - i,
{
    if i < n {
        lemma_validated_stops(fns, plan, at, shape, p, i, (n - 1) as nat);
    }
}

fn run_validators<H: Host>(
    fns: &[FnRef],
    field: &FieldPlan,
    at: Addr,
    shape: ShapeRef,
    Ghost(p): Ghost<PlannedFill>,
    host: &mut H,
) -> (r: Result<(), ReflectErrorKind>)
    requires
        p.failed is None,
        p.host == old(host).view(),
    ensures
        ({
            let done = validated(fns@, *field, at, shape, p, fns@.len());
            &&& done.iset == p.iset
            &&& final(host).view() == done.host
            &&& r == planned_result(done)
        }),
{
    let mut idx: usize = 0;
    while idx < fns.len()
        invariant
            idx <= fns@.len(),
            validated(fns@, *field, at, shape, p, idx as nat).failed is None,
            validated(fns@, *field, at, shape, p, idx as nat).iset == p.iset,
            validated(fns@, *field, at, shape, p, idx as nat).host == host.view(),
        decreases fns@.len() - idx,
    {
        match host.validate(ValidateCall { f: fns[idx], at, shape }) {
            Ok(_) => {},
            Err(message) => {
                proof {
                    lemma_validated_stops(
                        fns@,
                        *field,
                        at,
                        shape,
                        p,
                        (idx + 1) as nat,
                        fns@.len(),
                    );
                }
                return Err(
                    ReflectErrorKind::ValidationFailed { shape, field_name: field.name, message },
                );
            },
        }
        idx = idx + 1;
    }
    Ok(())
}

fn write_planned_default<H: Host>(
    t: &ShapeTable,
    field: &FieldPlan,
    at: Addr,
    shape: ShapeRef,
    iset: &mut ISet,
    host: &mut H,
) -> (r: Result<(), ReflectErrorKind>)
    requires
        field.fill_rule matches FillRule::Defaultable(FieldDefault::FromTrait(s)) ==> t.has(s),
    ensures
        ({
            let p = PlannedFill { iset: old(iset)@, host: old(host).view(), failed: None };
            let done = planned_default(*t, *field, at, shape, p);
            &&& final(iset)@ == done.iset
            &&& final(host).view() == done.host
            &&& r == planned_result(done)
        }),
{
    let success = match &field.fill_rule {
        FillRule::Defaultable(default) => match default {
            FieldDefault::Custom(f) => {
                host.act(MemOp::CallDefault { f: *f, at });
                true
            },
            FieldDefault::FromTrait(s) => {
                let done = t.call_default_in_place(*s, at, host);
                assert(!done ==> host.view() == old(host).view());
                assert(done ==> host.view() == old(host).view().after(
                    MemOp::DefaultInPlace { shape: *s, at },
                ));
                done
            },
        },
        FillRule::Required => false,
    };
    if success {
        iset.set(field.index);
        Ok(())
    } else {
        Err(ReflectErrorKind::UninitializedField { shape, field_name: field.name })
    }
}

fn fill_by_plan<H: Host>(
    plans: &[FieldPlan],
    num_fields: usize,
    plan: &TypePlanCore,
    at: Addr,
    shape: ShapeRef,
    iset: &mut ISet,
    host: &mut H,
) -> (r: Result<(), ReflectErrorKind>)
    requires
        plan.plans_ok(plans@),
    ensures
        ({
            let p = PlannedFill { iset: old(iset)@, host: old(host).view(), failed: None };
            let all_set = has_all(old(iset)@, num_fields as int);
            let done = planned_fill(*plan, plans@, at, shape, all_set, p, plans@.len());
            &&& final(iset)@ == done.iset
            &&& final(host).view() == done.host
            &&& r == planned_result(done)
        }),
{
    let all_set = iset.all_set(num_fields);
    let ghost p = PlannedFill { iset: iset@, host: host.view(), failed: None };
    let mut idx: usize = 0;
    while idx < plans.len()
        invariant
            idx <= plans@.len(),
            plan.plans_ok(plans@),
            all_set == has_all(old(iset)@, num_fields as int),
            p == (PlannedFill { iset: old(iset)@, host: old(host).view(), failed: None }),
            planned_fill(*plan, plans@, at, shape, all_set, p, idx as nat) == (PlannedFill {
                iset: iset@,
                host: host.view(),
                failed: None,
            }),
        decreases plans@.len() - idx,
    {
        let field = &plans[idx];
        let place = at.field(field.offset);
        if !all_set && !iset.get(field.index) {
            let r = write_planned_default(&plan.shapes, field, place, shape, iset, host);
            if r.is_err() {
                proof {
                    lemma_planned_fill_stops(
                        *plan,
                        plans@,
                        at,
                        shape,
                        all_set,
                        p,
                        (idx + 1) as nat,
                        plans@.len(),
                    );
                }
                return r;
            }
        }
        let ghost q = PlannedFill { iset: iset@, host: host.view(), failed: None };
        let r = run_validators(
            plan.validators(field.validators),
            field,
            place,
            shape,
            Ghost(q),
            host,
        );
        if r.is_err() {
            proof {
                lemma_planned_fill_stops(
                    *plan,
                    plans@,
                    at,
                    shape,
                    all_set,
                    p,
                    (idx + 1) as nat,
                    plans@.len(),
                );
            }
            return r;
        }
        idx = idx + 1;
    }
    Ok(())
}

} // verus!
