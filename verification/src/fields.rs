//! Choosing variants, and entering fields and elements.
use vstd::prelude::*;

use crate::deferred::{lemma_same_frames_wf, lemma_with_top, PartialOutcome};
use crate::end::agrees;
use crate::error::{ReflectError, ReflectErrorKind};
use crate::frame::{AllocatedShape, Frame, FrameOwnership, FrameView};
use crate::iset::{all_below, has_none, ISet};
use crate::memory::{Addr, Host, HostView, MemOp, PtrUninit, Tag};
use crate::partial::{alloc_for_layout, alloc_ops, Partial, PartialView};
use crate::plan::NodeId;
use crate::shape::{
    ArrayType, EnumRepr, EnumType, Field, Layout, SequenceType, ShapeTable, StructType, Type,
    UserType, Variant,
};
use crate::tracker::{DynamicValueState, DynamicValueView, Tracker, TrackerView};

verus! {

/// What entering a part makes of a frame, and the frame for the part.
#[verifier::ext_equal]
pub struct Entered {
    pub frame: FrameView,
    pub result: Result<FrameView, ReflectErrorKind>,
}

/// The frame for a part of a value: initialized if the parent said so.
pub open spec fn part_frame(
    t: ShapeTable,
    data: PtrUninit,
    allocated: AllocatedShape,
    idx: usize,
    node: NodeId,
    was_init: bool,
) -> FrameView {
    let f = Frame::spec_new(t, data, allocated, FrameOwnership::Field { field_idx: idx }, node);
    FrameView { is_init: f.is_init || was_init, ..f }
}

/// The frame for a field of the value of a frame.
pub open spec fn field_part(
    t: ShapeTable,
    frame: FrameView,
    field: Field,
    idx: usize,
    node: NodeId,
    was_init: bool,
) -> FrameView {
    part_frame(
        t,
        PtrUninit { addr: frame.data.addr.field(field.offset) },
        AllocatedShape { shape: field.shape, allocated_size: t.sized(field.shape)->0.size },
        idx,
        node,
        was_init,
    )
}

impl FrameView {
    /// The frame with field `idx` as current child. The parent gives up its responsibility for
    /// the field.
    pub open spec fn relinquished(self, idx: usize) -> FrameView {
        FrameView { tracker: self.tracker.with_child(idx).without_field(idx), ..self }
    }

    /// The struct with its fields tracked: all of them are there if the whole was.
    pub open spec fn tracking_struct(self, n: nat) -> FrameView {
        if self.tracker is Struct {
            self
        } else {
            FrameView {
                tracker: TrackerView::Struct {
                    iset: if self.is_init && self.tracker is Scalar {
                        all_below(n as int)
                    } else {
                        Set::empty()
                    },
                    current_child: None,
                },
                ..self
            }
        }
    }

    /// Entering a field of a struct.
    pub open spec fn struct_field_begun(
        self,
        t: ShapeTable,
        fields: Seq<Field>,
        idx: usize,
        node: NodeId,
    ) -> Entered {
        if idx >= fields.len() {
            Entered {
                frame: self,
                result: Err(
                    ReflectErrorKind::OperationFailed {
                        shape: self.shape(),
                        operation: "field index out of bounds",
                    },
                ),
            }
        } else {
            let f = self.tracking_struct(fields.len());
            let was_init = f.tracker->Struct_iset.contains(idx as int);
            Entered {
                frame: f.relinquished(idx),
                result: Ok(field_part(t, self, fields[idx as int], idx, node, was_init)),
            }
        }
    }

    /// Entering an element of an array.
    pub open spec fn array_element_begun(
        self,
        t: ShapeTable,
        a: ArrayType,
        idx: usize,
        node: NodeId,
    ) -> Entered {
        if idx >= a.n {
            self.not_entered("array index out of bounds")
        } else if a.n > 63 {
            self.not_entered("arrays larger than 63 elements are not yet supported")
        } else if !(self.tracker is Array) && !(self.tracker is Scalar && !self.is_init) {
            self.not_entered("unexpected tracker state: expected uninitialized Scalar or Array")
        } else {
            let f = if self.tracker is Array {
                self
            } else {
                FrameView {
                    tracker: TrackerView::Array { iset: Set::empty(), current_child: None },
                    ..self
                }
            };
            let was_init = f.tracker->Array_iset.contains(idx as int);
            Entered {
                frame: f.relinquished(idx),
                result: match t.sized(a.t) {
                    Some(layout) => Ok(
                        part_frame(
                            t,
                            PtrUninit { addr: self.data.addr.field((layout.size * idx) as usize) },
                            AllocatedShape { shape: a.t, allocated_size: layout.size },
                            idx,
                            node,
                            was_init,
                        ),
                    ),
                    None => Err(
                        ReflectErrorKind::Unsized {
                            shape: a.t,
                            operation: "begin_nth_element, calculating array element offset",
                        },
                    ),
                },
            }
        }
    }

    /// Entering a field of the chosen variant of an enum.
    pub open spec fn enum_field_begun(
        self,
        t: ShapeTable,
        fields: Seq<Field>,
        idx: usize,
        node: NodeId,
    ) -> Entered {
        if idx >= fields.len() {
            self.not_entered("enum field index out of bounds")
        } else {
            match self.tracker {
                TrackerView::Enum { data, .. } => Entered {
                    frame: self.relinquished(idx),
                    result: Ok(
                        field_part(
                            t,
                            self,
                            fields[idx as int],
                            idx,
                            node,
                            data.contains(idx as int),
                        ),
                    ),
                },
                _ => self.not_entered(
                    "selecting a field on an enum requires selecting a variant first",
                ),
            }
        }
    }

    /// The part cannot be entered, and the frame stays as it is.
    pub open spec fn not_entered(self, operation: &'static str) -> Entered {
        Entered {
            frame: self,
            result: Err(ReflectErrorKind::OperationFailed { shape: self.shape(), operation }),
        }
    }

    /// There is something in the frame: the value as a whole, one of its parts, a value that waits
    /// to be moved in, or a slice builder or rope.
    pub open spec fn holds_value(self, t: ShapeTable) -> bool {
        self.is_init || match self.tracker {
            TrackerView::Scalar => false,
            TrackerView::Array { iset, .. } => match t.at(self.shape()).ty {
                Type::Sequence(SequenceType::Array(a)) => !has_none(iset, a.n as int),
                _ => false,
            },
            TrackerView::Struct { iset, .. } => t.is_struct(self.shape()) && !has_none(
                iset,
                t.struct_fields(self.shape()).len() as int,
            ),
            TrackerView::Enum { variant_idx, data, .. } => !has_none(
                data,
                t.variant_fields(self.shape(), variant_idx).len() as int,
            ),
            TrackerView::SmartPointer { pending_inner, .. } => pending_inner is Some,
            TrackerView::SmartPointerSlice { .. } => true,
            TrackerView::List { rope, .. } => rope is Some,
            TrackerView::MapOf { pending_entries, .. } => pending_entries.len() > 0,
            TrackerView::SetOf { .. } => false,
            TrackerView::Option { building_inner, pending_inner } => !building_inner
                || pending_inner is Some,
            TrackerView::Result { building_inner, .. } => !building_inner,
            TrackerView::DynamicValue { state } => match state {
                DynamicValueView::Object { pending_entries, .. } => pending_entries.len() > 0,
                DynamicValueView::Array { pending_elements, .. } => pending_elements.len() > 0,
                _ => false,
            },
            TrackerView::Inner { .. } => false,
        }
    }

    /// Something is known of the frame beyond its shape and place.
    pub open spec fn is_begun(self) -> bool {
        self.is_init || !(self.tracker is Scalar)
    }

    /// Operations that make room for another value: what there is in the frame is dropped where the
    /// frame is responsible for it, and elsewhere only what waits to be moved in.
    pub open spec fn clear_ops(self, t: ShapeTable) -> Seq<MemOp> {
        if !self.holds_value(t) {
            Seq::empty()
        } else if self.ownership is Owned || self.ownership is Field
            || self.tracker is SmartPointerSlice {
            self.deinit_ops(t)
        } else {
            self.drop_staging_ops(t)
        }
    }

    /// The frame after room was made for another value.
    pub open spec fn cleared(self) -> FrameView {
        if !self.is_begun() {
            self
        } else if self.ownership is Owned || self.ownership is Field
            || self.tracker is SmartPointerSlice {
            self.deinited()
        } else {
            self.without_staging()
        }
    }

    /// The frame with memory of its own at `data`.
    pub open spec fn housed(self, data: PtrUninit, layout: Layout) -> FrameView {
        FrameView {
            data,
            allocated: AllocatedShape { allocated_size: layout.size, ..self.allocated },
            ..self
        }
    }
}

/// The discriminant as the enum stores it; layouts chosen by the compiler cannot be written.
pub open spec fn tag_of(repr: EnumRepr, discriminant: i64) -> Option<Tag> {
    match repr {
        EnumRepr::Rust | EnumRepr::RustNPO => None,
        EnumRepr::U8 => Some(Tag::U8(discriminant as u8)),
        EnumRepr::U16 => Some(Tag::U16(discriminant as u16)),
        EnumRepr::U32 => Some(Tag::U32(discriminant as u32)),
        EnumRepr::U64 => Some(Tag::U64(discriminant as u64)),
        EnumRepr::I8 => Some(Tag::I8(discriminant as i8)),
        EnumRepr::I16 => Some(Tag::I16(discriminant as i16)),
        EnumRepr::I32 => Some(Tag::I32(discriminant as i32)),
        EnumRepr::I64 => Some(Tag::I64(discriminant)),
        EnumRepr::USize => Some(Tag::USize(discriminant as usize)),
        EnumRepr::ISize => Some(Tag::ISize(discriminant as isize)),
    }
}

fn write_tag<H: Host>(repr: EnumRepr, discriminant: i64, at: PtrUninit, host: &mut H) -> (r: bool)
    ensures
        r == tag_of(repr, discriminant) is Some,
        final(host).view() == match tag_of(repr, discriminant) {
            Some(tag) => old(host).view().after(MemOp::WriteTag { at: at.addr, tag }),
            None => old(host).view(),
        },
{
    let tag = match repr {
        EnumRepr::Rust | EnumRepr::RustNPO => {
            return false;
        },
        EnumRepr::U8 => Tag::U8(#[verifier::truncate] (discriminant as u8)),
        EnumRepr::U16 => Tag::U16(#[verifier::truncate] (discriminant as u16)),
        EnumRepr::U32 => Tag::U32(#[verifier::truncate] (discriminant as u32)),
        EnumRepr::U64 => Tag::U64(#[verifier::truncate] (discriminant as u64)),
        EnumRepr::I8 => Tag::I8(#[verifier::truncate] (discriminant as i8)),
        EnumRepr::I16 => Tag::I16(#[verifier::truncate] (discriminant as i16)),
        EnumRepr::I32 => Tag::I32(#[verifier::truncate] (discriminant as i32)),
        EnumRepr::I64 => Tag::I64(discriminant),
        EnumRepr::USize => Tag::USize(#[verifier::truncate] (discriminant as usize)),
        EnumRepr::ISize => Tag::ISize(#[verifier::truncate] (discriminant as isize)),
    };
    host.act(MemOp::WriteTag { at: at.addr, tag });
    true
}

impl Frame {
    /// Whether there is anything in the frame.
    fn has_value(&self, t: &ShapeTable) -> (r: bool)
        requires
            self@.fits(*t),
        ensures
            r == self@.holds_value(*t),
    {
        if self.is_init {
            return true;
        }
        let shape = self.allocated.shape();
        match &self.tracker {
            Tracker::Scalar => false,
            Tracker::Array { iset, .. } => match &t.get(shape).ty {
                Type::Sequence(SequenceType::Array(a)) => !iset.none_set(a.n),
                _ => false,
            },
            Tracker::Struct { iset, .. } => match t.struct_type(shape) {
                Some(st) => !iset.none_set(st.fields.len()),
                None => false,
            },
            Tracker::Enum { variant_idx, data, .. } => !data.none_set(
                t.variant(shape, *variant_idx).fields.len(),
            ),
            Tracker::SmartPointer { pending_inner, .. } => pending_inner.is_some(),
            Tracker::SmartPointerSlice { .. } => true,
            Tracker::List { rope, .. } => rope.is_some(),
            Tracker::MapOf { pending_entries, .. } => pending_entries.len() > 0,
            Tracker::SetOf { .. } => false,
            Tracker::Option { building_inner, pending_inner } => !*building_inner
                || pending_inner.is_some(),
            Tracker::Result { building_inner, .. } => !*building_inner,
            Tracker::DynamicValue { state } => match state {
                DynamicValueState::Object { pending_entries, .. } => pending_entries.len() > 0,
                DynamicValueState::Array { pending_elements, .. } => pending_elements.len() > 0,
                _ => false,
            },
            Tracker::Inner { .. } => false,
        }
    }
}

impl PartialView {
    /// Room was made for another value in the current frame. Where a slice builder had taken the
    /// place of memory that the frame owned, the frame gets memory of its own again.
    pub open spec fn room_made(self, t: ShapeTable, h: HostView) -> PartialOutcome {
        let f = self.top();
        let h1 = h.plus(f.clear_ops(t));
        match t.sized(f.shape()) {
            Some(layout) => if f.tracker is SmartPointerSlice && f.ownership.releases() {
                let data = PtrUninit { addr: Addr::start(self.next_buffer) };
                PartialView { next_buffer: self.next_buffer.wrapping_add(1), ..self }.with_top(
                    f.cleared().housed(data, layout),
                ).ok(h1.plus(alloc_ops(layout, self.next_buffer)))
            } else {
                self.with_top(f.cleared()).ok(h1)
            },
            None => self.with_top(f.cleared()).ok(h1),
        }
    }

    /// The enum type of the current frame.
    pub open spec fn top_enum(self, t: ShapeTable) -> EnumType {
        match t.at(self.top().shape()).ty {
            Type::User(UserType::Enum(e)) => e,
            _ => arbitrary(),
        }
    }

    /// Nothing is tracked of the value in the current frame but this variant.
    pub open spec fn may_select(self, variant_idx: usize) -> bool {
        ||| self.top().tracker is Scalar
        ||| self.top().tracker matches TrackerView::Enum { variant_idx: chosen, .. } && chosen
            == variant_idx
    }

    /// A variant is chosen. Choosing the same variant again keeps track of the fields that are
    /// there.
    pub open spec fn variant_selected(self, t: ShapeTable, variant_idx: usize, h: HostView) -> PartialOutcome {
        let f = self.top();
        let e = self.top_enum(t);
        let variant = e.variants@[variant_idx as int];
        match (e.enum_repr, variant.discriminant) {
            (EnumRepr::Rust, _) => self.failing(
                t,
                h,
                ReflectErrorKind::OperationFailed {
                    shape: f.shape(),
                    operation: "Rust enums with unspecified discriminant layout are not supported for incremental building",
                },
            ),
            (EnumRepr::RustNPO, _) => self.failing(
                t,
                h,
                ReflectErrorKind::OperationFailed {
                    shape: f.shape(),
                    operation: "RustNPO enums are not supported for incremental building",
                },
            ),
            (_, None) => self.failing(
                t,
                h,
                ReflectErrorKind::OperationFailed {
                    shape: f.shape(),
                    operation: "trying to select an enum variant without a discriminant",
                },
            ),
            (_, Some(discriminant)) => self.with_top(
                FrameView {
                    tracker: TrackerView::Enum {
                        variant_idx,
                        data: match f.tracker {
                            TrackerView::Enum { data, .. } => data,
                            _ => Set::empty(),
                        },
                        current_child: None,
                    },
                    ..f
                },
            ).ok(
                h.after(
                    MemOp::WriteTag {
                        at: f.data.addr,
                        tag: tag_of(e.enum_repr, discriminant)->0,
                    },
                ),
            ),
        }
    }

    /// No field can be entered from the current frame.
    pub open spec fn no_fields(self, operation: &'static str) -> Result<Seq<Field>, ReflectErrorKind> {
        Err(ReflectErrorKind::OperationFailed { shape: self.top().shape(), operation })
    }

    /// The fields that can be entered from the current frame, or why there are none.
    pub open spec fn enterable_fields(self, t: ShapeTable) -> Result<Seq<Field>, ReflectErrorKind> {
        let f = self.top();
        match t.at(f.shape()).ty {
            Type::Undefined => self.no_fields(
                "shape type is undefined - shape was not properly configured",
            ),
            Type::Primitive => self.no_fields("cannot select a field from a primitive type"),
            Type::Sequence(_) => self.no_fields("cannot select a field from a sequence type"),
            Type::User(UserType::Struct(st)) => Ok(st.fields@),
            Type::User(UserType::Enum(_)) => match f.tracker {
                TrackerView::Enum { variant_idx, .. } => Ok(
                    t.variant_fields(f.shape(), variant_idx),
                ),
                _ => self.no_fields("must select variant before selecting enum fields"),
            },
            Type::User(UserType::Union) => self.no_fields("cannot select a field from a union type"),
            Type::User(UserType::Opaque) => self.no_fields("opaque types cannot be reflected upon"),
            Type::User(UserType::Unknown) => self.no_fields(
                "cannot select a field from this user type",
            ),
            Type::Pointer => self.no_fields("cannot select a field from a pointer type"),
            Type::Unknown => self.no_fields("cannot select a field from this type"),
        }
    }
}

impl<'facet, const BORROW: bool> Partial<'facet, BORROW> {
    /// Chooses a variant of the enum in the current frame. Switching to another variant than one
    /// that was chosen before is not supported.
    pub fn select_variant_internal<H: Host>(&mut self, variant_idx: usize, host: &mut H) -> (r: Result<
        (),
        ReflectError,
    >)
        requires
            old(self).wf(),
            old(self).shapes().is_enum(old(self)@.top().shape()),
            variant_idx < old(self).shapes().variants(old(self)@.top().shape()).len(),
            old(self)@.may_select(variant_idx),
        ensures
            ({
                let o = old(self)@.variant_selected(
                    old(self).shapes(),
                    variant_idx,
                    old(host).view(),
                );
                &&& final(self)@ == o.partial
                &&& final(host).view() == o.host
                &&& agrees(r, o.result)
            }),
            final(self).root_plan == old(self).root_plan,
            final(self).wf(),
    {
        let plan = self.root_plan;
        let t = &plan.shapes;
        let ghost p0 = self@;
        let top: usize = self.frames().len() - 1;
        assert(p0.stack[top as int] == self.mode.spec_stack()@[top as int]@);
        assert(p0.stack[top as int].wf(*plan));
        let shape = self.frames()[top].allocated.shape();
        let repr = match &t.get(shape).ty {
            Type::User(UserType::Enum(e)) => e.enum_repr,
            _ => vstd::pervasive::unreached(),
        };
        match repr {
            EnumRepr::Rust => {
                return Err(
                    self.err(
                        ReflectErrorKind::OperationFailed {
                            shape,
                            operation: "Rust enums with unspecified discriminant layout are not supported for incremental building",
                        },
                    ),
                );
            },
            EnumRepr::RustNPO => {
                return Err(
                    self.err(
                        ReflectErrorKind::OperationFailed {
                            shape,
                            operation: "RustNPO enums are not supported for incremental building",
                        },
                    ),
                );
            },
            _ => {},
        }
        let discriminant: i64 = match t.variant(shape, variant_idx).discriminant {
            Some(d) => d,
            None => {
                return Err(
                    self.err(
                        ReflectErrorKind::OperationFailed {
                            shape,
                            operation: "trying to select an enum variant without a discriminant",
                        },
                    ),
                );
            },
        };
        let data = match &self.frames()[top].tracker {
            Tracker::Enum { data, .. } => data.duplicate(),
            _ => ISet::new(),
        };
        self.enter_variant(variant_idx, data, repr, discriminant, host);
        Ok(())
    }

    /// Writes the discriminant, and tracks the fields of the variant from now on.
    fn enter_variant<H: Host>(
        &mut self,
        variant_idx: usize,
        data: ISet,
        repr: EnumRepr,
        discriminant: i64,
        host: &mut H,
    )
        requires
            old(self).wf(),
            variant_idx < old(self).shapes().variants(old(self)@.top().shape()).len(),
            old(self)@.may_select(variant_idx),
            tag_of(repr, discriminant) is Some,
        ensures
            final(self)@ == old(self)@.with_top(
                (FrameView {
                    tracker: TrackerView::Enum { variant_idx, data: data@, current_child: None },
                    ..old(self)@.top()
                }),
            ),
            final(host).view() == old(host).view().after(
                MemOp::WriteTag {
                    at: old(self)@.top().data.addr,
                    tag: tag_of(repr, discriminant)->0,
                },
            ),
            final(self).root_plan == old(self).root_plan,
            final(self).wf(),
    {
        let plan = self.root_plan;
        let ghost p0 = self@;
        let top: usize = self.frames().len() - 1;
        assert(p0.stack[top as int] == self.mode.spec_stack()@[top as int]@);
        assert(p0.stack[top as int].wf(*plan));
        let ghost f1 = FrameView {
            tracker: TrackerView::Enum { variant_idx, data: data@, current_child: None },
            ..p0.top()
        };
        let frame = &mut self.mode.stack_mut()[top];
        write_tag(repr, discriminant, frame.data, host);
        frame.tracker = Tracker::Enum { variant_idx, data, current_child: None };
        proof {
            lemma_with_top(p0, *plan, f1);
        }
        assert(self@ =~= p0.with_top(f1));
    }

    /// The fields that can be entered from the current frame.
    pub fn get_fields(&self) -> (r: Result<&'facet Vec<Field>, ReflectError>)
        requires
            self.wf(),
        ensures
            match self@.enterable_fields(self.shapes()) {
                Ok(fields) => r matches Ok(v) && v@ == fields,
                Err(kind) => r matches Err(e) && e@ == self@.err(self.shapes(), kind),
            },
    {
        let plan = self.root_plan;
        let t = &plan.shapes;
        let top: usize = self.frames().len() - 1;
        assert(self@.stack[top as int] == self.mode.spec_stack()@[top as int]@);
        assert(self@.stack[top as int].wf(*plan));
        let frame = &self.frames()[top];
        let shape = frame.allocated.shape();
        let operation = match &t.get(shape).ty {
            Type::Undefined => "shape type is undefined - shape was not properly configured",
            Type::Primitive => "cannot select a field from a primitive type",
            Type::Sequence(_) => "cannot select a field from a sequence type",
            Type::User(user) => match user {
                UserType::Struct(st) => {
                    return Ok(&st.fields);
                },
                UserType::Enum(_) => match &frame.tracker {
                    Tracker::Enum { variant_idx, .. } => {
                        return Ok(&t.variant(shape, *variant_idx).fields);
                    },
                    _ => "must select variant before selecting enum fields",
                },
                UserType::Union => "cannot select a field from a union type",
                UserType::Opaque => "opaque types cannot be reflected upon",
                UserType::Unknown => "cannot select a field from this user type",
            },
            Type::Pointer => "cannot select a field from a pointer type",
            Type::Unknown => "cannot select a field from this type",
        };
        Err(self.err(ReflectErrorKind::OperationFailed { shape, operation }))
    }

    /// Enters a field of a struct. The parent gives up its responsibility for the field, and the
    /// new frame knows whether the field was initialized.
    pub fn begin_nth_struct_field(
        t: &ShapeTable,
        frame: &mut Frame,
        struct_type: &StructType,
        idx: usize,
        child_plan_id: NodeId,
    ) -> (r: Result<Frame, ReflectErrorKind>)
        requires
            t.field_ok(struct_type.fields@, idx),
        ensures
            ({
                let e = old(frame)@.struct_field_begun(*t, struct_type.fields@, idx, child_plan_id);
                &&& final(frame)@ == e.frame
                &&& match e.result {
                    Ok(f) => r matches Ok(x) && x@ == f,
                    Err(kind) => r matches Err(x) && x == kind,
                }
            }),
    {
        if idx >= struct_type.fields.len() {
            return Err(
                ReflectErrorKind::OperationFailed {
                    shape: frame.allocated.shape(),
                    operation: "field index out of bounds",
                },
            );
        }
        let field = &struct_type.fields[idx];
        let is_struct = match frame.tracker {
            Tracker::Struct { .. } => true,
            _ => false,
        };
        if !is_struct {
            let whole = frame.is_init && match frame.tracker {
                Tracker::Scalar => true,
                _ => false,
            };
            let mut iset = ISet::new();
            if whole {
                iset.set_all(struct_type.fields.len());
            }
            frame.tracker = Tracker::Struct { iset, current_child: None };
        }
        let was_init = match &mut frame.tracker {
            Tracker::Struct { iset, current_child } => {
                *current_child = Some(idx);
                let was: bool = iset.get(idx);
                iset.unset(idx);
                was
            },
            _ => vstd::pervasive::unreached(),
        };
        Ok(Self::part(t, frame, field, idx, child_plan_id, was_init))
    }

    /// The frame for a field of the value of a frame.
    fn part(
        t: &ShapeTable,
        frame: &Frame,
        field: &Field,
        idx: usize,
        child_plan_id: NodeId,
        was_init: bool,
    ) -> (r: Frame)
        requires
            t.has(field.shape),
            t.sized(field.shape) is Some,
        ensures
            r@ == field_part(*t, frame@, *field, idx, child_plan_id, was_init),
    {
        let size: usize = match t.sized_layout(field.shape) {
            Some(l) => l.size,
            None => vstd::pervasive::unreached(),
        };
        let mut next = Frame::new(
            t,
            frame.data.field_uninit(field.offset),
            AllocatedShape::new(field.shape, size),
            FrameOwnership::Field { field_idx: idx },
            child_plan_id,
        );
        if was_init {
            next.mark_as_init();
        }
        next
    }

    /// Enters an element of an array.
    pub fn begin_nth_array_element(
        t: &ShapeTable,
        frame: &mut Frame,
        array_type: ArrayType,
        idx: usize,
        child_plan_id: NodeId,
    ) -> (r: Result<Frame, ReflectErrorKind>)
        requires
            t.has(array_type.t),
            t.sized(array_type.t) matches Some(l) ==> array_type.n * l.size <= usize::MAX,
        ensures
            ({
                let e = old(frame)@.array_element_begun(*t, array_type, idx, child_plan_id);
                &&& final(frame)@ == e.frame
                &&& match e.result {
                    Ok(f) => r matches Ok(x) && x@ == f,
                    Err(kind) => r matches Err(x) && x == kind,
                }
            }),
    {
        let shape = frame.allocated.shape();
        if idx >= array_type.n {
            return Err(
                ReflectErrorKind::OperationFailed { shape, operation: "array index out of bounds" },
            );
        }
        if array_type.n > 63 {
            return Err(
                ReflectErrorKind::OperationFailed {
                    shape,
                    operation: "arrays larger than 63 elements are not yet supported",
                },
            );
        }
        let (is_array, is_scalar) = match frame.tracker {
            Tracker::Array { .. } => (true, false),
            Tracker::Scalar => (false, true),
            _ => (false, false),
        };
        if is_scalar && !frame.is_init {
            frame.tracker = Tracker::Array { iset: ISet::new(), current_child: None };
        } else if !is_array {
            return Err(
                ReflectErrorKind::OperationFailed {
                    shape,
                    operation: "unexpected tracker state: expected uninitialized Scalar or Array",
                },
            );
        }
        let was_init = match &mut frame.tracker {
            Tracker::Array { iset, current_child } => {
                *current_child = Some(idx);
                let was: bool = iset.get(idx);
                iset.unset(idx);
                was
            },
            _ => vstd::pervasive::unreached(),
        };
        let layout = match t.sized_layout(array_type.t) {
            Some(l) => l,
            None => {
                return Err(
                    ReflectErrorKind::Unsized {
                        shape: array_type.t,
                        operation: "begin_nth_element, calculating array element offset",
                    },
                );
            },
        };
        let n: usize = array_type.n;
        let size: usize = layout.size;
        assert(size * idx <= n * size) by (nonlinear_arith)
            requires
                idx <= n,
        ;
        let offset: usize = size * idx;
        let mut next = Frame::new(
            t,
            frame.data.field_uninit(offset),
            AllocatedShape::new(array_type.t, size),
            FrameOwnership::Field { field_idx: idx },
            child_plan_id,
        );
        if was_init {
            next.mark_as_init();
        }
        Ok(next)
    }

    /// Enters a field of the chosen variant of an enum.
    pub fn begin_nth_enum_field(
        t: &ShapeTable,
        frame: &mut Frame,
        variant: &Variant,
        idx: usize,
        child_plan_id: NodeId,
    ) -> (r: Result<Frame, ReflectErrorKind>)
        requires
            t.field_ok(variant.fields@, idx),
        ensures
            ({
                let e = old(frame)@.enum_field_begun(*t, variant.fields@, idx, child_plan_id);
                &&& final(frame)@ == e.frame
                &&& match e.result {
                    Ok(f) => r matches Ok(x) && x@ == f,
                    Err(kind) => r matches Err(x) && x == kind,
                }
            }),
    {
        if idx >= variant.fields.len() {
            return Err(
                ReflectErrorKind::OperationFailed {
                    shape: frame.allocated.shape(),
                    operation: "enum field index out of bounds",
                },
            );
        }
        let field = &variant.fields[idx];
        let was_init = match &mut frame.tracker {
            Tracker::Enum { data, current_child, .. } => {
                *current_child = Some(idx);
                let was: bool = data.get(idx);
                data.unset(idx);
                was
            },
            _ => {
                return Err(
                    ReflectErrorKind::OperationFailed {
                        shape: frame.allocated.shape(),
                        operation: "selecting a field on an enum requires selecting a variant first",
                    },
                );
            },
        };
        Ok(Self::part(t, frame, field, idx, child_plan_id, was_init))
    }

    /// Makes room for another value in the current frame. Tells whether there was anything: the
    /// value, a part of it, or a value that waited to be moved in. Where there was nothing, nothing
    /// is dropped.
    ///
    /// A frame that is not responsible for its memory only lets go of a value that waits to be
    /// moved in, since that one has memory of its own.
    pub fn prepare_for_reinitialization<H: Host>(&mut self, host: &mut H) -> (r: bool)
        requires
            old(self).wf(),
        ensures
            r == old(self)@.top().holds_value(old(self).shapes()),
            !r ==> final(host).view() == old(host).view(),
            ({
                let o = old(self)@.room_made(old(self).shapes(), old(host).view());
                &&& final(self)@ == o.partial
                &&& final(host).view() == o.host
            }),
            final(self).root_plan == old(self).root_plan,
            final(self).wf(),
    {
        let plan = self.root_plan;
        let t = &plan.shapes;
        let ghost p0 = self@;
        let ghost f0 = p0.top();
        let top: usize = self.frames().len() - 1;
        assert(f0 == self.mode.spec_stack()@[top as int]@);
        assert(p0.stack[top as int].wf(*plan));
        let is_begun = match self.frames()[top].tracker {
            Tracker::Scalar => self.frames()[top].is_init,
            _ => true,
        };
        if !is_begun {
            assert(self@ =~= p0.with_top(f0));
            assert(host.view().plus(Seq::empty()) =~= host.view());
            return false;
        }
        let held = self.frames()[top].has_value(t);
        assert(host.view().plus(Seq::empty()) =~= host.view());
        let is_slice = match self.frames()[top].tracker {
            Tracker::SmartPointerSlice { .. } => true,
            _ => false,
        };
        let is_own = match self.frames()[top].ownership {
            FrameOwnership::Owned | FrameOwnership::Field { .. } => true,
            _ => false,
        };
        let owns = self.frames()[top].ownership.needs_dealloc();
        let sized = t.sized_layout(self.frames()[top].allocated.shape());
        assert(t.shape_ok(t.shapes@[f0.shape().id as int]));
        let buf: u64 = self.next_buffer;
        let mut f1: Ghost<FrameView> = Ghost(f0.cleared());
        let frame = &mut self.mode.stack_mut()[top];
        if !held {
            if is_own {
                frame.tracker = Tracker::Scalar;
            }
        } else if is_own || is_slice {
            frame.deinit(t, host);
        } else {
            frame.drop_pending_smart_pointer_staging(t, host);
        }
        let mut next: u64 = buf;
        if is_slice && owns {
            if let Some(layout) = sized {
                let data = alloc_for_layout(layout, buf, host);
                frame.house(data, layout);
                next = buf.wrapping_add(1);
                f1 = Ghost(f0.cleared().housed(data, layout));
            }
        }
        self.next_buffer = next;
        let ghost p1 = PartialView { next_buffer: next, ..p0 };
        proof {
            lemma_same_frames_wf(p0, p1, *plan);
            lemma_with_top(p1, *plan, f1@);
        }
        assert(self@ =~= p1.with_top(f1@));
        held
    }
}

} // verus!
