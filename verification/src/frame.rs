//! Frames: one place in a value that is being built, and what is known about it.
use vstd::prelude::*;

use crate::error::ReflectErrorKind;
use crate::iset::{has_all, ISet};
use crate::memory::{Addr, Host, MemOp, PtrUninit};
use crate::plan::{NodeId, TypePlanCore};
use crate::shape::{
    Def, EnumType, Field, Layout, MapDef, ProxyDef, SequenceType, ShapeRef, ShapeTable, Type,
    UserType,
};
use crate::tracker::{
    DynamicObjectInsertState, DynamicValueState, DynamicValueView, MapInsertState, Tracker,
    TrackerView,
};

verus! {

/// Who is responsible for the memory of a frame.
#[derive(Clone, Copy, PartialEq, Eq, Structural, Debug)]
pub enum FrameOwnership {
    /// The frame owns its allocation.
    Owned,
    /// The frame points to a field or element of its parent's allocation. The parent's bit was
    /// cleared when the frame was created, and is set again when the frame ends successfully.
    Field { field_idx: usize },
    /// A temporary buffer for a map key or value; the frame owns it.
    TrackedBuffer,
    /// The frame points to an entry of an existing collection, which keeps the value.
    BorrowedInPlace,
    /// The frame points to memory that the caller owns.
    External,
    /// The frame points to a slot of its parent's rope.
    RopeSlot,
}

impl FrameOwnership {
    /// The frame is responsible for releasing its memory.
    pub open spec fn releases(self) -> bool {
        self is Owned || self is TrackedBuffer
    }

    /// Whether the frame is responsible for releasing its memory.
    pub fn needs_dealloc(&self) -> (r: bool)
        ensures
            r == self.releases(),
    {
        match self {
            FrameOwnership::Owned | FrameOwnership::TrackedBuffer => true,
            _ => false,
        }
    }
}

/// A shape together with the size that was allocated for it.
#[derive(Clone, Copy, PartialEq, Eq, Structural, Debug)]
pub struct AllocatedShape {
    pub shape: ShapeRef,
    pub allocated_size: usize,
}

impl AllocatedShape {
    /// The shape is known, and the size is one that can have been allocated for it.
    pub open spec fn wf(self, t: ShapeTable) -> bool {
        &&& t.has(self.shape)
        &&& t.sized(self.shape) matches Some(l) ==> (Layout {
            size: self.allocated_size,
            align: l.align,
        }).is_valid()
    }

    /// Operations that release the allocation at `at`.
    pub open spec fn dealloc_ops(self, t: ShapeTable, at: Addr) -> Seq<MemOp> {
        match t.sized(self.shape) {
            Some(l) => if self.allocated_size == 0 {
                Seq::empty()
            } else {
                seq![MemOp::Dealloc { at, layout: Layout { size: self.allocated_size, align: l.align } }]
            },
            None => Seq::empty(),
        }
    }

    /// Pairs a shape with an allocation size.
    pub fn new(shape: ShapeRef, allocated_size: usize) -> (r: AllocatedShape)
        ensures
            r == (AllocatedShape { shape, allocated_size }),
    {
        AllocatedShape { shape, allocated_size }
    }

    /// The shape.
    pub fn shape(&self) -> (r: ShapeRef)
        ensures
            r == self.shape,
    {
        self.shape
    }

    /// The size that was allocated.
    pub fn allocated_size(&self) -> (r: usize)
        ensures
            r == self.allocated_size,
    {
        self.allocated_size
    }

    /// Releases a buffer of exactly the recorded size; an empty one was never allocated.
    pub fn deallocate<H: Host>(&self, t: &ShapeTable, data: PtrUninit, host: &mut H)
        requires
            self.wf(*t),
        ensures
            final(host).view() == old(host).view().plus(self.dealloc_ops(*t, data.addr)),
    {
        if self.allocated_size() == 0 {
            return ;
        }
        if let Some(layout) = t.sized_layout(self.shape) {
            let actual = Layout { size: self.allocated_size(), align: layout.align };
            host.act(MemOp::Dealloc { at: data.addr, layout: actual });
        }
    }
}

/// A fully initialized value that waits to be moved into a smart pointer.
///
/// Its shape is kept apart from the pointee's: a pointer to `str` is built from a `String`.
#[derive(Clone, Copy, PartialEq, Eq, Structural, Debug)]
pub struct PendingSmartPointerInner {
    pub data: PtrUninit,
    pub allocated: AllocatedShape,
    pub ownership: FrameOwnership,
}

impl PendingSmartPointerInner {
    /// Operations that release the memory after the value was moved out.
    pub open spec fn moved_ops(self, t: ShapeTable) -> Seq<MemOp> {
        if self.ownership.releases() {
            self.allocated.dealloc_ops(t, self.data.addr)
        } else {
            Seq::empty()
        }
    }

    /// Operations that drop the value and release its memory.
    pub open spec fn discard_ops(self, t: ShapeTable) -> Seq<MemOp> {
        if self.ownership is BorrowedInPlace {
            self.moved_ops(t)
        } else {
            t.drop_ops(self.allocated.shape, self.data.addr) + self.moved_ops(t)
        }
    }

    /// Takes over the value of a fully initialized frame.
    pub fn from_initialized_frame(frame: Frame) -> (r: PendingSmartPointerInner)
        ensures
            r == frame@.staged(),
    {
        PendingSmartPointerInner {
            data: frame.data,
            allocated: frame.allocated,
            ownership: frame.ownership,
        }
    }

    /// The shape of the waiting value.
    pub fn shape(&self) -> (r: ShapeRef)
        ensures
            r == self.allocated.shape,
    {
        self.allocated.shape()
    }

    /// Where the waiting value is.
    pub fn data(&self) -> (r: PtrUninit)
        ensures
            r == self.data,
    {
        self.data
    }

    /// Disposes of the value and of its memory.
    pub fn drop_and_dealloc<H: Host>(self, t: &ShapeTable, host: &mut H)
        requires
            self.allocated.wf(*t),
        ensures
            final(host).view() == old(host).view().plus(self.discard_ops(*t)),
    {
        match self.ownership {
            FrameOwnership::BorrowedInPlace => {},
            _ => {
                t.call_drop_in_place(self.allocated.shape(), self.data.addr, host);
            },
        }
        self.dealloc_after_move(t, host);
    }

    /// Disposes of the memory only: the value was moved out of it.
    pub fn dealloc_after_move<H: Host>(self, t: &ShapeTable, host: &mut H)
        requires
            self.allocated.wf(*t),
        ensures
            final(host).view() == old(host).view().plus(self.moved_ops(*t)),
    {
        if self.ownership.needs_dealloc() {
            self.allocated.deallocate(t, self.data, host);
        }
    }
}

/// Points somewhere in a partially initialized value, and knows which parts of it are there.
#[derive(Debug)]
pub struct Frame {
    /// Where the value is being built.
    pub data: PtrUninit,
    /// Shape of the value, with the size that was allocated.
    pub allocated: AllocatedShape,
    /// The value as a whole is initialized.
    pub is_init: bool,
    /// Building mode and partial initialization state.
    pub tracker: Tracker,
    /// Who is responsible for the memory.
    pub ownership: FrameOwnership,
    /// The value is a proxy, from which the parent is converted.
    pub using_custom_deserialization: bool,
    /// The proxy conversion that the shape or the format asks for.
    pub shape_level_proxy: Option<ProxyDef>,
    /// The plan node of the value's type.
    pub type_plan: NodeId,
}

/// A part that will wait in a slot of the tracker of the frame that builds it.
pub enum Asking {
    Nothing,
    /// The value inside `Some`.
    Inner,
    /// A key of a map.
    Key,
    /// A value of a map.
    Value,
    /// An element or entry of a dynamic value.
    Dynamic,
}

/// A frame as the contracts see it.
#[verifier::ext_equal]
pub struct FrameView {
    pub data: PtrUninit,
    pub allocated: AllocatedShape,
    pub is_init: bool,
    pub tracker: TrackerView,
    pub ownership: FrameOwnership,
    pub using_custom_deserialization: bool,
    pub shape_level_proxy: Option<ProxyDef>,
    pub type_plan: NodeId,
}

impl View for Frame {
    type V = FrameView;

    open spec fn view(&self) -> FrameView {
        FrameView {
            data: self.data,
            allocated: self.allocated,
            is_init: self.is_init,
            tracker: self.tracker@,
            ownership: self.ownership,
            using_custom_deserialization: self.using_custom_deserialization,
            shape_level_proxy: self.shape_level_proxy,
            type_plan: self.type_plan,
        }
    }
}

/// Drops a value and releases a buffer of exactly its size.
pub open spec fn discard_value_ops(t: ShapeTable, shape: ShapeRef, at: Addr) -> Seq<MemOp> {
    t.drop_ops(shape, at) + t.dealloc_ops(shape, at)
}

/// Drops the first `n` elements of an array that are initialized, in order.
pub open spec fn drop_elements_ops(
    t: ShapeTable,
    elem: ShapeRef,
    size: usize,
    at: Addr,
    iset: Set<int>,
    n: nat,
) -> Seq<MemOp>
    decreases n,
{
    if n == 0 {
        Seq::empty()
    } else {
        let rest = drop_elements_ops(t, elem, size, at, iset, (n - 1) as nat);
        if iset.contains(n - 1) {
            rest + t.drop_ops(elem, at.field((size * (n - 1)) as usize))
        } else {
            rest
        }
    }
}

/// Drops those of the first `n` fields that are initialized, in order.
pub open spec fn drop_fields_ops(
    t: ShapeTable,
    fields: Seq<Field>,
    at: Addr,
    iset: Set<int>,
    n: nat,
) -> Seq<MemOp>
    decreases n,
{
    if n == 0 {
        Seq::empty()
    } else {
        let rest = drop_fields_ops(t, fields, at, iset, (n - 1) as nat);
        if iset.contains(n - 1) {
            rest + t.drop_ops(fields[n - 1].shape, at.field(fields[n - 1].offset))
        } else {
            rest
        }
    }
}

/// Drops the values in the first `n` slots, in order.
pub open spec fn drop_slots_ops(t: ShapeTable, shape: ShapeRef, slots: Seq<PtrUninit>, n: nat) -> Seq<
    MemOp,
>
    decreases n,
{
    if n == 0 {
        Seq::empty()
    } else {
        drop_slots_ops(t, shape, slots, (n - 1) as nat) + t.drop_ops(shape, slots[n - 1].addr)
    }
}

/// Drops and releases the first `n` map entries; a key without a value goes alone.
pub open spec fn discard_entries_ops(
    t: ShapeTable,
    d: MapDef,
    entries: Seq<(PtrUninit, Option<PtrUninit>)>,
    n: nat,
) -> Seq<MemOp>
    decreases n,
{
    if n == 0 {
        Seq::empty()
    } else {
        let (key, value) = entries[n - 1];
        discard_entries_ops(t, d, entries, (n - 1) as nat) + discard_value_ops(t, d.k, key.addr) + (
        match value {
            Some(v) => discard_value_ops(t, d.v, v.addr),
            None => Seq::empty(),
        })
    }
}

/// Drops and releases the first `n` values.
pub open spec fn discard_values_ops(
    t: ShapeTable,
    shape: ShapeRef,
    values: Seq<PtrUninit>,
    n: nat,
) -> Seq<MemOp>
    decreases n,
{
    if n == 0 {
        Seq::empty()
    } else {
        discard_values_ops(t, shape, values, (n - 1) as nat) + discard_value_ops(
            t,
            shape,
            values[n - 1].addr,
        )
    }
}

/// The values of keyed entries.
pub open spec fn entry_values(entries: Seq<(String, PtrUninit)>) -> Seq<PtrUninit> {
    Seq::new(entries.len(), |i: int| entries[i].1)
}

impl FrameView {
    /// The shape of the value.
    pub open spec fn shape(self) -> ShapeRef {
        self.allocated.shape
    }

    /// Another state of the same frame: only what is initialized and tracked may differ.
    pub open spec fn same_frame(self, other: FrameView) -> bool {
        &&& other.data == self.data
        &&& other.allocated == self.allocated
        &&& other.ownership == self.ownership
        &&& other.using_custom_deserialization == self.using_custom_deserialization
        &&& other.shape_level_proxy == self.shape_level_proxy
        &&& other.type_plan == self.type_plan
    }

    /// A frame that owns its memory has as much as its type needs. While a slice is built, it has
    /// none: its data is the builder, which is freed or converted by functions of its own.
    pub open spec fn is_exact(self, t: ShapeTable) -> bool {
        self.ownership.releases() ==> (t.sized(self.shape()) matches Some(l)
            ==> self.allocated.allocated_size == (if self.tracker is SmartPointerSlice {
            0
        } else {
            l.size
        }))
    }

    /// The frame owns memory for a value of this shape.
    pub open spec fn owns(self, shape: ShapeRef) -> bool {
        self.ownership.releases() && self.shape() == shape
    }

    /// Which part the frame is building that it will let wait in a slot of its tracker: the value
    /// of an option, a key or value of a map, or a part of a dynamic value.
    pub open spec fn asking(self) -> Asking {
        match self.tracker {
            TrackerView::Option { building_inner: true, .. } => Asking::Inner,
            TrackerView::MapOf { insert_state: MapInsertState::PushingKey { .. }, .. } => Asking::Key,
            TrackerView::MapOf {
                insert_state: MapInsertState::PushingValue { value_ptr: Some(_), .. },
                ..
            } => Asking::Value,
            TrackerView::DynamicValue {
                state: DynamicValueView::Array { building_element: true, .. },
            } => Asking::Dynamic,
            TrackerView::DynamicValue {
                state: DynamicValueView::Object {
                    insert_state: DynamicObjectInsertState::BuildingValue { .. },
                    ..
                },
            } => Asking::Dynamic,
            _ => Asking::Nothing,
        }
    }

    /// A child is what the frame asks for: memory that will wait in a slot of the tracker is memory
    /// that the child owns, for a value of the right shape. An entry of a dynamic value that is
    /// there already may be built in place.
    pub open spec fn suits(self, t: ShapeTable, child: FrameView) -> bool {
        match (self.asking(), t.at(self.shape()).def) {
            (Asking::Inner, Def::Option(d)) => child.owns(d.t) || child.ownership is Field,
            (Asking::Key, Def::MapOf(d)) => child.owns(d.k) || child.ownership is Field,
            (Asking::Value, Def::MapOf(d)) => child.owns(d.v) || child.ownership is Field,
            (Asking::Dynamic, _) => child.owns(self.shape())
                || child.ownership is BorrowedInPlace,
            _ => true,
        }
    }

    /// The shape of the frame is known, its tracker fits the shape, and so does its memory.
    pub open spec fn fits(self, t: ShapeTable) -> bool {
        &&& self.allocated.wf(t)
        &&& self.tracker.wf(t, self.shape())
        &&& self.is_exact(t)
    }

    /// The frame without memory of its own.
    pub open spec fn unallocated(self) -> FrameView {
        if self.ownership.releases() {
            FrameView { allocated: AllocatedShape { allocated_size: 0, ..self.allocated }, ..self }
        } else {
            self
        }
    }

    /// The frame as an initialized value at `data`. A frame that owns its memory owns all of it.
    pub open spec fn placed(self, data: PtrUninit, layout: Layout) -> FrameView {
        FrameView {
            data,
            allocated: if self.ownership.releases() {
                AllocatedShape { allocated_size: layout.size, ..self.allocated }
            } else {
                self.allocated
            },
            tracker: TrackerView::Scalar,
            is_init: true,
            ..self
        }
    }

    /// The frame fits the plan: its shape, its plan node and its tracker agree.
    pub open spec fn wf(self, plan: TypePlanCore) -> bool {
        &&& self.fits(plan.shapes)
        &&& plan.has_node(self.type_plan)
        &&& plan.node_at(self.type_plan).shape == self.shape()
        &&& plan.node_at(self.type_plan).has_fields() ==> self.tracker is Scalar
            || self.tracker is Struct || self.tracker is Enum
    }

    /// The value of the frame, as it waits to be moved into a smart pointer.
    pub open spec fn staged(self) -> PendingSmartPointerInner {
        PendingSmartPointerInner {
            data: self.data,
            allocated: self.allocated,
            ownership: self.ownership,
        }
    }

    /// Operations that drop the value as a whole.
    pub open spec fn drop_whole_ops(self, t: ShapeTable) -> Seq<MemOp> {
        t.drop_ops(self.shape(), self.data.addr)
    }

    /// Operations that drop the value as a whole, if it is initialized.
    pub open spec fn drop_if_init_ops(self, t: ShapeTable) -> Seq<MemOp> {
        if self.is_init {
            self.drop_whole_ops(t)
        } else {
            Seq::empty()
        }
    }

    /// Operations that discard a value waiting to be moved into this smart pointer.
    pub open spec fn drop_staging_ops(self, t: ShapeTable) -> Seq<MemOp> {
        match self.tracker {
            TrackerView::SmartPointer { pending_inner: Some(p), .. } => p.discard_ops(t),
            _ => Seq::empty(),
        }
    }

    /// Operations that discard what waits to be moved into the value, with its memory.
    pub open spec fn drop_waiting_ops(self, t: ShapeTable) -> Seq<MemOp> {
        match self.tracker {
            TrackerView::SmartPointer { pending_inner: Some(p), .. } => p.discard_ops(t),
            TrackerView::SmartPointerSlice { vtable, .. } => seq![
                MemOp::SliceFree { f: vtable.free_fn, builder: self.data.addr },
            ],
            TrackerView::List { rope: Some(r), .. } => (match t.at(self.shape()).def {
                Def::List(d) => drop_slots_ops(t, d.t, r.slots, r.initialized as nat),
                _ => Seq::empty(),
            }) + seq![MemOp::FreeRope { rope: r.id }],
            TrackerView::MapOf { pending_entries, .. } => match t.at(self.shape()).def {
                Def::MapOf(d) => discard_entries_ops(t, d, pending_entries, pending_entries.len()),
                _ => Seq::empty(),
            },
            TrackerView::Option { pending_inner: Some(p), .. } => match t.at(self.shape()).def {
                Def::Option(d) => discard_value_ops(t, d.t, p.addr),
                _ => Seq::empty(),
            },
            TrackerView::DynamicValue { state } => match state {
                DynamicValueView::Object { pending_entries, .. } => if t.at(
                    self.shape(),
                ).def is DynamicValue {
                    discard_values_ops(
                        t,
                        self.shape(),
                        entry_values(pending_entries),
                        pending_entries.len(),
                    )
                } else {
                    Seq::empty()
                },
                DynamicValueView::Array { pending_elements, .. } => discard_values_ops(
                    t,
                    self.shape(),
                    pending_elements,
                    pending_elements.len(),
                ),
                _ => Seq::empty(),
            },
            _ => Seq::empty(),
        }
    }

    /// Operations that drop exactly what is initialized.
    ///
    /// A frame on an entry of an existing collection drops nothing of the entry, but what waits to
    /// be moved into it has memory of its own, and is discarded everywhere. A complete
    /// struct is dropped as a whole, an incomplete one field by field; an enum always field by
    /// field. While a value waits to be moved into a pointer or option, that value is dropped and
    /// the memory of the pointer or option, which is not initialized, is left alone.
    #[verifier::opaque]
    pub open spec fn deinit_ops(self, t: ShapeTable) -> Seq<MemOp> {
        if self.ownership is BorrowedInPlace {
            self.drop_waiting_ops(t)
        } else {
            match self.tracker {
                TrackerView::Scalar => self.drop_if_init_ops(t),
                TrackerView::Array { iset, .. } => match t.at(self.shape()).ty {
                    Type::Sequence(SequenceType::Array(a)) => match t.sized(a.t) {
                        Some(l) => drop_elements_ops(
                            t,
                            a.t,
                            l.size,
                            self.data.addr,
                            iset,
                            a.n as nat,
                        ),
                        None => Seq::empty(),
                    },
                    _ => Seq::empty(),
                },
                TrackerView::Struct { iset, .. } => if !t.is_struct(self.shape()) {
                    Seq::empty()
                } else if has_all(iset, t.struct_fields(self.shape()).len() as int) {
                    self.drop_whole_ops(t)
                } else {
                    let fields = t.struct_fields(self.shape());
                    drop_fields_ops(t, fields, self.data.addr, iset, fields.len())
                },
                TrackerView::Enum { variant_idx, data, .. } => {
                    let fields = t.variant_fields(self.shape(), variant_idx);
                    drop_fields_ops(t, fields, self.data.addr, data, fields.len())
                },
                TrackerView::SmartPointer { pending_inner, .. } => if pending_inner is Some {
                    self.drop_waiting_ops(t)
                } else {
                    self.drop_if_init_ops(t)
                },
                TrackerView::SmartPointerSlice { .. } => self.drop_waiting_ops(t),
                TrackerView::List { .. } => self.drop_waiting_ops(t) + self.drop_if_init_ops(t),
                TrackerView::MapOf { .. } => self.drop_if_init_ops(t) + self.drop_waiting_ops(t),
                TrackerView::SetOf { .. } => self.drop_if_init_ops(t),
                TrackerView::Option { building_inner, pending_inner } => if pending_inner is Some {
                    self.drop_waiting_ops(t)
                } else if building_inner {
                    Seq::empty()
                } else {
                    self.drop_whole_ops(t)
                },
                TrackerView::Result { building_inner, .. } => if building_inner {
                    Seq::empty()
                } else {
                    self.drop_whole_ops(t)
                },
                TrackerView::DynamicValue { .. } => self.drop_waiting_ops(t)
                    + self.drop_if_init_ops(t),
                TrackerView::Inner { .. } => self.drop_if_init_ops(t),
            }
        }
    }

    /// The frame once nothing of its value is left.
    pub open spec fn deinited(self) -> FrameView {
        FrameView { is_init: false, tracker: TrackerView::Scalar, ..self }
    }

    /// The frame without a value waiting to be moved in.
    pub open spec fn without_staging(self) -> FrameView {
        match self.tracker {
            TrackerView::SmartPointer { building_inner, .. } => FrameView {
                tracker: TrackerView::SmartPointer { building_inner, pending_inner: None },
                ..self
            },
            _ => self,
        }
    }

    /// All fields of the chosen variant are initialized.
    pub open spec fn is_complete_enum(self, t: ShapeTable) -> bool {
        self.tracker matches TrackerView::Enum { variant_idx, data, .. } && has_all(
            data,
            t.variant_fields(self.shape(), variant_idx).len() as int,
        )
    }

    /// Operations that drop what is initialized when building is given up.
    pub open spec fn cancel_ops(self, t: ShapeTable) -> Seq<MemOp> {
        if self.is_complete_enum(t) {
            if self.ownership is BorrowedInPlace {
                Seq::empty()
            } else {
                self.drop_whole_ops(t)
            }
        } else {
            self.deinit_ops(t)
        }
    }

    /// The frame is on an entry of an existing collection, and the entry is initialized.
    pub open spec fn holds_entry(self) -> bool {
        self.ownership is BorrowedInPlace && self.is_init
    }

    /// Operations that make way for another value.
    pub open spec fn replace_ops(self, t: ShapeTable) -> Seq<MemOp> {
        if self.holds_entry() {
            self.drop_whole_ops(t) + (match t.at(self.shape()).def {
                Def::DynamicValue(d) => seq![MemOp::SetNull { f: d.set_null, at: self.data.addr }],
                _ => Seq::empty(),
            })
        } else {
            self.deinit_ops(t)
        }
    }

    /// The frame once another value may be written.
    pub open spec fn replaceable(self, t: ShapeTable) -> FrameView {
        if self.holds_entry() && t.at(self.shape()).def is DynamicValue {
            FrameView {
                tracker: TrackerView::DynamicValue { state: DynamicValueView::Scalar },
                ..self
            }
        } else {
            self.deinited()
        }
    }

    /// The field that the frame points into.
    pub open spec fn field(self, t: ShapeTable) -> Option<Field> {
        match self.tracker {
            TrackerView::Struct { current_child: Some(idx), .. } => if t.is_struct(self.shape())
                && idx < t.struct_fields(self.shape()).len() {
                Some(t.struct_fields(self.shape())[idx as int])
            } else {
                None
            },
            TrackerView::Enum { variant_idx, current_child: Some(idx), .. } => if idx
                < t.variant_fields(self.shape(), variant_idx).len() {
                Some(t.variant_fields(self.shape(), variant_idx)[idx as int])
            } else {
                None
            },
            _ => None,
        }
    }

    /// Operations that release the memory of the frame, if it owns it.
    pub open spec fn dealloc_ops(self, t: ShapeTable) -> Seq<MemOp> {
        if self.ownership.releases() {
            self.allocated.dealloc_ops(t, self.data.addr)
        } else {
            Seq::empty()
        }
    }
}

fn drop_elements<H: Host>(
    t: &ShapeTable,
    elem: ShapeRef,
    size: usize,
    at: Addr,
    iset: &ISet,
    n: usize,
    host: &mut H,
)
    requires
        t.has(elem),
        n * size <= usize::MAX,
    ensures
        final(host).view() == old(host).view().plus(
            drop_elements_ops(*t, elem, size, at, iset@, n as nat),
        ),
{
    let mut idx: usize = 0;
    while idx < n
        invariant
            idx <= n,
            t.has(elem),
            n * size <= usize::MAX,
            host.view() == old(host).view().plus(
                drop_elements_ops(*t, elem, size, at, iset@, idx as nat),
            ),
        decreases n - idx,
    {
        if iset.get(idx) {
            assert(size * idx <= n * size) by (nonlinear_arith)
                requires
                    idx <= n,
            ;
            let offset: usize = size * idx;
            t.call_drop_in_place(elem, at.field(offset), host);
        }
        idx = idx + 1;
    }
}

fn drop_fields<H: Host>(t: &ShapeTable, fields: &Vec<Field>, at: Addr, iset: &ISet, host: &mut H)
    requires
        t.fields_ok(fields@),
    ensures
        final(host).view() == old(host).view().plus(
            drop_fields_ops(*t, fields@, at, iset@, fields@.len()),
        ),
{
    let mut idx: usize = 0;
    while idx < fields.len()
        invariant
            idx <= fields@.len(),
            t.fields_ok(fields@),
            host.view() == old(host).view().plus(
                drop_fields_ops(*t, fields@, at, iset@, idx as nat),
            ),
        decreases fields@.len() - idx,
    {
        if iset.get(idx) {
            let field = &fields[idx];
            t.call_drop_in_place(field.shape, at.field(field.offset), host);
        }
        idx = idx + 1;
    }
}

/// Drops the values in the first `n` slots.
pub fn drop_slots<H: Host>(
    t: &ShapeTable,
    shape: ShapeRef,
    slots: &Vec<PtrUninit>,
    n: usize,
    host: &mut H,
)
    requires
        t.has(shape),
        n <= slots@.len(),
    ensures
        final(host).view() == old(host).view().plus(drop_slots_ops(*t, shape, slots@, n as nat)),
{
    let mut idx: usize = 0;
    while idx < n
        invariant
            idx <= n <= slots@.len(),
            t.has(shape),
            host.view() == old(host).view().plus(
                drop_slots_ops(*t, shape, slots@, idx as nat),
            ),
        decreases n - idx,
    {
        t.call_drop_in_place(shape, slots[idx].addr, host);
        idx = idx + 1;
    }
}

/// Drops a value and releases its buffer.
pub fn discard_value<H: Host>(t: &ShapeTable, shape: ShapeRef, at: Addr, host: &mut H)
    requires
        t.has(shape),
    ensures
        final(host).view() == old(host).view().plus(discard_value_ops(*t, shape, at)),
{
    t.call_drop_in_place(shape, at, host);
    t.dealloc_shape(shape, at, host);
}

fn discard_entries<H: Host>(
    t: &ShapeTable,
    d: MapDef,
    entries: &Vec<(PtrUninit, Option<PtrUninit>)>,
    host: &mut H,
)
    requires
        t.has(d.k),
        t.has(d.v),
    ensures
        final(host).view() == old(host).view().plus(
            discard_entries_ops(*t, d, entries@, entries@.len()),
        ),
{
    let mut idx: usize = 0;
    while idx < entries.len()
        invariant
            idx <= entries@.len(),
            t.has(d.k),
            t.has(d.v),
            host.view() == old(host).view().plus(
                discard_entries_ops(*t, d, entries@, idx as nat),
            ),
        decreases entries@.len() - idx,
    {
        let (key, value) = entries[idx];
        discard_value(t, d.k, key.addr, host);
        if let Some(v) = value {
            discard_value(t, d.v, v.addr, host);
        }
        idx = idx + 1;
    }
}

fn discard_values<H: Host>(t: &ShapeTable, shape: ShapeRef, values: &Vec<PtrUninit>, host: &mut H)
    requires
        t.has(shape),
    ensures
        final(host).view() == old(host).view().plus(
            discard_values_ops(*t, shape, values@, values@.len()),
        ),
{
    let mut idx: usize = 0;
    while idx < values.len()
        invariant
            idx <= values@.len(),
            t.has(shape),
            host.view() == old(host).view().plus(
                discard_values_ops(*t, shape, values@, idx as nat),
            ),
        decreases values@.len() - idx,
    {
        discard_value(t, shape, values[idx].addr, host);
        idx = idx + 1;
    }
}

fn discard_entry_values<H: Host>(
    t: &ShapeTable,
    shape: ShapeRef,
    entries: &Vec<(String, PtrUninit)>,
    host: &mut H,
)
    requires
        t.has(shape),
    ensures
        final(host).view() == old(host).view().plus(
            discard_values_ops(*t, shape, entry_values(entries@), entries@.len()),
        ),
{
    let mut idx: usize = 0;
    while idx < entries.len()
        invariant
            idx <= entries@.len(),
            t.has(shape),
            host.view() == old(host).view().plus(
                discard_values_ops(*t, shape, entry_values(entries@), idx as nat),
            ),
        decreases entries@.len() - idx,
    {
        let entry = &entries[idx];
        discard_value(t, shape, entry.1.addr, host);
        idx = idx + 1;
    }
}

impl Frame {
    /// The frame as it starts out: only a struct without fields is initialized already.
    pub open spec fn spec_new(
        t: ShapeTable,
        data: PtrUninit,
        allocated: AllocatedShape,
        ownership: FrameOwnership,
        type_plan: NodeId,
    ) -> FrameView {
        FrameView {
            data,
            allocated,
            is_init: t.is_struct(allocated.shape) && t.struct_fields(allocated.shape).len() == 0,
            tracker: TrackerView::Scalar,
            ownership,
            using_custom_deserialization: false,
            shape_level_proxy: None,
            type_plan,
        }
    }

    /// A frame for memory in which nothing is initialized yet.
    pub fn new(
        t: &ShapeTable,
        data: PtrUninit,
        allocated: AllocatedShape,
        ownership: FrameOwnership,
        type_plan: NodeId,
    ) -> (f: Frame)
        requires
            t.has(allocated.shape),
        ensures
            f@ == Frame::spec_new(*t, data, allocated, ownership, type_plan),
    {
        let is_init = match t.struct_type(allocated.shape) {
            Some(st) => st.fields.len() == 0,
            None => false,
        };
        Frame {
            data,
            allocated,
            is_init,
            tracker: Tracker::Scalar,
            ownership,
            using_custom_deserialization: false,
            shape_level_proxy: None,
            type_plan,
        }
    }

    /// Releases a value that waits to be moved into this smart pointer, without touching the
    /// pointer's own memory. Tells whether there was one.
    ///
    /// The waiting value has an allocation of its own even where the frame only borrows its
    /// destination, and so is released whatever the frame owns.
    pub fn drop_pending_smart_pointer_staging<H: Host>(&mut self, t: &ShapeTable, host: &mut H) -> (r:
        bool)
        requires
            old(self)@.fits(*t),
        ensures
            r == (old(self)@.tracker matches TrackerView::SmartPointer { pending_inner: Some(_), .. }),
            final(self)@ == old(self)@.without_staging(),
            final(host).view() == old(host).view().plus(old(self)@.drop_staging_ops(*t)),
    {
        match &mut self.tracker {
            Tracker::SmartPointer { pending_inner, .. } => match pending_inner.take() {
                Some(pending) => {
                    pending.drop_and_dealloc(t, host);
                    true
                },
                None => false,
            },
            _ => false,
        }
    }

    /// Deinitializes a canceled frame after its child frames have been cleaned up and their bits
    /// cleared in this frame's tracker.
    ///
    /// An enum with all its field bits set is a complete value by then, so its own destructor
    /// runs.
    pub fn deinit_for_cancellation<H: Host>(&mut self, t: &ShapeTable, host: &mut H)
        requires
            t.wf(),
            old(self)@.fits(*t),
        ensures
            final(self)@ == old(self)@.deinited(),
            final(host).view() == old(host).view().plus(old(self)@.cancel_ops(*t)),
    {
        reveal(FrameView::deinit_ops);
        let complete = match &self.tracker {
            Tracker::Enum { variant_idx, data, .. } => data.all_set(
                t.variant(self.allocated.shape, *variant_idx).fields.len(),
            ),
            _ => false,
        };
        if complete {
            self.tracker = Tracker::Scalar;
            self.is_init = true;
        }
        self.deinit(t, host);
    }

    /// Drops whatever is initialized. No memory of the frame itself is released.
    ///
    /// Afterwards nothing is initialized and nothing is tracked.
    pub fn deinit<H: Host>(&mut self, t: &ShapeTable, host: &mut H)
        requires
            t.wf(),
            old(self)@.fits(*t),
        ensures
            final(self)@ == old(self)@.deinited(),
            final(host).view() == old(host).view().plus(old(self)@.deinit_ops(*t)),
    {
        reveal(FrameView::deinit_ops);
        if let FrameOwnership::BorrowedInPlace = self.ownership {
            self.drop_waiting(t, host);
            self.is_init = false;
            self.tracker = Tracker::Scalar;
            return ;
        }
        let shape = self.allocated.shape();
        let at = self.data.addr;
        let is_init = self.is_init;
        match &self.tracker {
            Tracker::Scalar | Tracker::SetOf { .. } | Tracker::Inner { .. } => {
                if is_init {
                    t.call_drop_in_place(shape, at, host);
                }
            },
            Tracker::Array { iset, .. } => {
                if let Type::Sequence(SequenceType::Array(a)) = &t.get(shape).ty {
                    if let Some(layout) = t.sized_layout(a.t) {
                        drop_elements(t, a.t, layout.size, at, iset, a.n, host);
                    }
                }
            },
            Tracker::Struct { iset, .. } => {
                if let Some(st) = t.struct_type(shape) {
                    if iset.all_set(st.fields.len()) {
                        t.call_drop_in_place(shape, at, host);
                    } else {
                        drop_fields(t, &st.fields, at, iset, host);
                    }
                }
            },
            Tracker::Enum { variant_idx, data, .. } => {
                drop_fields(t, &t.variant(shape, *variant_idx).fields, at, data, host);
            },
            Tracker::SmartPointer { pending_inner, .. } => {
                if pending_inner.is_some() {
                    self.drop_waiting(t, host);
                } else if is_init {
                    t.call_drop_in_place(shape, at, host);
                }
            },
            Tracker::SmartPointerSlice { .. } => {
                self.drop_waiting(t, host);
            },
            Tracker::List { .. } | Tracker::DynamicValue { .. } => {
                self.drop_waiting(t, host);
                if is_init {
                    t.call_drop_in_place(shape, at, host);
                }
            },
            Tracker::MapOf { .. } => {
                if is_init {
                    t.call_drop_in_place(shape, at, host);
                }
                self.drop_waiting(t, host);
            },
            Tracker::Option { building_inner, pending_inner } => {
                if pending_inner.is_some() {
                    self.drop_waiting(t, host);
                } else if !*building_inner {
                    t.call_drop_in_place(shape, at, host);
                }
            },
            Tracker::Result { building_inner, .. } => {
                if !*building_inner {
                    t.call_drop_in_place(shape, at, host);
                }
            },
        }
        self.is_init = false;
        self.tracker = Tracker::Scalar;
    }

    /// Discards what waits to be moved into the value, with its memory.
    pub fn drop_waiting<H: Host>(&self, t: &ShapeTable, host: &mut H)
        requires
            t.wf(),
            self@.fits(*t),
        ensures
            final(host).view() == old(host).view().plus(self@.drop_waiting_ops(*t)),
    {
        let shape = self.allocated.shape();
        let at = self.data.addr;
        assert(t.shape_ok(t.shapes@[shape.id as int]));
        match &self.tracker {
            Tracker::SmartPointer { pending_inner: Some(pending), .. } => {
                pending.drop_and_dealloc(t, host);
            },
            Tracker::SmartPointerSlice { vtable, .. } => {
                host.act(MemOp::SliceFree { f: vtable.free_fn, builder: at });
            },
            Tracker::List { rope: Some(rope), .. } => {
                if let Def::List(d) = &t.get(shape).def {
                    drop_slots(t, d.t, &rope.slots, rope.initialized_count(), host);
                }
                host.act(MemOp::FreeRope { rope: rope.id });
            },
            Tracker::MapOf { pending_entries, .. } => {
                if let Def::MapOf(d) = &t.get(shape).def {
                    discard_entries(t, *d, pending_entries, host);
                }
            },
            Tracker::Option { pending_inner: Some(inner), .. } => {
                if let Def::Option(d) = &t.get(shape).def {
                    discard_value(t, d.t, inner.addr, host);
                }
            },
            Tracker::DynamicValue { state } => {
                match state {
                    DynamicValueState::Object { pending_entries, .. } => {
                        if let Def::DynamicValue(_) = &t.get(shape).def {
                            discard_entry_values(t, shape, pending_entries, host);
                        }
                    },
                    DynamicValueState::Array { pending_elements, .. } => {
                        discard_values(t, shape, pending_elements, host);
                    },
                    _ => {},
                }
            },
            _ => {},
        }
    }

    /// Drops the value because another one is about to take its place.
    ///
    /// An entry of an existing collection is dropped here too. A dynamic value there becomes
    /// null, because its collection will drop it again.
    pub fn deinit_for_replace<H: Host>(&mut self, t: &ShapeTable, host: &mut H)
        requires
            t.wf(),
            old(self)@.fits(*t),
        ensures
            final(self)@ == old(self)@.replaceable(*t),
            final(host).view() == old(host).view().plus(old(self)@.replace_ops(*t)),
    {
        let in_place = match self.ownership {
            FrameOwnership::BorrowedInPlace => true,
            _ => false,
        };
        if in_place && self.is_init {
            let shape = self.allocated.shape();
            t.call_drop_in_place(shape, self.data.addr, host);
            if let Def::DynamicValue(d) = &t.get(shape).def {
                host.act(MemOp::SetNull { f: d.set_null, at: self.data.addr });
                self.tracker = Tracker::DynamicValue { state: DynamicValueState::Scalar };
                return ;
            }
            self.is_init = false;
            self.tracker = Tracker::Scalar;
            return ;
        }
        self.deinit(t, host);
    }

    /// Records that the value as a whole was initialized.
    pub fn mark_as_init(&mut self)
        ensures
            final(self)@ == (FrameView { is_init: true, ..old(self)@ }),
    {
        self.is_init = true;
    }

    /// Releases the memory of the frame, if it owns it. The value must be gone by then.
    pub fn dealloc<H: Host>(self, t: &ShapeTable, host: &mut H)
        requires
            self@.allocated.wf(*t),
            self@.ownership.releases() ==> !self@.is_init,
        ensures
            final(host).view() == old(host).view().plus(self@.dealloc_ops(*t)),
    {
        if !self.ownership.needs_dealloc() {
            return ;
        }
        self.allocated.deallocate(t, self.data, host);
    }

    /// Releases the memory of the frame, if it owns it, and leaves the frame without.
    pub fn give_back_memory<H: Host>(&mut self, t: &ShapeTable, host: &mut H)
        requires
            old(self)@.allocated.wf(*t),
        ensures
            final(self)@ == old(self)@.unallocated(),
            final(host).view() == old(host).view().plus(old(self)@.dealloc_ops(*t)),
    {
        if self.ownership.needs_dealloc() {
            self.allocated.deallocate(t, self.data, host);
            self.allocated = AllocatedShape::new(self.allocated.shape(), 0);
        }
    }

    /// Gives the frame memory of its own.
    pub fn house(&mut self, data: PtrUninit, layout: Layout)
        ensures
            final(self)@ == old(self)@.housed(data, layout),
    {
        self.data = data;
        self.allocated = AllocatedShape::new(self.allocated.shape(), layout.size);
    }

    /// Makes the frame an initialized value at `data`.
    pub fn place(&mut self, data: PtrUninit, layout: Layout)
        ensures
            final(self)@ == old(self)@.placed(data, layout),
    {
        self.data = data;
        if self.ownership.needs_dealloc() {
            self.allocated = AllocatedShape::new(self.allocated.shape(), layout.size);
        }
        self.tracker = Tracker::Scalar;
        self.is_init = true;
    }

    /// The enum type of the frame's shape, if it is an enum.
    pub fn get_enum_type<'a>(&self, t: &'a ShapeTable) -> (r: Result<&'a EnumType, ReflectErrorKind>)
        requires
            t.has(self@.shape()),
        ensures
            r matches Ok(e) ==> t.is_enum(self@.shape()) && t.at(self@.shape()).ty == Type::User(
                UserType::Enum(*e),
            ),
            r matches Err(e) ==> !t.is_enum(self@.shape()) && e == (ReflectErrorKind::WasNotA {
                expected: "enum",
                actual: self@.shape(),
            }),
    {
        match &t.get(self.allocated.shape()).ty {
            Type::User(UserType::Enum(e)) => Ok(e),
            _ => Err(
                ReflectErrorKind::WasNotA { expected: "enum", actual: self.allocated.shape() },
            ),
        }
    }

    /// The field that the frame currently points into, if it points into a field.
    pub fn get_field<'a>(&self, t: &'a ShapeTable) -> (r: Option<&'a Field>)
        requires
            self@.fits(*t),
        ensures
            r is Some == self@.field(*t) is Some,
            r matches Some(f) ==> Some(*f) == self@.field(*t),
    {
        let shape = self.allocated.shape();
        match &t.get(shape).ty {
            Type::User(UserType::Struct(st)) => match &self.tracker {
                Tracker::Struct { current_child: Some(idx), .. } => {
                    if *idx < st.fields.len() {
                        Some(&st.fields[*idx])
                    } else {
                        None
                    }
                },
                _ => None,
            },
            Type::User(UserType::Enum(_)) => match &self.tracker {
                Tracker::Enum { variant_idx, current_child: Some(idx), .. } => {
                    let variant = t.variant(shape, *variant_idx);
                    if *idx < variant.fields.len() {
                        Some(&variant.fields[*idx])
                    } else {
                        None
                    }
                },
                _ => None,
            },
            _ => None,
        }
    }
}

} // verus!
