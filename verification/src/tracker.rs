//! How far a value has come: which of its parts are initialized, and what is under way.
use vstd::prelude::*;

use crate::frame::PendingSmartPointerInner;
use crate::iset::ISet;
use crate::memory::PtrUninit;
use crate::pointer::SliceBuilderVTable;
use crate::rope::{ListRope, RopeView};
use crate::shape::{ShapeRef, ShapeTable};

verus! {

/// Where the insertion of a map entry stands.
#[derive(Clone, Copy, PartialEq, Eq, Structural, Debug)]
pub enum MapInsertState {
    /// Not inserting.
    Idle,
    /// The key is being built.
    PushingKey {
        /// Buffer of the key.
        key_ptr: PtrUninit,
    },
    /// The key is done, and the value comes next or is being built.
    PushingValue {
        /// Buffer of the key.
        key_ptr: PtrUninit,
        /// Buffer of the value, once it was begun.
        value_ptr: Option<PtrUninit>,
    },
}

/// Where the insertion of a dynamic object entry stands.
#[derive(Debug)]
pub enum DynamicObjectInsertState {
    /// Ready for a new entry.
    Idle,
    /// The value for this key is being built.
    BuildingValue { key: String },
}

/// What kind of dynamic value is being built.
#[derive(Debug)]
pub enum DynamicValueState {
    /// Nothing was chosen yet.
    Uninit,
    /// A scalar.
    Scalar,
    /// An array; finished elements wait to be pushed.
    Array { building_element: bool, pending_elements: Vec<PtrUninit> },
    /// An object; finished entries wait to be inserted.
    Object {
        insert_state: DynamicObjectInsertState,
        pending_entries: Vec<(String, PtrUninit)>,
    },
}

/// A dynamic value as the contracts see it.
#[verifier::ext_equal]
pub enum DynamicValueView {
    Uninit,
    Scalar,
    Array { building_element: bool, pending_elements: Seq<PtrUninit> },
    Object { insert_state: DynamicObjectInsertState, pending_entries: Seq<(String, PtrUninit)> },
}

impl View for DynamicValueState {
    type V = DynamicValueView;

    open spec fn view(&self) -> DynamicValueView {
        match *self {
            DynamicValueState::Uninit => DynamicValueView::Uninit,
            DynamicValueState::Scalar => DynamicValueView::Scalar,
            DynamicValueState::Array {
                building_element,
                pending_elements,
            } => DynamicValueView::Array { building_element, pending_elements: pending_elements@ },
            DynamicValueState::Object {
                insert_state,
                pending_entries,
            } => DynamicValueView::Object { insert_state, pending_entries: pending_entries@ },
        }
    }
}

/// The building mode of a frame and its partial initialization state.
#[derive(Debug)]
#[allow(inconsistent_fields)]
pub enum Tracker {
    /// No parts are tracked: the frame's `is_init` says everything.
    Scalar,
    /// A partially initialized array.
    Array {
        /// Which elements are initialized.
        iset: ISet,
        /// The element for which a frame was pushed.
        current_child: Option<usize>,
    },
    /// A partially initialized struct.
    Struct {
        /// Which fields are initialized.
        iset: ISet,
        /// The field for which a frame was pushed.
        current_child: Option<usize>,
    },
    /// A smart pointer being initialized.
    SmartPointer {
        /// The inner value is being built.
        building_inner: bool,
        /// A finished inner value that waits to be moved into the pointer.
        pending_inner: Option<PendingSmartPointerInner>,
    },
    /// A pointer to a slice; the frame's data is the slice builder.
    SmartPointerSlice {
        /// Functions of the slice builder.
        vtable: SliceBuilderVTable,
        /// An item is being built.
        building_item: bool,
        /// The item for which a frame was pushed.
        current_child: Option<usize>,
    },
    /// A transparent wrapper.
    Inner {
        /// The inner value is being built.
        building_inner: bool,
    },
    /// An enum whose variant was chosen.
    Enum {
        /// The variant, by its position.
        variant_idx: usize,
        /// Which fields of the variant are initialized.
        data: ISet,
        /// The field for which a frame was pushed.
        current_child: Option<usize>,
    },
    /// A list.
    List {
        /// The element for which a frame was pushed.
        current_child: Option<usize>,
        /// Where elements are kept until the list is finished.
        rope: Option<ListRope>,
    },
    /// A map.
    MapOf {
        insert_state: MapInsertState,
        /// Finished keys, each with its value once that is finished too.
        pending_entries: Vec<(PtrUninit, Option<PtrUninit>)>,
        /// Counts the entries that were begun.
        current_entry_index: Option<usize>,
        /// A key (and not a value) is being built.
        building_key: bool,
    },
    /// A set.
    SetOf {
        /// An element is being built.
        current_child: bool,
    },
    /// An option that becomes `Some`.
    Option {
        /// The inner value is being built.
        building_inner: bool,
        /// A finished inner value that waits to be moved into the option.
        pending_inner: Option<PtrUninit>,
    },
    /// A result.
    Result {
        /// `Ok` (and not `Err`) is being built.
        is_ok: bool,
        /// The inner value is being built.
        building_inner: bool,
    },
    /// A dynamic value.
    DynamicValue { state: DynamicValueState },
}

/// A tracker as the contracts see it.
#[verifier::ext_equal]
#[allow(inconsistent_fields)]
pub enum TrackerView {
    Scalar,
    Array { iset: Set<int>, current_child: Option<usize> },
    Struct { iset: Set<int>, current_child: Option<usize> },
    SmartPointer { building_inner: bool, pending_inner: Option<PendingSmartPointerInner> },
    SmartPointerSlice {
        vtable: SliceBuilderVTable,
        building_item: bool,
        current_child: Option<usize>,
    },
    Inner { building_inner: bool },
    Enum { variant_idx: usize, data: Set<int>, current_child: Option<usize> },
    List { current_child: Option<usize>, rope: Option<RopeView> },
    MapOf {
        insert_state: MapInsertState,
        pending_entries: Seq<(PtrUninit, Option<PtrUninit>)>,
        current_entry_index: Option<usize>,
        building_key: bool,
    },
    SetOf { current_child: bool },
    Option { building_inner: bool, pending_inner: Option<PtrUninit> },
    Result { is_ok: bool, building_inner: bool },
    DynamicValue { state: DynamicValueView },
}

impl View for Tracker {
    type V = TrackerView;

    open spec fn view(&self) -> TrackerView {
        match *self {
            Tracker::Scalar => TrackerView::Scalar,
            Tracker::Array { iset, current_child } => TrackerView::Array {
                iset: iset@,
                current_child,
            },
            Tracker::Struct { iset, current_child } => TrackerView::Struct {
                iset: iset@,
                current_child,
            },
            Tracker::SmartPointer { building_inner, pending_inner } => TrackerView::SmartPointer {
                building_inner,
                pending_inner,
            },
            Tracker::SmartPointerSlice {
                vtable,
                building_item,
                current_child,
            } => TrackerView::SmartPointerSlice { vtable, building_item, current_child },
            Tracker::Inner { building_inner } => TrackerView::Inner { building_inner },
            Tracker::Enum { variant_idx, data, current_child } => TrackerView::Enum {
                variant_idx,
                data: data@,
                current_child,
            },
            Tracker::List { current_child, rope } => TrackerView::List {
                current_child,
                rope: match rope {
                    Some(r) => Some(r@),
                    None => None,
                },
            },
            Tracker::MapOf {
                insert_state,
                pending_entries,
                current_entry_index,
                building_key,
            } => TrackerView::MapOf {
                insert_state,
                pending_entries: pending_entries@,
                current_entry_index,
                building_key,
            },
            Tracker::SetOf { current_child } => TrackerView::SetOf { current_child },
            Tracker::Option { building_inner, pending_inner } => TrackerView::Option {
                building_inner,
                pending_inner,
            },
            Tracker::Result { is_ok, building_inner } => TrackerView::Result {
                is_ok,
                building_inner,
            },
            Tracker::DynamicValue { state } => TrackerView::DynamicValue { state: state@ },
        }
    }
}

/// The kinds of trackers.
#[derive(Clone, Copy, PartialEq, Eq, Structural, Debug)]
pub enum TrackerKind {
    Scalar,
    Array,
    Struct,
    SmartPointer,
    SmartPointerSlice,
    Enum,
    List,
    MapOf,
    SetOf,
    Option,
    Result,
    DynamicValue,
    Inner,
}

impl TrackerView {
    /// The kind of the tracker.
    pub open spec fn kind(self) -> TrackerKind {
        match self {
            TrackerView::Scalar => TrackerKind::Scalar,
            TrackerView::Array { .. } => TrackerKind::Array,
            TrackerView::Struct { .. } => TrackerKind::Struct,
            TrackerView::SmartPointer { .. } => TrackerKind::SmartPointer,
            TrackerView::SmartPointerSlice { .. } => TrackerKind::SmartPointerSlice,
            TrackerView::Enum { .. } => TrackerKind::Enum,
            TrackerView::List { .. } => TrackerKind::List,
            TrackerView::MapOf { .. } => TrackerKind::MapOf,
            TrackerView::SetOf { .. } => TrackerKind::SetOf,
            TrackerView::Option { .. } => TrackerKind::Option,
            TrackerView::Result { .. } => TrackerKind::Result,
            TrackerView::DynamicValue { .. } => TrackerKind::DynamicValue,
            TrackerView::Inner { .. } => TrackerKind::Inner,
        }
    }

    /// The tracker with field or element `idx` as current child, where such a child is tracked.
    pub open spec fn with_child(self, idx: usize) -> TrackerView {
        match self {
            TrackerView::Struct { iset, .. } => TrackerView::Struct {
                iset,
                current_child: Some(idx),
            },
            TrackerView::Enum { variant_idx, data, .. } => TrackerView::Enum {
                variant_idx,
                data,
                current_child: Some(idx),
            },
            TrackerView::Array { iset, .. } => TrackerView::Array {
                iset,
                current_child: Some(idx),
            },
            _ => self,
        }
    }

    /// The tracker without a current child.
    pub open spec fn without_child(self) -> TrackerView {
        match self {
            TrackerView::Struct { iset, .. } => TrackerView::Struct { iset, current_child: None },
            TrackerView::Enum { variant_idx, data, .. } => TrackerView::Enum {
                variant_idx,
                data,
                current_child: None,
            },
            TrackerView::Array { iset, .. } => TrackerView::Array { iset, current_child: None },
            TrackerView::List { rope, .. } => TrackerView::List { current_child: None, rope },
            TrackerView::SetOf { .. } => TrackerView::SetOf { current_child: false },
            _ => self,
        }
    }

    /// The tracker with field or element `idx` counted as not initialized.
    pub open spec fn without_field(self, idx: usize) -> TrackerView {
        match self {
            TrackerView::Struct { iset, current_child } => TrackerView::Struct {
                iset: iset.remove(idx as int),
                current_child,
            },
            TrackerView::Enum { variant_idx, data, current_child } => TrackerView::Enum {
                variant_idx,
                data: data.remove(idx as int),
                current_child,
            },
            TrackerView::Array { iset, current_child } => TrackerView::Array {
                iset: iset.remove(idx as int),
                current_child,
            },
            _ => self,
        }
    }

    /// The tracker with field or element `idx` counted as initialized.
    pub open spec fn with_field(self, idx: usize) -> TrackerView {
        match self {
            TrackerView::Struct { iset, current_child } => TrackerView::Struct {
                iset: iset.insert(idx as int),
                current_child,
            },
            TrackerView::Enum { variant_idx, data, current_child } => TrackerView::Enum {
                variant_idx,
                data: data.insert(idx as int),
                current_child,
            },
            TrackerView::Array { iset, current_child } => TrackerView::Array {
                iset: iset.insert(idx as int),
                current_child,
            },
            _ => self,
        }
    }

    /// The tracker fits a value of this shape.
    pub open spec fn wf(self, t: ShapeTable, shape: ShapeRef) -> bool {
        match self {
            TrackerView::Enum { variant_idx, .. } => variant_idx < t.variants(shape).len(),
            TrackerView::SmartPointer { building_inner, pending_inner } => pending_inner matches Some(
                p,
            ) ==> p.allocated.wf(t) && !building_inner,
            TrackerView::Option { building_inner, pending_inner } => pending_inner is Some
                ==> !building_inner,
            TrackerView::List { rope, .. } => t.at(shape).def is List && (rope matches Some(r)
                ==> r.wf()),
            TrackerView::SmartPointerSlice { .. } => t.builds_slices(shape),
            TrackerView::MapOf { .. } => t.at(shape).def is MapOf,
            TrackerView::DynamicValue { .. } => t.at(shape).def is DynamicValue
                && t.at(shape).type_ops.drop_in_place,
            _ => true,
        }
    }
}

impl Tracker {
    /// The kind of the tracker.
    pub fn kind(&self) -> (k: TrackerKind)
        ensures
            k == self@.kind(),
    {
        match self {
            Tracker::Scalar => TrackerKind::Scalar,
            Tracker::Array { .. } => TrackerKind::Array,
            Tracker::Struct { .. } => TrackerKind::Struct,
            Tracker::SmartPointer { .. } => TrackerKind::SmartPointer,
            Tracker::SmartPointerSlice { .. } => TrackerKind::SmartPointerSlice,
            Tracker::Enum { .. } => TrackerKind::Enum,
            Tracker::List { .. } => TrackerKind::List,
            Tracker::MapOf { .. } => TrackerKind::MapOf,
            Tracker::SetOf { .. } => TrackerKind::SetOf,
            Tracker::Option { .. } => TrackerKind::Option,
            Tracker::Result { .. } => TrackerKind::Result,
            Tracker::DynamicValue { .. } => TrackerKind::DynamicValue,
            Tracker::Inner { .. } => TrackerKind::Inner,
        }
    }

    /// Sets the current child, for trackers of fields and elements.
    pub fn set_current_child(&mut self, idx: usize)
        ensures
            final(self)@ == old(self)@.with_child(idx),
    {
        match self {
            Tracker::Struct { current_child, .. } => {
                *current_child = Some(idx);
            },
            Tracker::Enum { current_child, .. } => {
                *current_child = Some(idx);
            },
            Tracker::Array { current_child, .. } => {
                *current_child = Some(idx);
            },
            _ => {},
        }
    }

    /// Clears the current child, for trackers that have one.
    pub fn clear_current_child(&mut self)
        ensures
            final(self)@ == old(self)@.without_child(),
    {
        match self {
            Tracker::Struct { current_child, .. } => {
                *current_child = None;
            },
            Tracker::Enum { current_child, .. } => {
                *current_child = None;
            },
            Tracker::Array { current_child, .. } => {
                *current_child = None;
            },
            Tracker::List { current_child, .. } => {
                *current_child = None;
            },
            Tracker::SetOf { current_child } => {
                *current_child = false;
            },
            _ => {},
        }
    }

    /// Counts a field or element as not initialized, for trackers of fields and elements.
    pub fn unset_field(&mut self, idx: usize)
        ensures
            final(self)@ == old(self)@.without_field(idx),
    {
        match self {
            Tracker::Struct { iset, .. } => {
                iset.unset(idx);
            },
            Tracker::Enum { data, .. } => {
                data.unset(idx);
            },
            Tracker::Array { iset, .. } => {
                iset.unset(idx);
            },
            _ => {},
        }
    }

    /// Counts a field or element as initialized, for trackers of fields and elements.
    pub fn set_field(&mut self, idx: usize)
        ensures
            final(self)@ == old(self)@.with_field(idx),
    {
        match self {
            Tracker::Struct { iset, .. } => {
                iset.set(idx);
            },
            Tracker::Enum { data, .. } => {
                data.set(idx);
            },
            Tracker::Array { iset, .. } => {
                iset.set(idx);
            },
            _ => {},
        }
    }
}

} // verus!
