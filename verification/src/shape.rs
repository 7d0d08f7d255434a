//! Shapes: what the builder knows about the types whose values it builds.
//!
//! Shapes refer to one another by number, through a [`ShapeTable`], so that recursive types
//! can be described. Two shapes are the same type exactly when they have the same number.
use vstd::prelude::*;

use crate::memory::{Addr, FnRef, Host, MemOp};
use crate::pointer::PointerDef;

verus! {

/// Names a shape of a [`ShapeTable`].
#[derive(Clone, Copy, PartialEq, Eq, Structural, Debug)]
pub struct ShapeRef {
    pub id: usize,
}

/// Size and alignment of an allocation.
#[derive(Clone, Copy, PartialEq, Eq, Structural, Debug)]
pub struct Layout {
    pub size: usize,
    pub align: usize,
}

impl Layout {
    /// Whether an allocator accepts this layout.
    pub fn validate(self) -> (r: bool)
        ensures
            r == self.is_valid(),
    {
        let max: usize = isize::MAX as usize;
        self.align > 0 && self.align - 1 <= max && self.size <= max - (self.align - 1)
    }

    /// The size, rounded up to the alignment, is one that an allocator accepts.
    pub open spec fn is_valid(self) -> bool {
        &&& self.align > 0
        &&& self.size + self.align - 1 <= isize::MAX
    }
}

/// Layout of a type, which may not have a size known ahead of time.
#[derive(Clone, Copy, PartialEq, Eq, Structural, Debug)]
pub enum ShapeLayout {
    Sized(Layout),
    Unsized,
}

/// How a field that was left out gets its value.
#[derive(Clone, Copy, PartialEq, Eq, Structural, Debug)]
pub enum DefaultSource {
    /// A function that writes the default.
    Custom(FnRef),
    /// The default of the field's type.
    FromTrait,
    /// Any other source falls back to the default of the field's type.
    Unknown,
}

/// Conversion from a proxy type into the type it stands for.
#[derive(Clone, Copy, PartialEq, Eq, Structural, Debug)]
pub struct ProxyDef {
    pub convert_in: FnRef,
}

/// A field of a struct or of an enum variant.
#[derive(Clone, Copy, Debug)]
pub struct Field {
    pub name: &'static str,
    pub offset: usize,
    pub shape: ShapeRef,
    pub default: Option<DefaultSource>,
    pub proxy: Option<ProxyDef>,
}

/// A struct or tuple type.
#[derive(Debug)]
pub struct StructType {
    pub fields: Vec<Field>,
}

/// How an enum stores its discriminant.
#[derive(Clone, Copy, PartialEq, Eq, Structural, Debug)]
pub enum EnumRepr {
    /// Layout chosen by the compiler.
    Rust,
    /// Layout with a niche for the null pointer.
    RustNPO,
    U8,
    U16,
    U32,
    U64,
    I8,
    I16,
    I32,
    I64,
    USize,
    ISize,
}

/// A variant of an enum.
#[derive(Debug)]
pub struct Variant {
    pub name: &'static str,
    pub discriminant: Option<i64>,
    pub fields: Vec<Field>,
}

/// An enum type.
#[derive(Debug)]
pub struct EnumType {
    pub enum_repr: EnumRepr,
    pub variants: Vec<Variant>,
}

/// An array type: `n` values of shape `t`, one after the other.
#[derive(Clone, Copy, PartialEq, Eq, Structural, Debug)]
pub struct ArrayType {
    pub t: ShapeRef,
    pub n: usize,
}

/// Sequence types.
#[derive(Clone, Copy, PartialEq, Eq, Structural, Debug)]
pub enum SequenceType {
    Array(ArrayType),
    Slice(ShapeRef),
}

/// Types that users define.
#[derive(Debug)]
pub enum UserType {
    Struct(StructType),
    Enum(EnumType),
    Union,
    Opaque,
    Unknown,
}

/// The structure of a type.
#[derive(Debug)]
pub enum Type {
    Undefined,
    Primitive,
    Sequence(SequenceType),
    User(UserType),
    Pointer,
    Unknown,
}

/// What a list can do.
#[derive(Clone, Copy, PartialEq, Eq, Structural, Debug)]
pub struct ListDef {
    pub t: ShapeRef,
    pub push: Option<FnRef>,
    pub reserve: Option<FnRef>,
}

/// What a map can do.
#[derive(Clone, Copy, PartialEq, Eq, Structural, Debug)]
pub struct MapDef {
    pub k: ShapeRef,
    pub v: ShapeRef,
    pub insert: FnRef,
}

/// What a set can do.
#[derive(Clone, Copy, PartialEq, Eq, Structural, Debug)]
pub struct SetDef {
    pub t: ShapeRef,
    pub insert: FnRef,
}

/// What an option can do.
#[derive(Clone, Copy, PartialEq, Eq, Structural, Debug)]
pub struct OptionDef {
    pub t: ShapeRef,
    pub init_some: FnRef,
}

/// What a result can do.
#[derive(Clone, Copy, PartialEq, Eq, Structural, Debug)]
pub struct ResultDef {
    pub init_ok: FnRef,
    pub init_err: FnRef,
}

/// What a dynamically typed value can do.
#[derive(Clone, Copy, PartialEq, Eq, Structural, Debug)]
pub struct DynamicDef {
    pub set_null: FnRef,
    pub push_array_element: FnRef,
    pub insert_object_entry: FnRef,
}

/// What a value of the type can be used as.
#[derive(Clone, Copy, Debug)]
pub enum Def {
    Undefined,
    Scalar,
    Pointer(PointerDef),
    List(ListDef),
    MapOf(MapDef),
    SetOf(SetDef),
    Option(OptionDef),
    Result(ResultDef),
    DynamicValue(DynamicDef),
}

/// A type parameter with the shape it was given.
#[derive(Clone, Copy, Debug)]
pub struct TypeParam {
    pub name: &'static str,
    pub shape: ShapeRef,
}

/// How a type relates to the lifetimes it mentions.
#[derive(Clone, Copy, PartialEq, Eq, Structural, Debug)]
pub enum Variance {
    Bivariant,
    Covariant,
    Contravariant,
    Invariant,
}

/// A shape that a type's variance depends on, and the position in which it stands.
#[derive(Clone, Copy, PartialEq, Eq, Structural, Debug)]
pub struct VarianceDep {
    pub shape: ShapeRef,
    pub position: Variance,
}

/// Own variance of a type, and what else it depends on.
#[derive(Debug)]
pub struct VarianceDesc {
    pub base: Variance,
    pub deps: Vec<VarianceDep>,
}

/// Functions on values of a type.
#[derive(Clone, Copy, PartialEq, Eq, Structural, Debug)]
pub struct ValueVTable {
    pub debug: Option<FnRef>,
    pub display: Option<FnRef>,
    pub equal: Option<FnRef>,
    pub partial_order: Option<FnRef>,
    pub order: Option<FnRef>,
    pub try_from: Option<FnRef>,
}

/// The two ways in which a type hands out its functions.
#[derive(Clone, Copy, PartialEq, Eq, Structural, Debug)]
pub enum VTableErased {
    Direct(ValueVTable),
    Indirect(ValueVTable),
    Unknown,
}

/// What can be done to values of a type in place.
#[derive(Clone, Copy, PartialEq, Eq, Structural, Debug)]
pub struct TypeOps {
    /// The type has a destructor entry.
    pub drop_in_place: bool,
    /// The type can write its default value.
    pub default_in_place: bool,
    /// Tells whether a value counts as true.
    pub is_truthy: Option<FnRef>,
}

/// Everything known about a type.
#[derive(Debug)]
pub struct Shape {
    pub ty: Type,
    pub def: Def,
    pub layout: ShapeLayout,
    /// The type that this one transparently wraps.
    pub inner: Option<ShapeRef>,
    /// The type from which this one is built.
    pub builder_shape: Option<ShapeRef>,
    pub type_params: Vec<TypeParam>,
    pub variance: VarianceDesc,
    pub vtable: VTableErased,
    pub type_ops: TypeOps,
    /// Absent fields may take the default of their type.
    pub default_attr: bool,
}

/// All shapes that can be met, with the numbers of those that have a role of their own.
#[derive(Debug)]
pub struct ShapeTable {
    pub shapes: Vec<Shape>,
    /// `str`
    pub str_shape: ShapeRef,
    /// `String`
    pub string_shape: ShapeRef,
    /// `()`
    pub unit_shape: ShapeRef,
}

impl ShapeTable {
    /// The table holds this shape.
    pub open spec fn has(self, r: ShapeRef) -> bool {
        r.id < self.shapes@.len()
    }

    /// The shape of this number.
    pub open spec fn at(self, r: ShapeRef) -> Shape {
        self.shapes@[r.id as int]
    }

    /// Layout of the type, where it is sized.
    pub open spec fn sized(self, r: ShapeRef) -> Option<Layout> {
        match self.at(r).layout {
            ShapeLayout::Sized(l) => Some(l),
            ShapeLayout::Unsized => None,
        }
    }

    /// The type is a struct.
    pub open spec fn is_struct(self, r: ShapeRef) -> bool {
        self.at(r).ty matches Type::User(UserType::Struct(_))
    }

    /// The type is an enum.
    pub open spec fn is_enum(self, r: ShapeRef) -> bool {
        self.at(r).ty matches Type::User(UserType::Enum(_))
    }

    /// Fields of a struct; none for other types.
    pub open spec fn struct_fields(self, r: ShapeRef) -> Seq<Field> {
        match self.at(r).ty {
            Type::User(UserType::Struct(st)) => st.fields@,
            _ => Seq::empty(),
        }
    }

    /// Variants of an enum; none for other types.
    pub open spec fn variants(self, r: ShapeRef) -> Seq<Variant> {
        match self.at(r).ty {
            Type::User(UserType::Enum(e)) => e.variants@,
            _ => Seq::empty(),
        }
    }

    /// Fields of a variant of an enum.
    pub open spec fn variant_fields(self, r: ShapeRef, variant_idx: usize) -> Seq<Field> {
        self.variants(r)[variant_idx as int].fields@
    }

    /// The shapes of the fields are known.
    pub open spec fn fields_ok(self, fields: Seq<Field>) -> bool {
        forall|i: int| #![trigger fields[i]] 0 <= i < fields.len() ==> self.has(fields[i].shape)
    }

    /// If there is a field of this number, its shape is known and sized.
    pub open spec fn field_ok(self, fields: Seq<Field>, idx: usize) -> bool {
        idx < fields.len() ==> {
            &&& self.has(fields[idx as int].shape)
            &&& self.sized(fields[idx as int].shape) is Some
        }
    }

    /// The structure of a type only mentions known shapes, and an array fits into memory.
    pub open spec fn type_ok(self, ty: Type) -> bool {
        match ty {
            Type::User(UserType::Struct(st)) => self.fields_ok(st.fields@),
            Type::User(UserType::Enum(e)) => forall|v: int|
                #![trigger e.variants@[v]]
                0 <= v < e.variants@.len() ==> self.fields_ok(e.variants@[v].fields@),
            Type::Sequence(SequenceType::Array(a)) => self.has(a.t) && (self.sized(a.t) matches Some(
                l,
            ) ==> a.n * l.size <= usize::MAX),
            Type::Sequence(SequenceType::Slice(t)) => self.has(t),
            _ => true,
        }
    }

    /// A definition only mentions known shapes.
    pub open spec fn def_ok(self, def: Def) -> bool {
        match def {
            Def::Pointer(p) => p.pointee matches Some(r) ==> self.has(r),
            Def::List(d) => self.has(d.t),
            Def::MapOf(d) => self.has(d.k) && self.has(d.v),
            Def::SetOf(d) => self.has(d.t),
            Def::Option(d) => self.has(d.t),
            _ => true,
        }
    }

    /// The type is a pointer that can build slices.
    pub open spec fn builds_slices(self, r: ShapeRef) -> bool {
        self.at(r).def matches Def::Pointer(p) && p.vtable.slice_builder_vtable is Some
    }

    /// A shape fits into this table. A dynamic value can be dropped, and a pointer to a slice is not
    /// empty.
    pub open spec fn shape_ok(self, s: Shape) -> bool {
        &&& self.type_ok(s.ty)
        &&& s.def matches Def::Pointer(p) ==> (p.vtable.slice_builder_vtable is Some ==> (
        s.layout matches ShapeLayout::Sized(l) ==> l.size > 0))
        &&& self.def_ok(s.def)
        &&& s.layout matches ShapeLayout::Sized(l) ==> l.is_valid()
        &&& s.def is DynamicValue ==> s.type_ops.drop_in_place
    }

    /// All shapes fit together, and the well-known ones are there.
    pub open spec fn wf(self) -> bool {
        &&& self.has(self.str_shape)
        &&& self.has(self.string_shape)
        &&& self.has(self.unit_shape)
        &&& self.sized(self.str_shape) is None
        &&& self.sized(self.string_shape) is Some
        &&& forall|i: int|
            #![trigger self.shapes@[i]]
            0 <= i < self.shapes@.len() ==> self.shape_ok(self.shapes@[i])
    }

    fn check_fields(&self, fields: &Vec<Field>) -> (r: bool)
        ensures
            r == self.fields_ok(fields@),
    {
        let mut i: usize = 0;
        while i < fields.len()
            invariant
                i <= fields@.len(),
                forall|j: int| #![trigger fields@[j]] 0 <= j < i ==> self.has(fields@[j].shape),
            decreases fields@.len() - i,
        {
            if fields[i].shape.id >= self.shapes.len() {
                assert(!self.has(fields@[i as int].shape));
                return false;
            }
            i = i + 1;
        }
        true
    }

    fn check_variants(&self, variants: &Vec<Variant>) -> (r: bool)
        ensures
            r == (forall|v: int|
                #![trigger variants@[v]]
                0 <= v < variants@.len() ==> self.fields_ok(variants@[v].fields@)),
    {
        let mut i: usize = 0;
        while i < variants.len()
            invariant
                i <= variants@.len(),
                forall|v: int|
                    #![trigger variants@[v]]
                    0 <= v < i ==> self.fields_ok(variants@[v].fields@),
            decreases variants@.len() - i,
        {
            if !self.check_fields(&variants[i].fields) {
                assert(!self.fields_ok(variants@[i as int].fields@));
                return false;
            }
            i = i + 1;
        }
        true
    }

    fn check_type(&self, ty: &Type) -> (r: bool)
        ensures
            r == self.type_ok(*ty),
    {
        let n: usize = self.shapes.len();
        match ty {
            Type::User(UserType::Struct(st)) => self.check_fields(&st.fields),
            Type::User(UserType::Enum(e)) => self.check_variants(&e.variants),
            Type::Sequence(SequenceType::Array(a)) => {
                if a.t.id >= n {
                    return false;
                }
                match self.sized_layout(a.t) {
                    Some(l) => a.n.checked_mul(l.size).is_some(),
                    None => true,
                }
            },
            Type::Sequence(SequenceType::Slice(t)) => t.id < n,
            _ => true,
        }
    }

    fn check_shape(&self, s: &Shape) -> (r: bool)
        ensures
            r == self.shape_ok(*s),
    {
        let n: usize = self.shapes.len();
        let def_ok = match &s.def {
            Def::Pointer(p) => {
                let pointee_ok = match p.pointee {
                    Some(r) => r.id < n,
                    None => true,
                };
                let slice_ok = match s.layout {
                    ShapeLayout::Sized(l) => l.size > 0 || p.vtable.slice_builder_vtable.is_none(),
                    ShapeLayout::Unsized => true,
                };
                pointee_ok && slice_ok
            },
            Def::List(d) => d.t.id < n,
            Def::MapOf(d) => d.k.id < n && d.v.id < n,
            Def::SetOf(d) => d.t.id < n,
            Def::Option(d) => d.t.id < n,
            Def::DynamicValue(_) => s.type_ops.drop_in_place,
            _ => true,
        };
        let layout_ok = match s.layout {
            ShapeLayout::Sized(l) => l.validate(),
            ShapeLayout::Unsized => true,
        };
        self.check_type(&s.ty) && def_ok && layout_ok
    }

    /// Whether all shapes fit together, and the well-known ones are there.
    pub fn validate(&self) -> (r: bool)
        ensures
            r == self.wf(),
    {
        let n: usize = self.shapes.len();
        if self.str_shape.id >= n || self.string_shape.id >= n || self.unit_shape.id >= n {
            return false;
        }
        if self.sized_layout(self.str_shape).is_some() || self.sized_layout(
            self.string_shape,
        ).is_none() {
            return false;
        }
        let mut i: usize = 0;
        while i < n
            invariant
                i <= n == self.shapes@.len(),
                forall|j: int|
                    #![trigger self.shapes@[j]]
                    0 <= j < i ==> self.shape_ok(self.shapes@[j]),
            decreases n - i,
        {
            if !self.check_shape(&self.shapes[i]) {
                assert(!self.shape_ok(self.shapes@[i as int]));
                return false;
            }
            i = i + 1;
        }
        true
    }

    /// Looks a shape up.
    pub fn get(&self, r: ShapeRef) -> (s: &Shape)
        requires
            self.has(r),
        ensures
            *s == self.at(r),
    {
        &self.shapes[r.id]
    }

    /// The layout of a sized type.
    pub fn sized_layout(&self, r: ShapeRef) -> (l: Option<Layout>)
        requires
            self.has(r),
        ensures
            l == self.sized(r),
    {
        match self.get(r).layout {
            ShapeLayout::Sized(l) => Some(l),
            ShapeLayout::Unsized => None,
        }
    }

    /// The struct type, if the type is one.
    pub fn struct_type(&self, r: ShapeRef) -> (s: Option<&StructType>)
        requires
            self.has(r),
        ensures
            s is Some == self.is_struct(r),
            s matches Some(st) ==> st.fields@ == self.struct_fields(r),
    {
        match &self.get(r).ty {
            Type::User(UserType::Struct(st)) => Some(st),
            _ => None,
        }
    }

    /// A variant of an enum.
    pub fn variant(&self, r: ShapeRef, variant_idx: usize) -> (v: &Variant)
        requires
            self.has(r),
            variant_idx < self.variants(r).len(),
        ensures
            *v == self.variants(r)[variant_idx as int],
    {
        match &self.get(r).ty {
            Type::User(UserType::Enum(e)) => &e.variants[variant_idx],
            _ => {
                assert(false);
                vstd::pervasive::unreached()
            },
        }
    }

    /// Operations that run the destructor of a value, if its type has one.
    pub open spec fn drop_ops(self, shape: ShapeRef, at: Addr) -> Seq<MemOp> {
        if self.at(shape).type_ops.drop_in_place {
            seq![MemOp::DropInPlace { shape, at }]
        } else {
            Seq::empty()
        }
    }

    /// Runs the destructor of the value at `at`; tells whether the type has one.
    pub fn call_drop_in_place<H: Host>(&self, shape: ShapeRef, at: Addr, host: &mut H) -> (r: bool)
        requires
            self.has(shape),
        ensures
            r == self.at(shape).type_ops.drop_in_place,
            final(host).view() == old(host).view().plus(self.drop_ops(shape, at)),
    {
        if self.get(shape).type_ops.drop_in_place {
            host.act(MemOp::DropInPlace { shape, at });
            true
        } else {
            false
        }
    }

    /// The type can write its default value.
    pub open spec fn can_default(self, shape: ShapeRef) -> bool {
        self.at(shape).type_ops.default_in_place
    }

    /// Operations that write the default value of a type, if it has one.
    pub open spec fn default_ops(self, shape: ShapeRef, at: Addr) -> Seq<MemOp> {
        if self.can_default(shape) {
            seq![MemOp::DefaultInPlace { shape, at }]
        } else {
            Seq::empty()
        }
    }

    /// Writes the default value of the type at `at`; tells whether the type has one.
    pub fn call_default_in_place<H: Host>(&self, shape: ShapeRef, at: Addr, host: &mut H) -> (r:
        bool)
        requires
            self.has(shape),
        ensures
            r == self.can_default(shape),
            final(host).view() == old(host).view().plus(self.default_ops(shape, at)),
    {
        if self.get(shape).type_ops.default_in_place {
            host.act(MemOp::DefaultInPlace { shape, at });
            true
        } else {
            false
        }
    }

    /// Operations that release a buffer of exactly the size of the type.
    pub open spec fn dealloc_ops(self, shape: ShapeRef, at: Addr) -> Seq<MemOp> {
        match self.sized(shape) {
            Some(layout) => if layout.size > 0 {
                seq![MemOp::Dealloc { at, layout }]
            } else {
                Seq::empty()
            },
            None => Seq::empty(),
        }
    }

    /// Releases a buffer of exactly the size of the type; empty buffers were never allocated.
    pub fn dealloc_shape<H: Host>(&self, shape: ShapeRef, at: Addr, host: &mut H)
        requires
            self.has(shape),
        ensures
            final(host).view() == old(host).view().plus(self.dealloc_ops(shape, at)),
    {
        if let Some(layout) = self.sized_layout(shape) {
            if layout.size > 0 {
                host.act(MemOp::Dealloc { at, layout });
            }
        }
    }
}

impl VTableErased {
    /// The conversion hook, where there is one.
    pub open spec fn spec_try_from(self) -> Option<FnRef> {
        match self {
            VTableErased::Direct(vt) => vt.try_from,
            VTableErased::Indirect(vt) => vt.try_from,
            VTableErased::Unknown => None,
        }
    }

    /// The conversion hook, where there is one.
    pub fn try_from_fn(&self) -> (f: Option<FnRef>)
        ensures
            f == self.spec_try_from(),
    {
        match self {
            VTableErased::Direct(vt) => vt.try_from,
            VTableErased::Indirect(vt) => vt.try_from,
            VTableErased::Unknown => None,
        }
    }
}

} // verus!
