//! Values built step by step, in a memory that keeps account of what is done to it.
use partial_build::cow::{
    cow_borrow, cow_borrow_from_pointee, cow_clone_into, cow_drop_in_place, cow_promote_to_owned, cow_shape,
    CowFunctions, CowValue,
};
use partial_build::error::{ReflectError, ReflectErrorKind};
use partial_build::frame::{
    AllocatedShape, Frame, FrameOwnership, PendingSmartPointerInner,
};
use partial_build::iset::ISet;
use partial_build::memory::{
    Addr, ConvertCall, FnRef, Host, HostView, MemOp, PtrConst, PtrUninit, TryFromCall, TryFromOutcome,
    ValidateCall,
};
use partial_build::path::PathStep;
use partial_build::partial::{alloc_for_layout, FrameMode, Partial, PartialState};
use partial_build::plan::{
    DeserStrategy, EnumPlan, FieldPlan, FillRule, NodeId, ProxyNodes, SliceRange, StructPlan,
    TypePlanCore, TypePlanNode, TypePlanNodeKind, VariantPlanMeta,
};
use partial_build::pointer::{
    KnownPointer, PointerDef, PointerFlags, PointerVTable, SliceBuilderVTable,
};
use partial_build::rope::ListRope;
use partial_build::shape::{
    Def, EnumRepr, EnumType, Field, Layout, ListDef, ProxyDef, SequenceType, Shape, ShapeLayout, ShapeRef,
    ShapeTable, StructType, Type, TypeOps, TypeParam, UserType, VTableErased, ValueVTable, Variance,
    VarianceDesc, Variant,
};
use partial_build::tracker::{DynamicValueState, MapInsertState, Tracker};
use std::collections::{BTreeMap, HashMap};
use std::mem::size_of;

// ---------------------------------------------------------------------------------------------
// Types

const NEW_INTO: usize = 1000;
const BORROW: usize = 2000;
const BORROW_FROM: usize = 3000;
const PROMOTE: usize = 4000;
const SLICE_NEW: usize = 5000;
const SLICE_PUSH: usize = 6000;
const SLICE_CONVERT: usize = 7000;
const SLICE_FREE: usize = 8000;
const LIST_PUSH: usize = 9000;

fn at_fn(base: usize, shape: usize) -> FnRef {
    FnRef { id: base + shape }
}

fn r(id: usize) -> ShapeRef {
    ShapeRef { id }
}

fn base_shape(ty: Type, def: Def, layout: ShapeLayout) -> Shape {
    Shape {
        ty,
        def,
        layout,
        inner: None,
        builder_shape: None,
        type_params: Vec::<TypeParam>::new(),
        variance: VarianceDesc { base: Variance::Bivariant, deps: Vec::new() },
        vtable: VTableErased::Direct(ValueVTable::empty()),
        type_ops: TypeOps { drop_in_place: true, default_in_place: false, is_truthy: None },
        default_attr: false,
    }
}

fn sized(size: usize, align: usize) -> ShapeLayout {
    ShapeLayout::Sized(Layout { size, align })
}

const STR: usize = 0;
const STRING: usize = 1;
const UNIT: usize = 2;
const U32: usize = 3;
const I32: usize = 4;
const U8: usize = 5;
const F64: usize = 6;

struct Types {
    shapes: Vec<Shape>,
}

impl Types {
    fn new() -> Types {
        let mut t = Types { shapes: Vec::new() };
        t.add(base_shape(Type::Primitive, Def::Scalar, ShapeLayout::Unsized));
        t.add(base_shape(Type::User(UserType::Opaque), Def::Scalar, sized(24, 8)));
        t.add(base_shape(
            Type::User(UserType::Struct(StructType { fields: Vec::new() })),
            Def::Undefined,
            sized(0, 1),
        ));
        t.add(base_shape(Type::Primitive, Def::Scalar, sized(4, 4)));
        t.add(base_shape(Type::Primitive, Def::Scalar, sized(4, 4)));
        t.add(base_shape(Type::Primitive, Def::Scalar, sized(1, 1)));
        t.add(base_shape(Type::Primitive, Def::Scalar, sized(8, 8)));
        t
    }

    fn add(&mut self, s: Shape) -> usize {
        self.shapes.push(s);
        self.shapes.len() - 1
    }

    fn strukt(&mut self, fields: &[(&'static str, usize, usize)], size: usize) -> usize {
        let fields = fields
            .iter()
            .map(|(name, offset, shape)| Field {
                name: *name,
                offset: *offset,
                shape: r(*shape),
                default: None,
                proxy: None,
            })
            .collect();
        self.add(base_shape(
            Type::User(UserType::Struct(StructType { fields })),
            Def::Undefined,
            sized(size, 8),
        ))
    }

    fn enumeration(
        &mut self,
        variants: &[(&'static str, &[(&'static str, usize, usize)])],
        size: usize,
    ) -> usize {
        let variants = variants
            .iter()
            .enumerate()
            .map(|(i, (name, fields))| Variant {
                name: *name,
                discriminant: Some(i as i64),
                fields: fields
                    .iter()
                    .map(|(name, offset, shape)| Field {
                        name: *name,
                        offset: *offset,
                        shape: r(*shape),
                        default: None,
                        proxy: None,
                    })
                    .collect(),
            })
            .collect();
        self.add(base_shape(
            Type::User(UserType::Enum(EnumType { enum_repr: EnumRepr::U8, variants })),
            Def::Undefined,
            sized(size, 8),
        ))
    }

    fn slice(&mut self, item: usize) -> usize {
        self.add(base_shape(
            Type::Sequence(SequenceType::Slice(r(item))),
            Def::Undefined,
            ShapeLayout::Unsized,
        ))
    }

    fn list(&mut self, item: usize) -> usize {
        let id = self.shapes.len();
        self.add(base_shape(
            Type::User(UserType::Opaque),
            Def::List(ListDef { t: r(item), push: Some(at_fn(LIST_PUSH, id)), reserve: None }),
            sized(24, 8),
        ))
    }

    /// `Box`, `Rc` or `Arc`.
    fn pointer(&mut self, pointee: usize, known: KnownPointer) -> usize {
        let id = self.shapes.len();
        let pointee_is_sized = matches!(self.shapes[pointee].layout, ShapeLayout::Sized(_));
        let pointee_is_slice =
            matches!(self.shapes[pointee].ty, Type::Sequence(SequenceType::Slice(_)));
        let mut vtable = PointerVTable::new();
        if pointee_is_sized {
            vtable.new_into_fn = Some(at_fn(NEW_INTO, id));
        }
        if pointee_is_slice {
            vtable.slice_builder_vtable = Some(SliceBuilderVTable::new(
                at_fn(SLICE_NEW, id),
                at_fn(SLICE_PUSH, id),
                at_fn(SLICE_CONVERT, id),
                at_fn(SLICE_FREE, id),
            ));
        }
        let size = if pointee_is_sized { 8 } else { 16 };
        self.add(base_shape(
            Type::User(UserType::Opaque),
            Def::Pointer(PointerDef {
                vtable,
                pointee: Some(r(pointee)),
                weak: None,
                strong: None,
                flags: PointerFlags { bits: 0 },
                known: Some(known),
            }),
            sized(size, 8),
        ))
    }

    fn cow(&mut self, inner: usize, owned: usize) -> usize {
        let id = self.shapes.len();
        let table = self.table();
        let f = at_fn(0, id);
        let shape = cow_shape(
            &table,
            r(inner),
            r(owned),
            Layout { size: 24, align: 8 },
            CowFunctions {
                debug: f,
                display: f,
                equal: f,
                partial_order: f,
                order: f,
                borrow: at_fn(BORROW, id),
                borrow_from_pointee: at_fn(BORROW_FROM, id),
                promote_to_owned: at_fn(PROMOTE, id),
                truthy: f,
            },
        );
        self.shapes = table.shapes;
        self.add(shape)
    }

    fn table(&mut self) -> ShapeTable {
        ShapeTable {
            shapes: std::mem::take(&mut self.shapes),
            str_shape: r(STR),
            string_shape: r(STRING),
            unit_shape: r(UNIT),
        }
    }

    /// A plan in which each shape has the node of the same number.
    fn plan(mut self) -> TypePlanCore {
        let shapes = self.table();
        let mut nodes = Vec::new();
        let mut field_plans = Vec::new();
        let mut variant_plans = Vec::new();
        let plan_fields = |fields: &Vec<Field>, field_plans: &mut Vec<FieldPlan>| {
            let start = field_plans.len();
            for (index, f) in fields.iter().enumerate() {
                field_plans.push(FieldPlan {
                    index,
                    offset: f.offset,
                    name: f.name,
                    fill_rule: FillRule::Required,
                    validators: SliceRange { start: 0, len: 0 },
                });
            }
            SliceRange { start, len: fields.len() }
        };
        for (i, s) in shapes.shapes.iter().enumerate() {
            let kind = match (&s.ty, &s.def) {
                (_, Def::Pointer(p)) => {
                    let pointee = p.pointee.unwrap().id;
                    let inner = if pointee == STR { STRING } else { pointee };
                    TypePlanNodeKind::Pointer { pointee: Some(NodeId { index: inner }) }
                }
                (Type::User(UserType::Struct(st)), _) => TypePlanNodeKind::Struct(StructPlan {
                    fields: plan_fields(&st.fields, &mut field_plans),
                }),
                (Type::User(UserType::Enum(e)), _) => {
                    let start = variant_plans.len();
                    for v in e.variants.iter() {
                        let fields = plan_fields(&v.fields, &mut field_plans);
                        variant_plans.push(VariantPlanMeta { fields });
                    }
                    TypePlanNodeKind::Enum(EnumPlan {
                        variants: SliceRange { start, len: e.variants.len() },
                    })
                }
                _ => TypePlanNodeKind::Unknown,
            };
            nodes.push(TypePlanNode {
                shape: r(i),
                kind,
                strategy: DeserStrategy { code: 0 },
                proxies: ProxyNodes { any_format: None },
            });
        }
        TypePlanCore { shapes, nodes, field_plans, variant_plans, validator_fns: Vec::new() }
    }
}

// ---------------------------------------------------------------------------------------------
// Memory

#[derive(Clone, Debug, PartialEq)]
enum Val {
    U32(u32),
    I32(i32),
    U8(u8),
    F64(f64),
    Str(String),
    Tag(u8),
    /// What a pointer points to.
    Ptr(Blob),
    Borrowed(Addr),
    Owned(Blob),
    Many(Vec<Blob>),
    /// A value without parts of its own.
    Unit,
}

/// A value of a shape: what it holds, by offset.
#[derive(Clone, Debug, PartialEq)]
struct Blob {
    shape: usize,
    cells: BTreeMap<usize, Val>,
}

impl Blob {
    fn one(shape: usize, v: Val) -> Blob {
        Blob { shape, cells: BTreeMap::from([(0, v)]) }
    }
}

struct Memory<'a> {
    shapes: &'a ShapeTable,
    cells: BTreeMap<(u64, usize), Val>,
    /// Buffers that were allocated and not released.
    live: HashMap<u64, Layout>,
    /// How often values of a shape were dropped.
    drops: HashMap<usize, usize>,
    builders: HashMap<u64, Vec<Blob>>,
}

impl<'a> Memory<'a> {
    fn new(plan: &'a TypePlanCore) -> Memory<'a> {
        Memory {
            shapes: &plan.shapes,
            cells: BTreeMap::new(),
            live: HashMap::new(),
            drops: HashMap::new(),
            builders: HashMap::new(),
        }
    }

    fn dropped(&self, shape: usize) -> usize {
        *self.drops.get(&shape).unwrap_or(&0)
    }

    fn size_of(&self, shape: usize) -> usize {
        match self.shapes.shapes[shape].layout {
            ShapeLayout::Sized(l) => l.size,
            ShapeLayout::Unsized => 0,
        }
    }

    /// Takes the value at an address out of memory.
    fn take(&mut self, shape: usize, at: Addr) -> Blob {
        let size = self.size_of(shape).max(1);
        let keys: Vec<(u64, usize)> = self
            .cells
            .range((at.buf, at.offset)..(at.buf, at.offset + size))
            .map(|(k, _)| *k)
            .collect();
        let mut cells = BTreeMap::new();
        for k in keys {
            cells.insert(k.1 - at.offset, self.cells.remove(&k).unwrap());
        }
        Blob { shape, cells }
    }

    fn peek(&self, shape: usize, at: Addr) -> Blob {
        let size = self.size_of(shape).max(1);
        let cells = self
            .cells
            .range((at.buf, at.offset)..(at.buf, at.offset + size))
            .map(|(k, v)| (k.1 - at.offset, v.clone()))
            .collect();
        Blob { shape, cells }
    }

    fn put(&mut self, at: Addr, blob: Blob) {
        for (o, v) in blob.cells {
            let old = self.cells.insert((at.buf, at.offset + o), v);
            assert!(old.is_none(), "overwrote a value at {at:?}+{o}");
        }
    }

    /// Runs the destructor of a value, and those of its parts.
    fn drop_blob(&mut self, blob: Blob) {
        *self.drops.entry(blob.shape).or_insert(0) += 1;
        let shape = &self.shapes.shapes[blob.shape];
        match &shape.ty {
            Type::User(UserType::Struct(st)) => {
                let parts: Vec<(usize, usize)> =
                    st.fields.iter().map(|f| (f.offset, f.shape.id)).collect();
                self.drop_parts(blob, &parts);
            }
            Type::User(UserType::Enum(e)) => {
                let tag = match blob.cells.get(&0) {
                    Some(Val::Tag(t)) => *t as usize,
                    other => panic!("enum without a tag: {other:?}"),
                };
                let parts: Vec<(usize, usize)> =
                    e.variants[tag].fields.iter().map(|f| (f.offset, f.shape.id)).collect();
                self.drop_parts(blob, &parts);
            }
            _ => {
                assert!(!blob.cells.is_empty(), "dropped a value that is not there");
                for (_, v) in blob.cells {
                    match v {
                        Val::Ptr(inner) | Val::Owned(inner) => self.drop_blob(inner),
                        Val::Many(items) => {
                            for i in items {
                                self.drop_blob(i);
                            }
                        }
                        _ => {}
                    }
                }
            }
        }
    }

    fn drop_parts(&mut self, blob: Blob, parts: &[(usize, usize)]) {
        for (offset, shape) in parts {
            let size = self.size_of(*shape).max(1);
            let cells = blob
                .cells
                .range(*offset..*offset + size)
                .map(|(o, v)| (*o - *offset, v.clone()))
                .collect();
            self.drop_blob(Blob { shape: *shape, cells });
        }
    }

    fn pointee(&self, f: FnRef) -> usize {
        match self.shapes.shapes[f.id % 1000].def {
            Def::Pointer(p) => p.pointee.unwrap().id,
            _ => panic!("no pointer"),
        }
    }

    fn slice_item(&self, f: FnRef) -> usize {
        match self.shapes.shapes[self.pointee(f)].ty {
            Type::Sequence(SequenceType::Slice(t)) => t.id,
            _ => panic!("no slice"),
        }
    }
}

impl<'a> Host for Memory<'a> {
    fn view(&self) -> HostView {
        unreachable!("only contracts look at this")
    }

    fn act(&mut self, op: MemOp) {
        match op {
            MemOp::Alloc { buf, layout } => {
                assert!(self.live.insert(buf, layout).is_none(), "buffer {buf} made twice");
            }
            MemOp::Dealloc { at, layout } => {
                assert_eq!(at.offset, 0);
                assert_eq!(self.live.remove(&at.buf), Some(layout), "released {at:?}");
                // A discriminant is no value of its own.
                self.cells.retain(|k, v| k.0 != at.buf || !matches!(v, Val::Tag(_)));
                let left = self.cells.range((at.buf, 0)..(at.buf + 1, 0)).next();
                assert!(left.is_none(), "released a buffer that holds {left:?}");
            }
            MemOp::DropInPlace { shape, at } => {
                let blob = self.take(shape.id, at);
                self.drop_blob(blob);
            }
            MemOp::NewInto { f, dst, src } => {
                let inner = self.take(self.pointee(f), src);
                self.put(dst, Blob::one(f.id % 1000, Val::Ptr(inner)));
            }
            MemOp::BorrowFromPointee { f, dst, pointee } => {
                self.put(dst, Blob::one(f.id % 1000, Val::Borrowed(pointee)));
            }
            MemOp::PromoteToOwned { f, at } => {
                let inner = self.pointee(f);
                match self.cells.remove(&(at.buf, at.offset)) {
                    Some(Val::Borrowed(p)) => {
                        let clone = self.peek(inner, p);
                        self.put(at, Blob::one(f.id % 1000, Val::Owned(clone)));
                    }
                    other => panic!("promoted {other:?}"),
                }
            }
            MemOp::StringInto { kind, dst, src } => {
                let s = self.take(STRING, src);
                let v = match kind {
                    KnownPointer::Cow => Val::Owned(s),
                    _ => Val::Ptr(s),
                };
                self.put(dst, Blob::one(0, v));
            }
            MemOp::OwnedInto { owned, dst, src } => {
                let value = self.take(owned.id, src);
                self.put(dst, Blob::one(0, Val::Owned(value)));
            }
            MemOp::CloneInto { shape, dst, src } => {
                let clone = self.peek(shape.id, src);
                self.put(dst, clone);
            }
            MemOp::WriteTag { at, tag } => match tag {
                partial_build::memory::Tag::U8(t) => {
                    self.cells.insert((at.buf, at.offset), Val::Tag(t));
                }
                other => panic!("unexpected {other:?}"),
            },
            MemOp::SliceNew { f: _, buf } => {
                self.builders.insert(buf, Vec::new());
            }
            MemOp::SlicePush { f, builder, item } => {
                let blob = self.take(self.slice_item(f), item);
                self.builders.get_mut(&builder.buf).unwrap().push(blob);
            }
            MemOp::SliceConvert { f, builder, buf } => {
                let items = self.builders.remove(&builder.buf).unwrap();
                let layout = match self.shapes.shapes[f.id % 1000].layout {
                    ShapeLayout::Sized(l) => l,
                    ShapeLayout::Unsized => panic!("unsized pointer"),
                };
                self.live.insert(buf, layout);
                self.put(Addr { buf, offset: 0 }, Blob::one(f.id % 1000, Val::Many(items)));
            }
            MemOp::SliceFree { f: _, builder } => {
                let items = self.builders.remove(&builder.buf).expect("builder freed twice");
                for i in items {
                    self.drop_blob(i);
                }
            }
            MemOp::Copy { src, dst, size: _ } => {
                let v = self.cells.remove(&(src.buf, src.offset)).unwrap();
                self.put(dst, Blob { shape: 0, cells: BTreeMap::from([(0, v)]) });
            }
            MemOp::ListPush { f, list, item } => {
                let item_shape = match self.shapes.shapes[f.id % 1000].def {
                    Def::List(d) => d.t.id,
                    _ => panic!("no list"),
                };
                let blob = self.take(item_shape, item);
                match self.cells.get_mut(&(list.buf, list.offset)) {
                    Some(Val::Many(items)) => items.push(blob),
                    other => panic!("pushed onto {other:?}"),
                }
            }
            MemOp::FreeRope { .. } => {}
            other => panic!("not expected here: {other:?}"),
        }
    }

    fn try_from(&mut self, call: TryFromCall) -> TryFromOutcome {
        panic!("not expected here: {call:?}")
    }

    fn convert_in(&mut self, call: ConvertCall) -> Result<Addr, String> {
        panic!("not expected here: {call:?}")
    }

    fn validate(&mut self, call: ValidateCall) -> Result<(), String> {
        panic!("not expected here: {call:?}")
    }
}

// ---------------------------------------------------------------------------------------------
// Steps

type P<'a> = Partial<'a, true>;

fn start<'a>(plan: &'a TypePlanCore, shape: usize, m: &mut Memory) -> P<'a> {
    Partial::alloc_shape(plan, NodeId { index: shape }, m).unwrap()
}

fn top<'x>(p: &'x mut P) -> &'x mut Frame {
    p.mode.stack_mut().last_mut().unwrap()
}

/// Sets the value of the current frame.
fn set<'a>(mut p: P<'a>, v: Blob, m: &mut Memory) -> P<'a> {
    let plan = p.root_plan;
    let f = top(&mut p);
    assert_eq!(f.allocated.shape().id, v.shape);
    f.deinit_for_replace(&plan.shapes, m);
    let at = f.data.addr;
    f.mark_as_init();
    m.put(at, v);
    p
}

/// Enters a field of a struct, or of the chosen variant of an enum.
fn begin_field<'a>(mut p: P<'a>, name: &str, m: &mut Memory) -> Result<P<'a>, ReflectError> {
    let plan = p.root_plan;
    let found = match p.get_fields() {
        Ok(fields) => fields.iter().position(|f| f.name == name).unwrap(),
        Err(e) => {
            p.cancel(m);
            return Err(e);
        }
    };
    let shape = p.shape();
    let child_shape = p.get_fields().unwrap()[found].shape;
    let node = NodeId { index: child_shape.id };
    let frame = top(&mut p);
    let child = match &plan.shapes.shapes[shape.id].ty {
        Type::User(UserType::Struct(st)) => {
            P::begin_nth_struct_field(&plan.shapes, frame, st, found, node).unwrap()
        }
        Type::User(UserType::Enum(e)) => {
            let variant_idx = match &frame.tracker {
                Tracker::Enum { variant_idx, .. } => *variant_idx,
                _ => panic!("no variant"),
            };
            let variant = &e.variants[variant_idx];
            P::begin_nth_enum_field(&plan.shapes, frame, variant, found, node).unwrap()
        }
        _ => panic!("no fields"),
    };
    p.mode.stack_mut().push(child);
    Ok(p)
}

fn select_variant_named<'a>(mut p: P<'a>, name: &str, m: &mut Memory) -> P<'a> {
    let plan = p.root_plan;
    let idx = match &plan.shapes.shapes[p.shape().id].ty {
        Type::User(UserType::Enum(e)) => e.variants.iter().position(|v| v.name == name).unwrap(),
        _ => panic!("no enum"),
    };
    p.select_variant_internal(idx, m).unwrap();
    p
}

/// Enters the next item of a list or slice.
fn begin_item<'a>(mut p: P<'a>, item: usize, m: &mut Memory) -> P<'a> {
    let plan = p.root_plan;
    let buf = p.next_buffer;
    p.next_buffer += 1;
    let layout = match plan.shapes.shapes[item].layout {
        ShapeLayout::Sized(l) => l,
        ShapeLayout::Unsized => panic!("unsized item"),
    };
    let node = NodeId { index: item };
    let frame = top(&mut p);
    let (data, ownership) = match &mut frame.tracker {
        Tracker::SmartPointerSlice { building_item, current_child, .. } => {
            *building_item = true;
            *current_child = Some(current_child.map_or(0, |i| i + 1));
            (alloc_for_layout(layout, buf, m), FrameOwnership::Owned)
        }
        Tracker::List { current_child, rope } => {
            let slot = PtrUninit { addr: Addr { buf, offset: 0 } };
            let rope = rope.get_or_insert(ListRope { id: 7, slots: Vec::new(), initialized: 0 });
            *current_child = Some(rope.slots.len());
            rope.slots.push(slot);
            (slot, FrameOwnership::RopeSlot)
        }
        other => panic!("no list: {other:?}"),
    };
    let child =
        Frame::new(&plan.shapes, data, AllocatedShape::new(r(item), layout.size), ownership, node);
    p.mode.stack_mut().push(child);
    p
}

/// Takes the finished value out.
fn build<'a>(mut p: P<'a>, m: &mut Memory) -> Result<Blob, ReflectErrorKind> {
    if p.frame_count() != 1 {
        p.cancel(m);
        return Err(ReflectErrorKind::InvariantViolation { invariant: "more than one frame" });
    }
    let shape = p.shape().id;
    let plan = p.root_plan;
    if let Err(kind) = top(&mut p).require_full_initialization(&plan.shapes, m) {
        p.cancel(m);
        return Err(kind);
    }
    let at = p.initialized_data_ptr(m).unwrap().addr;
    let blob = m.take(shape, at);
    p.state = PartialState::Built;
    let f = p.mode.stack_mut().pop().unwrap();
    f.dealloc_moved(&plan.shapes, m);
    Ok(blob)
}

fn string(s: &str) -> Blob {
    Blob::one(STRING, Val::Str(String::from(s)))
}

fn owned_str(b: &Blob) -> String {
    match b.cells.get(&0) {
        Some(Val::Owned(inner)) | Some(Val::Ptr(inner)) => match inner.cells.get(&0) {
            Some(Val::Str(s)) => s.clone(),
            other => panic!("no string: {other:?}"),
        },
        other => panic!("no pointer: {other:?}"),
    }
}

fn is_owned(b: &Blob) -> bool {
    matches!(b.cells.get(&0), Some(Val::Owned(_)))
}

fn inner(b: &Blob) -> Blob {
    match b.cells.get(&0) {
        Some(Val::Owned(inner)) | Some(Val::Ptr(inner)) => inner.clone(),
        other => panic!("no pointer: {other:?}"),
    }
}

/// Everything that was allocated was released, and nothing is left in memory.
fn assert_clean(m: &Memory) {
    assert!(m.live.is_empty(), "not released: {:?}", m.live);
    assert!(m.cells.is_empty(), "left behind: {:?}", m.cells);
    assert!(m.builders.is_empty());
}

// ---------------------------------------------------------------------------------------------

#[test]
fn print_type_sizes() {
    println!("\n=== Type Sizes ===");
    println!("Frame: {} bytes", size_of::<Frame>());
    println!("Tracker: {} bytes", size_of::<Tracker>());
    println!("ISet: {} bytes", size_of::<ISet>());
    println!("AllocatedShape: {} bytes", size_of::<AllocatedShape>());
    println!("FrameOwnership: {} bytes", size_of::<FrameOwnership>());
    println!("PtrUninit: {} bytes", size_of::<PtrUninit>());
    println!("Option<usize>: {} bytes", size_of::<Option<usize>>());
    println!("Option<ProxyDef>: {} bytes", size_of::<Option<ProxyDef>>());
    println!("TypePlanNode: {} bytes", size_of::<TypePlanNode>());
    println!("Vec<Frame>: {} bytes", size_of::<Vec<Frame>>());
    println!("MapInsertState: {} bytes", size_of::<MapInsertState>());
    println!("DynamicValueState: {} bytes", size_of::<DynamicValueState>());
    println!("===================\n");
}

#[test]
fn cow_pending_smart_pointer_drop_uses_actual_staging_shape() {
    let mut t = Types::new();
    let cow = t.cow(STR, STRING);
    let plan = t.plan();
    let mut m = Memory::new(&plan);
    let mut partial = start(&plan, cow, &mut m);
    let string_layout = Layout { size: 24, align: 8 };
    let staging_data = alloc_for_layout(string_layout, 100, &mut m);
    m.put(
        staging_data.addr,
        string("the pending String staging allocation must be dropped as String, not str"),
    );

    let root = top(&mut partial);
    root.tracker = Tracker::SmartPointer {
        building_inner: false,
        pending_inner: Some(PendingSmartPointerInner {
            data: staging_data,
            allocated: AllocatedShape::new(r(STRING), string_layout.size),
            ownership: FrameOwnership::Owned,
        }),
    };
    root.is_init = true;

    partial.cancel(&mut m);
    assert_eq!(m.dropped(STRING), 1);
    assert_eq!(m.dropped(STR), 0);
    assert_eq!(m.dropped(cow), 0);
    assert_clean(&m);
}

#[test]
fn external_reinitialization_drains_direct_pending_smart_pointer_staging() {
    let mut t = Types::new();
    let tracker = t.strukt(&[], 0);
    let cow = t.cow(tracker, tracker);
    let plan = t.plan();
    let mut m = Memory::new(&plan);
    let destination = PtrUninit { addr: Addr { buf: 50, offset: 0 } };
    let mut partial: P =
        Partial::from_raw_with_shape(&plan, NodeId { index: cow }, destination).unwrap();

    let staging_layout = Layout { size: 0, align: 8 };
    let staging_data = alloc_for_layout(staging_layout, 100, &mut m);
    m.put(staging_data.addr, Blob::one(tracker, Val::Unit));

    let root = top(&mut partial);
    root.tracker = Tracker::SmartPointer {
        building_inner: false,
        pending_inner: Some(PendingSmartPointerInner {
            data: staging_data,
            allocated: AllocatedShape::new(r(tracker), staging_layout.size),
            ownership: FrameOwnership::Owned,
        }),
    };

    assert!(partial.prepare_for_reinitialization(&mut m));
    assert_eq!(m.dropped(tracker), 1);

    partial.cancel(&mut m);
    assert_eq!(m.dropped(tracker), 1);
    assert_clean(&m);
}

// A small model of an object explorer: the selected value is known by its address only, and the
// field of the request is found from the request's shape.
#[test]
fn cow_object_explorer_can_borrow_then_materialize_a_selected_field() {
    let mut t = Types::new();
    let organization_url = t.strukt(&[("value", 0, STRING)], 24);
    let cow = t.cow(organization_url, organization_url);
    let request = t.strukt(&[("organization_url", 0, cow)], 24);
    let plan = t.plan();
    let mut m = Memory::new(&plan);

    let selected = PtrConst { addr: Addr { buf: 60, offset: 0 } };
    let url = Blob {
        shape: organization_url,
        cells: BTreeMap::from([(0, Val::Str("https://dev.azure.com/example".to_owned()))]),
    };
    m.put(selected.addr, url.clone());

    let Type::User(UserType::Struct(request_def)) = &plan.shapes.shapes[request].ty else {
        panic!("ListProjectsRequest should have reflected struct metadata");
    };
    let field = request_def
        .fields
        .iter()
        .find(|field| field.name == "organization_url")
        .expect("Object Explorer should find the selected request field");
    let Def::Pointer(pointer) = plan.shapes.shapes[field.shape.id].def else {
        panic!("organization_url should be reflected as a pointer");
    };
    assert_eq!(
        pointer.pointee().expect("Cow should expose its pointee shape"),
        r(organization_url),
        "the dynamically selected value must match the Cow field's pointee type"
    );
    assert_eq!(pointer.known, Some(KnownPointer::Cow));
    assert!(pointer.vtable.borrow_from_pointee_fn.is_some());
    assert!(pointer.vtable.promote_to_owned_fn.is_some());

    let mut value = cow_borrow_from_pointee(selected);
    assert_eq!(value, CowValue::Borrowed(selected));

    cow_promote_to_owned(&mut value, r(organization_url), 61, &mut m);
    // The source may be released now.
    let source = m.take(organization_url, selected.addr);
    m.drop_blob(source);

    let owned = PtrConst { addr: Addr { buf: 61, offset: 0 } };
    assert_eq!(value, CowValue::Owned(owned));
    assert_eq!(m.peek(organization_url, cow_borrow(&value).addr), url);
}

/// A value whose drops are counted.
fn drop_tracker(t: &mut Types) -> usize {
    t.strukt(&[("value", 0, U8)], 1)
}

fn tracker_value(shape: usize, value: u8) -> Blob {
    Blob::one(shape, Val::U8(value))
}

#[test]
fn cow_partial_sized_borrow_promote_drops_source_once() {
    let mut t = Types::new();
    let tracker = drop_tracker(&mut t);
    let cow_ty = t.cow(tracker, tracker);
    let plan = t.plan();
    let mut m = Memory::new(&plan);

    let p = start(&plan, cow_ty, &mut m);
    let p = p.begin_smart_ptr(&mut m).unwrap();
    let p = set(p, tracker_value(tracker, 41), &mut m);
    let p = p.end(&mut m).unwrap();
    let cow = build(p, &mut m).unwrap();

    assert!(is_owned(&cow));
    assert_eq!(inner(&cow), tracker_value(tracker, 41));
    assert_eq!(
        m.dropped(tracker),
        1,
        "the temporary pointee is dropped after Cow materializes its owned clone"
    );

    m.drop_blob(cow);
    assert_eq!(m.dropped(tracker), 2);
    assert_clean(&m);
}

fn drop_tracker_enum(t: &mut Types, tracker: usize) -> usize {
    t.enumeration(
        &[
            ("Unit", &[]),
            ("Payload", &[("value", 1, tracker)]),
            ("Pair", &[("first", 1, tracker), ("second", 2, tracker)]),
        ],
        3,
    )
}

fn check_cow_enum_source_and_owned_clone_drop(deferred: bool) {
    for variant in ["Unit", "Payload"] {
        let mut t = Types::new();
        let tracker = drop_tracker(&mut t);
        let enum_ty = drop_tracker_enum(&mut t, tracker);
        let cow_ty = t.cow(enum_ty, enum_ty);
        let plan = t.plan();
        let mut m = Memory::new(&plan);

        let mut partial = start(&plan, cow_ty, &mut m);
        if deferred {
            partial = partial.begin_deferred(&mut m).unwrap();
        }
        partial = partial.begin_smart_ptr(&mut m).unwrap();
        partial = select_variant_named(partial, variant, &mut m);
        if variant == "Payload" {
            partial = begin_field(partial, "value", &mut m).unwrap();
            partial = set(partial, tracker_value(tracker, 46), &mut m);
            partial = partial.end(&mut m).unwrap();
        }
        partial = partial.end(&mut m).unwrap();
        if deferred {
            partial = partial.finish_deferred(&mut m).unwrap();
        }
        let cow = build(partial, &mut m).unwrap();

        assert!(is_owned(&cow));
        assert_eq!(m.dropped(enum_ty), 1);
        let payload_drops = usize::from(variant == "Payload");
        assert_eq!(m.dropped(tracker), payload_drops);

        m.drop_blob(cow);
        assert_eq!(m.dropped(enum_ty), 2);
        assert_eq!(m.dropped(tracker), payload_drops * 2);
        assert_clean(&m);
    }
}

#[test]
fn cow_partial_enum_borrow_promote_drops_source_and_owned_clone() {
    check_cow_enum_source_and_owned_clone_drop(false)
}

#[test]
fn cow_partial_enum_borrow_promote_deferred_drops_source_and_owned_clone() {
    check_cow_enum_source_and_owned_clone_drop(true)
}

#[test]
fn cow_partial_enum_cancellation_respects_initialized_fields() {
    for deferred in [false, true] {
        for store_inner in [false, true] {
            if store_inner && !deferred {
                continue;
            }
            for variant in ["Unit", "Payload", "Pair"] {
                let mut t = Types::new();
                let tracker = drop_tracker(&mut t);
                let enum_ty = drop_tracker_enum(&mut t, tracker);
                let cow_ty = t.cow(enum_ty, enum_ty);
                let plan = t.plan();
                let mut m = Memory::new(&plan);

                let mut partial = start(&plan, cow_ty, &mut m);
                if deferred {
                    partial = partial.begin_deferred(&mut m).unwrap();
                }
                partial = partial.begin_smart_ptr(&mut m).unwrap();
                partial = select_variant_named(partial, variant, &mut m);
                if variant != "Unit" {
                    let field = if variant == "Payload" { "value" } else { "first" };
                    partial = begin_field(partial, field, &mut m).unwrap();
                    partial = set(partial, tracker_value(tracker, 47), &mut m);
                    partial = partial.end(&mut m).unwrap();
                }
                if store_inner {
                    partial = partial.end(&mut m).unwrap();
                }
                partial.cancel(&mut m);

                // Deferred field frames are given up separately, leaving the enum incomplete. Only
                // a unit variant or a fully assembled strict payload runs the whole destructor.
                let enum_drops =
                    usize::from(variant == "Unit" || (!deferred && variant == "Payload"));
                assert_eq!(m.dropped(enum_ty), enum_drops);
                assert_eq!(m.dropped(tracker), usize::from(variant != "Unit"));
                assert_clean(&m);
            }
        }
    }
}

#[test]
fn cow_str_begin_smart_ptr_materializes_owned() {
    let mut t = Types::new();
    let cow_ty = t.cow(STR, STRING);
    let plan = t.plan();
    let mut m = Memory::new(&plan);
    let p = start(&plan, cow_ty, &mut m);
    let p = p.begin_smart_ptr(&mut m).unwrap();
    let p = set(p, string("borrow then own"), &mut m);
    let p = p.end(&mut m).unwrap();
    let cow = build(p, &mut m).unwrap();
    assert!(is_owned(&cow));
    assert_eq!(owned_str(&cow), "borrow then own");
    assert_clean(&m);
}

#[test]
fn cow_partial_sized_borrow_promote_deferred() {
    let mut t = Types::new();
    let tracker = drop_tracker(&mut t);
    let cow_ty = t.cow(tracker, tracker);
    let plan = t.plan();
    let mut m = Memory::new(&plan);
    let p = start(&plan, cow_ty, &mut m);
    let p = p.begin_deferred(&mut m).unwrap();
    let p = p.begin_smart_ptr(&mut m).unwrap();
    let p = set(p, tracker_value(tracker, 42), &mut m);
    let p = p.end(&mut m).unwrap();
    let p = p.finish_deferred(&mut m).unwrap();
    let cow = build(p, &mut m).unwrap();

    assert!(is_owned(&cow));
    assert_eq!(inner(&cow), tracker_value(tracker, 42));
    assert_eq!(m.dropped(tracker), 1);
    m.drop_blob(cow);
    assert_eq!(m.dropped(tracker), 2);
    assert_clean(&m);
}

#[test]
fn cow_partial_sized_deferred_drop_without_finish_drops_staging_source() {
    let mut t = Types::new();
    let tracker = drop_tracker(&mut t);
    let cow_ty = t.cow(tracker, tracker);
    let plan = t.plan();
    let mut m = Memory::new(&plan);
    let p = start(&plan, cow_ty, &mut m);
    let p = p.begin_deferred(&mut m).unwrap();
    let p = p.begin_smart_ptr(&mut m).unwrap();
    let p = set(p, tracker_value(tracker, 43), &mut m);
    let p = p.end(&mut m).unwrap();
    p.cancel(&mut m);
    assert_eq!(m.dropped(tracker), 1);
    assert_clean(&m);
}

#[test]
fn cow_external_deferred_reentry_drops_replaced_staging_source() {
    let mut t = Types::new();
    let tracker = drop_tracker(&mut t);
    let cow_ty = t.cow(tracker, tracker);
    let plan = t.plan();
    let mut m = Memory::new(&plan);
    let destination = PtrUninit { addr: Addr { buf: 50, offset: 0 } };
    let p: P = Partial::from_raw_with_shape(&plan, NodeId { index: cow_ty }, destination).unwrap();
    let p = p.begin_deferred(&mut m).unwrap();
    let p = p.begin_smart_ptr(&mut m).unwrap();
    let p = set(p, tracker_value(tracker, 44), &mut m);
    let p = p.end(&mut m).unwrap();
    // Entering the same pointer again must clean the first value before another replaces it.
    let p = p.begin_smart_ptr(&mut m).unwrap();
    let p = set(p, tracker_value(tracker, 45), &mut m);
    let p = p.end(&mut m).unwrap();
    p.cancel(&mut m);
    assert_eq!(m.dropped(tracker), 2);
    assert_clean(&m);
}

#[test]
fn cow_str_deferred_drop_without_finish_releases_staging_string() {
    let mut t = Types::new();
    let cow_ty = t.cow(STR, STRING);
    let plan = t.plan();
    let mut m = Memory::new(&plan);
    let p = start(&plan, cow_ty, &mut m);
    let p = p.begin_deferred(&mut m).unwrap();
    let p = p.begin_smart_ptr(&mut m).unwrap();
    let p = set(
        p,
        string("the deferred String staging allocation must be released on cancellation"),
        &mut m,
    );
    let p = p.end(&mut m).unwrap();
    p.cancel(&mut m);
    assert_eq!(m.dropped(STRING), 1);
    assert_clean(&m);
}

#[test]
fn cow_str_begin_smart_ptr_deferred_materializes_owned() {
    let mut t = Types::new();
    let cow_ty = t.cow(STR, STRING);
    let plan = t.plan();
    let mut m = Memory::new(&plan);
    let p = start(&plan, cow_ty, &mut m);
    let p = p.begin_deferred(&mut m).unwrap();
    let p = p.begin_smart_ptr(&mut m).unwrap();
    let p = set(p, string("deferred borrow then own"), &mut m);
    let p = p.end(&mut m).unwrap();
    let p = p.finish_deferred(&mut m).unwrap();
    let cow = build(p, &mut m).unwrap();
    assert!(is_owned(&cow));
    assert_eq!(owned_str(&cow), "deferred borrow then own");
    assert_clean(&m);
}

#[test]
fn cow_str_deferred_reentry_restores_string_staging() {
    let mut t = Types::new();
    let cow_ty = t.cow(STR, STRING);
    let plan = t.plan();
    let mut m = Memory::new(&plan);
    let p = start(&plan, cow_ty, &mut m);
    let p = p.begin_deferred(&mut m).unwrap();
    let p = p.begin_smart_ptr(&mut m).unwrap();
    let p = set(p, string("first staged value"), &mut m);
    let p = p.end(&mut m).unwrap();
    let buffers = p.next_buffer;
    let p = p.begin_smart_ptr(&mut m).unwrap();
    assert_eq!(p.next_buffer, buffers, "the same allocation is entered again");
    let p = set(p, string("replacement staged value"), &mut m);
    let p = p.end(&mut m).unwrap();
    let p = p.finish_deferred(&mut m).unwrap();
    let cow = build(p, &mut m).unwrap();
    assert!(is_owned(&cow));
    assert_eq!(owned_str(&cow), "replacement staged value");
    assert_clean(&m);
}

fn outer(t: &mut Types, arc: bool) -> (usize, usize, usize) {
    let inner = t.strukt(&[("value", 0, I32)], 4);
    let held = if arc { t.pointer(inner, KnownPointer::Arc) } else { inner };
    let outer = t.strukt(&[("inner", 0, held)], 8);
    (inner, held, outer)
}

#[test]
fn outer_no_arc() {
    let mut t = Types::new();
    let (_, _, outer) = outer(&mut t, false);
    let plan = t.plan();
    let mut m = Memory::new(&plan);
    let mut partial = start(&plan, outer, &mut m);
    partial = begin_field(partial, "inner", &mut m).unwrap();
    partial = begin_field(partial, "value", &mut m).unwrap();
    partial = set(partial, Blob::one(I32, Val::I32(1234)), &mut m);
    partial = partial.end(&mut m).unwrap();
    partial = partial.end(&mut m).unwrap();
    let o = build(partial, &mut m).unwrap();
    assert_eq!(o, Blob::one(outer, Val::I32(1234)));
    assert_clean(&m);
}

#[test]
fn outer_yes_arc_put() {
    let mut t = Types::new();
    let (inner_ty, arc, outer) = outer(&mut t, true);
    let plan = t.plan();
    let mut m = Memory::new(&plan);
    let mut partial = start(&plan, outer, &mut m);
    let inner = Blob::one(inner_ty, Val::I32(5678));
    partial = begin_field(partial, "inner", &mut m).unwrap();
    partial = set(partial, Blob::one(arc, Val::Ptr(inner.clone())), &mut m);
    partial = partial.end(&mut m).unwrap();
    let o = build(partial, &mut m).unwrap();
    assert_eq!(o, Blob::one(outer, Val::Ptr(inner)));
    assert_clean(&m);
}

#[test]
fn outer_yes_arc_pointee() {
    let mut t = Types::new();
    let (inner_ty, _, outer) = outer(&mut t, true);
    let plan = t.plan();
    let mut m = Memory::new(&plan);
    let mut partial = start(&plan, outer, &mut m);
    partial = begin_field(partial, "inner", &mut m).unwrap();
    partial = partial.begin_smart_ptr(&mut m).unwrap();
    partial = begin_field(partial, "value", &mut m).unwrap();
    partial = set(partial, Blob::one(I32, Val::I32(4321)), &mut m);
    partial = partial.end(&mut m).unwrap();
    partial = partial.end(&mut m).unwrap();
    partial = partial.end(&mut m).unwrap();
    let o = build(partial, &mut m).unwrap();
    assert_eq!(o, Blob::one(outer, Val::Ptr(Blob::one(inner_ty, Val::I32(4321)))));
    assert_clean(&m);
}

#[test]
fn outer_yes_arc_field_named_twice_error() {
    let mut t = Types::new();
    let (_, arc, outer) = outer(&mut t, true);
    let plan = t.plan();
    let mut m = Memory::new(&plan);
    let mut partial = start(&plan, outer, &mut m);
    partial = begin_field(partial, "inner", &mut m).unwrap();
    // Entering a field again instead of the pointee is an error.
    let err = match begin_field(partial, "value", &mut m) {
        Ok(_) => panic!("expected an error"),
        Err(e) => e,
    };
    match err.kind {
        ReflectErrorKind::OperationFailed { shape, operation } => {
            assert_eq!(shape, r(arc));
            assert!(operation.contains("opaque types cannot be reflected upon"));
        }
        other => panic!("got: {other:?}"),
    }
    assert_clean(&m);
}

fn str_pointer(known: KnownPointer) -> (TypePlanCore, usize) {
    let mut t = Types::new();
    let ptr = t.pointer(STR, known);
    (t.plan(), ptr)
}

#[test]
fn arc_str_begin_smart_ptr_good() {
    let (plan, arc) = str_pointer(KnownPointer::Arc);
    let mut m = Memory::new(&plan);
    let mut partial = start(&plan, arc, &mut m);
    partial = partial.begin_smart_ptr(&mut m).unwrap();
    partial = set(partial, string("foobar"), &mut m);
    partial = partial.end(&mut m).unwrap();
    let built = build(partial, &mut m).unwrap();
    assert_eq!(owned_str(&built), "foobar");
    assert_clean(&m);
}

#[test]
fn arc_str_begin_smart_ptr_bad_1() {
    let (plan, arc) = str_pointer(KnownPointer::Arc);
    let mut m = Memory::new(&plan);
    let partial = start(&plan, arc, &mut m);
    let err = build(partial, &mut m).unwrap_err();
    assert!(matches!(err, ReflectErrorKind::UninitializedValue { shape } if shape == r(arc)));
    assert_clean(&m);
}

#[test]
fn arc_str_begin_smart_ptr_bad_2a() {
    let (plan, arc) = str_pointer(KnownPointer::Arc);
    let mut m = Memory::new(&plan);
    let mut partial = start(&plan, arc, &mut m);
    partial = partial.begin_smart_ptr(&mut m).unwrap();
    assert!(build(partial, &mut m).is_err());
    assert_clean(&m);
}

#[test]
fn arc_str_begin_smart_ptr_bad_2b() {
    let (plan, arc) = str_pointer(KnownPointer::Arc);
    let mut m = Memory::new(&plan);
    let mut partial = start(&plan, arc, &mut m);
    partial = partial.begin_smart_ptr(&mut m).unwrap();
    let err = match partial.end(&mut m) {
        Ok(_) => panic!("expected error"),
        Err(e) => e,
    };
    assert!(matches!(
        err.kind,
        ReflectErrorKind::UninitializedValue { shape } if shape == r(STRING)
    ));
    assert_clean(&m);
}

#[test]
fn arc_str_begin_smart_ptr_bad_3() {
    let (plan, arc) = str_pointer(KnownPointer::Arc);
    let mut m = Memory::new(&plan);
    let mut partial = start(&plan, arc, &mut m);
    partial = partial.begin_smart_ptr(&mut m).unwrap();
    partial = set(partial, string("foobar"), &mut m);
    assert!(build(partial, &mut m).is_err());
    assert_eq!(m.dropped(STRING), 1);
    assert_clean(&m);
}

#[test]
fn rc_str_begin_smart_ptr_once() {
    let (plan, rc) = str_pointer(KnownPointer::Rc);
    let mut m = Memory::new(&plan);
    let mut partial = start(&plan, rc, &mut m);
    partial = partial.begin_smart_ptr(&mut m).unwrap();
    partial = set(partial, string("foobar"), &mut m);
    partial = partial.end(&mut m).unwrap();
    let built = build(partial, &mut m).unwrap();
    assert_eq!(owned_str(&built), "foobar");
    assert_clean(&m);
}

#[test]
fn rc_str_begin_smart_ptr_twice() {
    let (plan, rc) = str_pointer(KnownPointer::Rc);
    let mut m = Memory::new(&plan);
    let mut partial = start(&plan, rc, &mut m);

    partial = partial.begin_smart_ptr(&mut m).unwrap();
    partial = set(partial, string("foobar"), &mut m);
    partial = partial.end(&mut m).unwrap();

    partial = partial.begin_smart_ptr(&mut m).unwrap();
    partial = set(partial, string("barbaz"), &mut m);
    partial = partial.end(&mut m).unwrap();

    let built = build(partial, &mut m).unwrap();
    assert_eq!(owned_str(&built), "barbaz");
    assert_clean(&m);
}

#[test]
fn box_str_begin_smart_ptr() {
    let (plan, boxed) = str_pointer(KnownPointer::Box);
    let mut m = Memory::new(&plan);
    let mut partial = start(&plan, boxed, &mut m);
    partial = partial.begin_smart_ptr(&mut m).unwrap();
    partial = set(partial, string("foobar"), &mut m);
    partial = partial.end(&mut m).unwrap();
    let built = build(partial, &mut m).unwrap();
    assert_eq!(owned_str(&built), "foobar");
    assert_clean(&m);
}

fn bytes(b: &Blob) -> Vec<u8> {
    match b.cells.get(&0) {
        Some(Val::Many(items)) => items
            .iter()
            .map(|i| match i.cells.get(&0) {
                Some(Val::U8(x)) => *x,
                other => panic!("no byte: {other:?}"),
            })
            .collect(),
        other => panic!("no items: {other:?}"),
    }
}

fn push<'a>(p: P<'a>, byte: u8, m: &mut Memory) -> P<'a> {
    let p = begin_item(p, U8, m);
    let p = set(p, Blob::one(U8, Val::U8(byte)), m);
    p.end(m).unwrap()
}

#[test]
fn arc_slice_u8_begin_smart_ptr_good() {
    {
        // Just to make sure: a list of bytes works.
        let mut t = Types::new();
        let list = t.list(U8);
        let plan = t.plan();
        let mut m = Memory::new(&plan);
        let mut partial = start(&plan, list, &mut m);
        let root = top(&mut partial);
        root.is_init = true;
        root.tracker = Tracker::List { current_child: None, rope: None };
        let at = root.data.addr;
        m.put(at, Blob::one(list, Val::Many(Vec::new())));
        partial = push(partial, 2, &mut m);
        partial = push(partial, 3, &mut m);
        partial = push(partial, 4, &mut m);
        let built = build(partial, &mut m).unwrap();
        assert_eq!(bytes(&built), vec![2, 3, 4]);
        assert_clean(&m);
    }

    {
        let mut t = Types::new();
        let slice = t.slice(U8);
        let arc = t.pointer(slice, KnownPointer::Arc);
        let plan = t.plan();
        let mut m = Memory::new(&plan);
        let mut partial = start(&plan, arc, &mut m);
        partial = partial.begin_smart_ptr(&mut m).unwrap();
        assert!(partial.is_building_smart_ptr_slice());
        partial = push(partial, 2, &mut m);
        partial = push(partial, 3, &mut m);
        partial = push(partial, 4, &mut m);
        partial = partial.end(&mut m).unwrap();
        assert!(!partial.is_building_smart_ptr_slice());
        let built = build(partial, &mut m).unwrap();
        assert_eq!(bytes(&built), vec![2, 3, 4]);
        assert_clean(&m);
    }
}

fn pointer_to(pointee: usize, known: KnownPointer) -> (TypePlanCore, usize) {
    let mut t = Types::new();
    let ptr = t.pointer(pointee, known);
    (t.plan(), ptr)
}

#[test]
fn box_init() {
    let (plan, boxed) = pointer_to(U32, KnownPointer::Box);
    let mut m = Memory::new(&plan);
    let p = start(&plan, boxed, &mut m);
    let p = p.begin_smart_ptr(&mut m).unwrap();
    let p = set(p, Blob::one(U32, Val::U32(42)), &mut m);
    let p = p.end(&mut m).unwrap();
    let hv = build(p, &mut m).unwrap();
    assert_eq!(inner(&hv), Blob::one(U32, Val::U32(42)));
    assert_clean(&m);
}

#[test]
fn box_partial_init() {
    let (plan, boxed) = pointer_to(U32, KnownPointer::Box);
    let mut m = Memory::new(&plan);
    let p = start(&plan, boxed, &mut m);
    let err = build(p, &mut m).unwrap_err();
    assert!(matches!(err, ReflectErrorKind::UninitializedValue { shape } if shape == r(boxed)));
    assert_clean(&m);
}

fn point_behind(known: KnownPointer, x: f64, y: f64) {
    let mut t = Types::new();
    let point = t.strukt(&[("x", 0, F64), ("y", 8, F64)], 16);
    let ptr = t.pointer(point, known);
    let plan = t.plan();
    let mut m = Memory::new(&plan);
    let mut p = start(&plan, ptr, &mut m);
    p = p.begin_smart_ptr(&mut m).unwrap();
    for (name, v) in [("x", x), ("y", y)] {
        p = begin_field(p, name, &mut m).unwrap();
        p = set(p, Blob::one(F64, Val::F64(v)), &mut m);
        p = p.end(&mut m).unwrap();
    }
    p = p.end(&mut m).unwrap();
    let hv = build(p, &mut m).unwrap();
    let expected =
        Blob { shape: point, cells: BTreeMap::from([(0, Val::F64(x)), (8, Val::F64(y))]) };
    assert_eq!(inner(&hv), expected);
    assert_clean(&m);
}

#[test]
fn box_struct() {
    point_behind(KnownPointer::Box, 1.0, 2.0);
}

fn drop_pointer_partially_initialized(known: KnownPointer, value: u32) {
    let mut t = Types::new();
    let counter = t.strukt(&[("value", 0, U32)], 4);
    let ptr = t.pointer(counter, known);
    let plan = t.plan();
    let mut m = Memory::new(&plan);
    let p = start(&plan, ptr, &mut m);
    let p = p.begin_smart_ptr(&mut m).unwrap();
    let p = set(p, Blob::one(counter, Val::U32(value)), &mut m);
    let p = p.end(&mut m).unwrap();
    // Giving the value up drops the pointer, which drops what it points to.
    p.cancel(&mut m);
    assert_eq!(m.dropped(counter), 1, "Should drop the inner value through the pointer's drop");
    assert_eq!(m.dropped(ptr), 1);
    assert_clean(&m);
}

#[test]
fn drop_box_partially_initialized() {
    drop_pointer_partially_initialized(KnownPointer::Box, 99);
}

#[test]
fn arc_init() {
    let (plan, arc) = pointer_to(U32, KnownPointer::Arc);
    let mut m = Memory::new(&plan);
    let p = start(&plan, arc, &mut m);
    let p = p.begin_smart_ptr(&mut m).unwrap();
    let p = set(p, Blob::one(U32, Val::U32(42)), &mut m);
    let p = p.end(&mut m).unwrap();
    let hv = build(p, &mut m).unwrap();
    assert_eq!(inner(&hv), Blob::one(U32, Val::U32(42)));
    assert_clean(&m);
}

#[test]
fn arc_partial_init() {
    let (plan, arc) = pointer_to(U32, KnownPointer::Arc);
    let mut m = Memory::new(&plan);
    let p = start(&plan, arc, &mut m);
    let err = build(p, &mut m).unwrap_err();
    assert!(matches!(err, ReflectErrorKind::UninitializedValue { shape } if shape == r(arc)));
    assert_clean(&m);
}

#[test]
fn arc_struct() {
    point_behind(KnownPointer::Arc, 3.0, 4.0);
}

#[test]
fn drop_arc_partially_initialized() {
    drop_pointer_partially_initialized(KnownPointer::Arc, 123);
}

#[test]
fn test_cow_type_params() {
    let mut t = Types::new();
    let cow = t.cow(STR, STRING);
    let plan = t.plan();
    let [type_param_1, type_param_2] = plan.shapes.shapes[cow].type_params.as_slice() else {
        panic!("Cow<'_, T> should only have 2 type params")
    };
    assert_eq!(type_param_1.shape, r(STR));
    assert_eq!(type_param_2.shape, r(STRING));
}

#[test]
fn test_cow_vtable_borrow_and_promote_str() {
    let mut t = Types::new();
    let cow_ty = t.cow(STR, STRING);
    let plan = t.plan();
    let mut m = Memory::new(&plan);
    let Def::Pointer(cow_def) = plan.shapes.shapes[cow_ty].def else {
        panic!("Cow<'static, str> should have a smart pointer definition");
    };
    assert!(
        cow_def.vtable.new_into_fn.is_none(),
        "Cow's borrowed construction must not masquerade as an owned-pointee move"
    );
    assert!(cow_def.vtable.borrow_from_pointee_fn.is_some());
    assert!(cow_def.vtable.promote_to_owned_fn.is_some());
    assert!(cow_def.vtable.borrow_fn.is_some());

    let source = PtrConst { addr: Addr { buf: 60, offset: 0 } };
    m.put(source.addr, string("example"));
    let mut cow = cow_borrow_from_pointee(source);
    assert_eq!(cow, CowValue::Borrowed(source));
    assert_eq!(m.peek(STRING, cow_borrow(&cow).addr), string("example"));

    cow_promote_to_owned(&mut cow, r(STRING), 61, &mut m);
    assert!(matches!(cow, CowValue::Owned(_)));

    m.take(STRING, source.addr);
    assert_eq!(m.peek(STRING, cow_borrow(&cow).addr), string("example"));

    cow_drop_in_place(&plan.shapes, r(STRING), cow, &mut m);
    assert_eq!(m.dropped(STRING), 1, "promoted Cow should be droppable");
    assert_clean(&m);
}

#[test]
fn test_cow_vtable_promotion_preserves_other_clones_borrows() {
    let t = Types::new();
    let plan = t.plan();
    let mut m = Memory::new(&plan);
    let source = PtrConst { addr: Addr { buf: 60, offset: 0 } };
    m.put(source.addr, string("shared borrowed source"));

    let mut original = cow_borrow_from_pointee(source);
    let mut cloned = cow_clone_into(&original, r(STRING), 61, &mut m);

    cow_promote_to_owned(&mut original, r(STRING), 62, &mut m);
    assert!(matches!(original, CowValue::Owned(_)));
    assert_eq!(cloned, CowValue::Borrowed(source));
    assert_eq!(m.peek(STRING, cow_borrow(&cloned).addr), string("shared borrowed source"));

    cow_promote_to_owned(&mut cloned, r(STRING), 63, &mut m);
    m.take(STRING, source.addr);
    assert!(matches!(cloned, CowValue::Owned(_)));
    assert_eq!(
        m.peek(STRING, cow_borrow(&original).addr),
        m.peek(STRING, cow_borrow(&cloned).addr)
    );
}

#[test]
fn slice_that_is_given_up_frees_its_builder_once() {
    // A field holds the slice, so the frame does not own the memory of the pointer.
    let mut t = Types::new();
    let slice = t.slice(U8);
    let arc = t.pointer(slice, KnownPointer::Arc);
    let outer = t.strukt(&[("bytes", 0, arc)], 16);
    let plan = t.plan();
    let mut m = Memory::new(&plan);
    let mut p = start(&plan, outer, &mut m);
    p = begin_field(p, "bytes", &mut m).unwrap();
    p = p.begin_smart_ptr(&mut m).unwrap();
    p = push(p, 7, &mut m);
    p.cancel(&mut m);
    assert_eq!(m.dropped(U8), 1);
    assert_clean(&m);
}

#[test]
fn slice_of_the_root_that_is_given_up_frees_its_builder_once() {
    let mut t = Types::new();
    let slice = t.slice(U8);
    let arc = t.pointer(slice, KnownPointer::Arc);
    let plan = t.plan();
    for deferred in [false, true] {
        let mut m = Memory::new(&plan);
        let mut p = start(&plan, arc, &mut m);
        if deferred {
            p = p.begin_deferred(&mut m).unwrap();
        }
        p = p.begin_smart_ptr(&mut m).unwrap();
        p = push(p, 7, &mut m);
        p.cancel(&mut m);
        assert_eq!(m.dropped(U8), 1);
        assert_clean(&m);
    }
}

#[test]
fn slice_of_the_root_can_be_begun_again() {
    let mut t = Types::new();
    let slice = t.slice(U8);
    let arc = t.pointer(slice, KnownPointer::Arc);
    let plan = t.plan();
    let mut m = Memory::new(&plan);
    let mut p = start(&plan, arc, &mut m);
    p = p.begin_smart_ptr(&mut m).unwrap();
    p = push(p, 7, &mut m);
    // The first builder and its item go.
    p = p.begin_smart_ptr(&mut m).unwrap();
    assert_eq!(m.dropped(U8), 1);
    p = push(p, 8, &mut m);
    p = p.end(&mut m).unwrap();
    assert!(p.frames()[0].is_init);
    p.cancel(&mut m);
    assert_eq!(m.dropped(U8), 2);
    assert_clean(&m);
}

#[test]
fn slice_of_the_root_leaves_room_when_it_is_cleared() {
    let mut t = Types::new();
    let slice = t.slice(U8);
    let arc = t.pointer(slice, KnownPointer::Arc);
    let plan = t.plan();
    let mut m = Memory::new(&plan);
    let mut p = start(&plan, arc, &mut m);
    p = p.begin_smart_ptr(&mut m).unwrap();
    assert!(p.prepare_for_reinitialization(&mut m));
    assert!(!p.prepare_for_reinitialization(&mut m));
    p.cancel(&mut m);
    assert_clean(&m);
}

#[test]
fn slice_in_a_field_is_written_into_the_field() {
    let mut t = Types::new();
    let slice = t.slice(U8);
    let arc = t.pointer(slice, KnownPointer::Arc);
    let outer = t.strukt(&[("first", 0, U32), ("bytes", 8, arc)], 24);
    for deferred in [false, true] {
        let mut t2 = Types::new();
        let slice2 = t2.slice(U8);
        let arc2 = t2.pointer(slice2, KnownPointer::Arc);
        let outer2 = t2.strukt(&[("first", 0, U32), ("bytes", 8, arc2)], 24);
        assert_eq!((slice, arc, outer), (slice2, arc2, outer2));
        let plan = t2.plan();
        let mut m = Memory::new(&plan);
        let mut p = start(&plan, outer, &mut m);
        if deferred {
            p = p.begin_deferred(&mut m).unwrap();
        }
        p = begin_field(p, "bytes", &mut m).unwrap();
        p = p.begin_smart_ptr(&mut m).unwrap();
        p = push(p, 5, &mut m);
        p = push(p, 6, &mut m);
        p = p.end(&mut m).unwrap();
        assert_eq!(p.frame_count(), 2, "the items ended, and not the field");
        p = p.end(&mut m).unwrap();
        assert_eq!(p.frame_count(), 1);
        p = begin_field(p, "first", &mut m).unwrap();
        p = set(p, Blob::one(U32, Val::U32(1)), &mut m);
        p = p.end(&mut m).unwrap();
        if deferred {
            p = p.finish_deferred(&mut m).unwrap();
        }
        let built = build(p, &mut m).unwrap();
        assert_eq!(built.cells.get(&0), Some(&Val::U32(1)));
        assert_eq!(bytes(&Blob { shape: arc, cells: BTreeMap::from([(0, built.cells[&8].clone())]) }), vec![5, 6]);
        assert_clean(&m);
    }
}

#[test]
fn deferred_fields_may_be_interleaved() {
    let mut t = Types::new();
    let inner_ty = t.strukt(&[("x", 0, U32), ("y", 4, U32)], 8);
    let boxed = t.pointer(inner_ty, KnownPointer::Box);
    let outer = t.strukt(&[("inner", 0, boxed), ("count", 8, U32)], 16);
    let plan = t.plan();
    let mut m = Memory::new(&plan);
    let mut p = start(&plan, outer, &mut m);
    p = p.begin_deferred(&mut m).unwrap();
    p = begin_field(p, "inner", &mut m).unwrap();
    p = p.begin_smart_ptr(&mut m).unwrap();
    p = begin_field(p, "x", &mut m).unwrap();
    p = set(p, Blob::one(U32, Val::U32(1)), &mut m);
    p = p.end(&mut m).unwrap();
    // Leave the pointee incomplete, and come back to it.
    p = p.end(&mut m).unwrap();
    p = p.begin_smart_ptr(&mut m).unwrap();
    p = begin_field(p, "y", &mut m).unwrap();
    p = set(p, Blob::one(U32, Val::U32(3)), &mut m);
    p = p.end(&mut m).unwrap();
    p = p.end(&mut m).unwrap();
    p = p.end(&mut m).unwrap();
    p = begin_field(p, "count", &mut m).unwrap();
    p = set(p, Blob::one(U32, Val::U32(2)), &mut m);
    p = p.end(&mut m).unwrap();
    p = p.finish_deferred(&mut m).unwrap();
    assert!(!p.is_deferred());
    let built = build(p, &mut m).unwrap();
    let pointee =
        Blob { shape: inner_ty, cells: BTreeMap::from([(0, Val::U32(1)), (4, Val::U32(3))]) };
    assert_eq!(built.cells.get(&0), Some(&Val::Ptr(pointee)));
    assert_eq!(built.cells.get(&8), Some(&Val::U32(2)));
    assert_clean(&m);
}

#[test]
fn finishing_reports_the_missing_field_and_releases_everything() {
    let mut t = Types::new();
    let tracker = drop_tracker(&mut t);
    let inner_ty = t.strukt(&[("x", 0, tracker), ("y", 1, tracker)], 2);
    let boxed = t.pointer(inner_ty, KnownPointer::Box);
    let outer = t.strukt(&[("inner", 0, boxed), ("last", 8, tracker)], 16);
    let plan = t.plan();
    let mut m = Memory::new(&plan);
    let mut p = start(&plan, outer, &mut m);
    p = p.begin_deferred(&mut m).unwrap();
    p = begin_field(p, "last", &mut m).unwrap();
    p = set(p, tracker_value(tracker, 9), &mut m);
    p = p.end(&mut m).unwrap();
    p = begin_field(p, "inner", &mut m).unwrap();
    p = p.begin_smart_ptr(&mut m).unwrap();
    p = begin_field(p, "x", &mut m).unwrap();
    p = set(p, tracker_value(tracker, 1), &mut m);
    p = p.end(&mut m).unwrap();
    p = p.end(&mut m).unwrap();
    p = p.end(&mut m).unwrap();
    let err = match p.finish_deferred(&mut m) {
        Ok(_) => panic!("expected an error"),
        Err(e) => e,
    };
    match err.kind {
        ReflectErrorKind::UninitializedField { shape, field_name } => {
            assert_eq!(shape, r(inner_ty));
            assert_eq!(field_name, "y");
        }
        other => panic!("got: {other:?}"),
    }
    assert_eq!(m.dropped(tracker), 2, "each initialized field once");
    assert_clean(&m);
}

#[test]
fn struct_with_a_missing_field_does_not_end() {
    let mut t = Types::new();
    let inner_ty = t.strukt(&[("x", 0, U32), ("y", 4, U32)], 8);
    let boxed = t.pointer(inner_ty, KnownPointer::Box);
    let plan = t.plan();
    let mut m = Memory::new(&plan);
    let mut p = start(&plan, boxed, &mut m);
    p = p.begin_smart_ptr(&mut m).unwrap();
    p = begin_field(p, "y", &mut m).unwrap();
    p = set(p, Blob::one(U32, Val::U32(1)), &mut m);
    p = p.end(&mut m).unwrap();
    let err = match p.end(&mut m) {
        Ok(_) => panic!("expected an error"),
        Err(e) => e,
    };
    assert!(matches!(
        err.kind,
        ReflectErrorKind::UninitializedField { shape, field_name: "x" } if shape == r(inner_ty)
    ));
    assert_eq!(m.dropped(U32), 1);
    assert_clean(&m);
}

#[test]
fn root_frame_does_not_end() {
    let (plan, boxed) = pointer_to(U32, KnownPointer::Box);
    let mut m = Memory::new(&plan);
    let p = start(&plan, boxed, &mut m);
    assert_eq!(p.frame_count(), 1);
    let err = match p.end(&mut m) {
        Ok(_) => panic!("expected an error"),
        Err(e) => e,
    };
    assert!(matches!(
        err.kind,
        ReflectErrorKind::InvariantViolation {
            invariant: "Partial::end() called with only one frame on the stack"
        }
    ));
    assert_eq!(err.path.shape, r(boxed));
    assert_clean(&m);
}

#[test]
fn deferred_mode_keeps_the_frames_that_were_there() {
    let (plan, boxed) = pointer_to(U32, KnownPointer::Box);
    let mut m = Memory::new(&plan);
    let mut p = start(&plan, boxed, &mut m);
    p = p.begin_smart_ptr(&mut m).unwrap();
    p = p.begin_deferred(&mut m).unwrap();
    assert!(p.is_deferred());
    assert_eq!(p.start_depth(), Some(2));
    let err = match p.end(&mut m) {
        Ok(_) => panic!("expected an error"),
        Err(e) => e,
    };
    assert!(matches!(
        err.kind,
        ReflectErrorKind::InvariantViolation {
            invariant: "Partial::end() called but would pop below deferred start depth"
        }
    ));
    assert_clean(&m);
}

#[test]
fn deferred_mode_is_not_nested() {
    let (plan, boxed) = pointer_to(U32, KnownPointer::Box);
    let mut m = Memory::new(&plan);
    let p = start(&plan, boxed, &mut m).begin_deferred(&mut m).unwrap();
    let err = match p.begin_deferred(&mut m) {
        Ok(_) => panic!("expected an error"),
        Err(e) => e,
    };
    assert!(matches!(
        err.kind,
        ReflectErrorKind::InvariantViolation {
            invariant: "begin_deferred() called but already in deferred mode"
        }
    ));
    let p = start(&plan, boxed, &mut m);
    let err = match p.finish_deferred(&mut m) {
        Ok(_) => panic!("expected an error"),
        Err(e) => e,
    };
    assert!(matches!(
        err.kind,
        ReflectErrorKind::InvariantViolation {
            invariant: "finish_deferred() called but deferred mode is not enabled"
        }
    ));
    assert_clean(&m);
}

#[test]
fn only_pointers_have_a_pointee() {
    let t = Types::new();
    let plan = t.plan();
    let mut m = Memory::new(&plan);
    let p = start(&plan, U32, &mut m);
    let err = match p.begin_smart_ptr(&mut m) {
        Ok(_) => panic!("expected an error"),
        Err(e) => e,
    };
    assert!(matches!(
        err.kind,
        ReflectErrorKind::OperationFailed {
            shape,
            operation: "push_smart_ptr can only be called on compatible types"
        } if shape == r(U32)
    ));
    assert_clean(&m);
}

#[test]
fn reselecting_a_variant_keeps_its_fields() {
    let mut t = Types::new();
    let tracker = drop_tracker(&mut t);
    let enum_ty = drop_tracker_enum(&mut t, tracker);
    let plan = t.plan();
    let mut m = Memory::new(&plan);
    let mut p = start(&plan, enum_ty, &mut m);
    p = select_variant_named(p, "Pair", &mut m);
    p = begin_field(p, "first", &mut m).unwrap();
    p = set(p, tracker_value(tracker, 1), &mut m);
    p = p.end(&mut m).unwrap();
    p = select_variant_named(p, "Pair", &mut m);
    match &top(&mut p).tracker {
        Tracker::Enum { variant_idx, data, current_child } => {
            assert_eq!(*variant_idx, 2);
            assert!(data.get(0));
            assert!(!data.get(1));
            assert_eq!(*current_child, None);
        }
        other => panic!("{other:?}"),
    }
    p = begin_field(p, "second", &mut m).unwrap();
    p = set(p, tracker_value(tracker, 2), &mut m);
    p = p.end(&mut m).unwrap();
    let built = build(p, &mut m).unwrap();
    assert_eq!(
        built.cells,
        BTreeMap::from([(0, Val::Tag(2)), (1, Val::U8(1)), (2, Val::U8(2))])
    );
    assert_clean(&m);
}

#[test]
fn field_is_the_parents_again_after_it_ended() {
    let mut t = Types::new();
    let (_, _, outer_ty) = outer(&mut t, false);
    let plan = t.plan();
    let mut m = Memory::new(&plan);
    let mut p = start(&plan, outer_ty, &mut m);
    p = begin_field(p, "inner", &mut m).unwrap();
    p = begin_field(p, "value", &mut m).unwrap();
    p = set(p, Blob::one(I32, Val::I32(3)), &mut m);
    match &p.frames()[1].tracker {
        Tracker::Struct { iset, current_child } => {
            assert!(!iset.get(0), "the frame is responsible, and not the parent");
            assert_eq!(*current_child, Some(0));
        }
        other => panic!("{other:?}"),
    }
    p = p.end(&mut m).unwrap();
    match &p.frames()[1].tracker {
        Tracker::Struct { iset, current_child } => {
            assert!(iset.get(0));
            assert_eq!(*current_child, None);
        }
        other => panic!("{other:?}"),
    }
    p.cancel(&mut m);
    assert_eq!(m.dropped(I32), 1);
    assert_clean(&m);
}

#[test]
fn paths_lead_from_the_root() {
    let mut t = Types::new();
    let (_, _, outer_ty) = outer(&mut t, true);
    let plan = t.plan();
    let mut m = Memory::new(&plan);
    let mut p = start(&plan, outer_ty, &mut m).begin_deferred(&mut m).unwrap();
    p = begin_field(p, "inner", &mut m).unwrap();
    p = p.begin_smart_ptr(&mut m).unwrap();
    p = begin_field(p, "value", &mut m).unwrap();
    let derived = p.current_path().unwrap();
    assert_eq!(
        derived.steps,
        vec![PathStep::Field(0), PathStep::Deref, PathStep::Field(0)]
    );
    assert_eq!(derived.shape, r(outer_ty));
    // Errors show structure only: the pointer is an opaque type.
    assert_eq!(p.path().steps, vec![PathStep::Field(0), PathStep::Field(0)]);
    assert_eq!(p.root_shape(), r(outer_ty));
    assert_eq!(p.shape(), r(I32));
    assert_eq!(p.parent_field().unwrap().name, "value");
    assert!(p.current_field().is_none());
    assert_eq!(p.nearest_field().unwrap().name, "value");
    p.cancel(&mut m);
    assert_clean(&m);
}
