//! Single steps: what is done to memory, and what comes back.
use partial_build::cow::{
    cow_cmp, cow_debug, cow_default_in_place, cow_display, cow_partial_cmp, cow_partial_eq, cow_shape,
    cow_truthy, cow_type_name, CowFunctions, CowValue, InnerCall, InnerPairCall,
};
use partial_build::deferred::{cleanup_stored_frames_on_error, clear_parent_iset_for_path};
use partial_build::error::{Message, ReflectErrorKind, TryFromError};
use partial_build::frame::{AllocatedShape, Frame, FrameOwnership, PendingSmartPointerInner};
use partial_build::iset::ISet;
use partial_build::memory::{
    Addr, ConvertCall, FnRef, Host, HostView, MemOp, PtrConst, PtrMut, PtrUninit, Recorder, Tag,
    TryFromCall, TryFromOutcome, ValidateCall,
};
use partial_build::partial::{FrameMode, Partial, PartialState};
use partial_build::path::{Path, PathStep};
use partial_build::plan::{
    DeserStrategy, EnumPlan, FieldDefault, FieldPlan, FillRule, NodeId, ProxyNodes, SliceRange, StructPlan,
    TypePlanCore, TypePlanNode, TypePlanNodeKind, VariantPlanMeta,
};
use partial_build::pointer::{
    KnownPointer, LockGuardVTable, LockResult, PointerDef, PointerFlags, PointerVTable,
    SliceBuilderVTable, POINTER_ATOMIC, POINTER_LOCK, POINTER_WEAK,
};
use partial_build::pool::{place_of, Place};
use partial_build::rope::ListRope;
use partial_build::shape::{
    ArrayType, Def, DefaultSource, DynamicDef, EnumRepr, EnumType, Field, Layout, ListDef, MapDef,
    OptionDef, ProxyDef, ResultDef, SequenceType, SetDef, Shape, ShapeLayout, ShapeRef, ShapeTable,
    StructType, Type, TypeOps, TypeParam, UserType, VTableErased, ValueVTable, Variance, VarianceDep,
    VarianceDesc, Variant,
};
use partial_build::stored::StoredFrames;
use partial_build::tracker::{
    DynamicObjectInsertState, DynamicValueState, MapInsertState, Tracker, TrackerKind,
};

type P<'a> = Partial<'a, false>;

fn r(id: usize) -> ShapeRef {
    ShapeRef { id }
}

fn f(id: usize) -> FnRef {
    FnRef { id }
}

fn at(buf: u64, offset: usize) -> Addr {
    Addr { buf, offset }
}

fn ptr(buf: u64, offset: usize) -> PtrUninit {
    PtrUninit { addr: at(buf, offset) }
}

fn layout(size: usize) -> Layout {
    Layout { size, align: 8 }
}

fn shape(ty: Type, def: Def, size: Option<usize>) -> Shape {
    Shape {
        ty,
        def,
        layout: match size {
            Some(s) => ShapeLayout::Sized(layout(s)),
            None => ShapeLayout::Unsized,
        },
        inner: None,
        builder_shape: None,
        type_params: Vec::new(),
        variance: VarianceDesc { base: Variance::Bivariant, deps: Vec::new() },
        vtable: VTableErased::Direct(ValueVTable::empty()),
        type_ops: TypeOps { drop_in_place: true, default_in_place: false, is_truthy: None },
        default_attr: false,
    }
}

fn field(name: &'static str, offset: usize, s: usize) -> Field {
    Field { name, offset, shape: r(s), default: None, proxy: None }
}

fn pointer_def(pointee: Option<usize>, known: Option<KnownPointer>) -> PointerDef {
    PointerDef {
        vtable: PointerVTable::new(),
        pointee: pointee.map(r),
        weak: None,
        strong: None,
        flags: PointerFlags { bits: 0 },
        known,
    }
}

const STR: usize = 0;
const STRING: usize = 1;
const UNIT: usize = 2;
const NUM: usize = 3;
const PAIR: usize = 4;
const CHOICE: usize = 5;
const ARRAY: usize = 6;
const LIST: usize = 7;
const TABLE: usize = 8;
const GROUP: usize = 9;
const MAYBE: usize = 10;
const OUTCOME: usize = 11;
const DYNAMIC: usize = 12;
const WRAPPER: usize = 13;
const ARC: usize = 14;
const UNSIZED: usize = 15;
const PLAIN: usize = 16;

fn shapes() -> Vec<Shape> {
    let user = || Type::User(UserType::Opaque);
    let mut wrapper = shape(user(), Def::Undefined, Some(8));
    wrapper.inner = Some(r(NUM));
    wrapper.vtable =
        VTableErased::Indirect(ValueVTable { try_from: Some(f(90)), ..ValueVTable::empty() });
    let mut arc = pointer_def(Some(NUM), Some(KnownPointer::Arc));
    arc.vtable.new_into_fn = Some(f(80));
    arc.vtable.slice_builder_vtable = Some(SliceBuilderVTable::new(f(1), f(2), f(3), f(4)));
    let mut plain = shape(Type::Primitive, Def::Scalar, Some(4));
    plain.type_ops.drop_in_place = false;
    vec![
        shape(Type::Primitive, Def::Scalar, None),
        shape(user(), Def::Scalar, Some(24)),
        shape(Type::User(UserType::Struct(StructType { fields: vec![] })), Def::Undefined, Some(0)),
        shape(Type::Primitive, Def::Scalar, Some(4)),
        shape(
            Type::User(UserType::Struct(StructType {
                fields: vec![field("a", 0, NUM), field("b", 4, NUM)],
            })),
            Def::Undefined,
            Some(8),
        ),
        shape(
            Type::User(UserType::Enum(EnumType {
                enum_repr: EnumRepr::U8,
                variants: vec![
                    Variant { name: "None", discriminant: Some(0), fields: vec![] },
                    Variant {
                        name: "Two",
                        discriminant: Some(-1),
                        fields: vec![field("x", 4, NUM), field("y", 8, NUM)],
                    },
                    Variant { name: "Lost", discriminant: None, fields: vec![] },
                ],
            })),
            Def::Undefined,
            Some(12),
        ),
        shape(
            Type::Sequence(SequenceType::Array(ArrayType { t: r(NUM), n: 3 })),
            Def::Undefined,
            Some(12),
        ),
        shape(
            user(),
            Def::List(ListDef { t: r(NUM), push: Some(f(70)), reserve: Some(f(71)) }),
            Some(24),
        ),
        shape(user(), Def::MapOf(MapDef { k: r(STRING), v: r(NUM), insert: f(72) }), Some(48)),
        shape(user(), Def::SetOf(SetDef { t: r(NUM), insert: f(73) }), Some(48)),
        shape(user(), Def::Option(OptionDef { t: r(NUM), init_some: f(74) }), Some(8)),
        shape(user(), Def::Result(ResultDef { init_ok: f(75), init_err: f(76) }), Some(8)),
        shape(
            user(),
            Def::DynamicValue(DynamicDef {
                set_null: f(77),
                push_array_element: f(78),
                insert_object_entry: f(79),
            }),
            Some(16),
        ),
        wrapper,
        shape(user(), Def::Pointer(arc), Some(8)),
        shape(Type::Unknown, Def::Undefined, None),
        plain,
    ]
}

fn plan_of(shapes: Vec<Shape>) -> TypePlanCore {
    let mut nodes = Vec::new();
    let mut field_plans = Vec::new();
    let mut variant_plans = Vec::new();
    for (i, s) in shapes.iter().enumerate() {
        let kind = match (&s.ty, &s.def) {
            (_, Def::Pointer(p)) => TypePlanNodeKind::Pointer {
                pointee: p.pointee.map(|x| NodeId { index: if x.id == STR { STRING } else { x.id } }),
            },
            (Type::User(UserType::Struct(st)), _) => {
                let start = field_plans.len();
                for (index, x) in st.fields.iter().enumerate() {
                    field_plans.push(required(index, x.offset, x.name));
                }
                TypePlanNodeKind::Struct(StructPlan {
                    fields: SliceRange { start, len: st.fields.len() },
                })
            }
            (Type::User(UserType::Enum(e)), _) => {
                let first = variant_plans.len();
                for v in e.variants.iter() {
                    let start = field_plans.len();
                    for (index, x) in v.fields.iter().enumerate() {
                        field_plans.push(required(index, x.offset, x.name));
                    }
                    variant_plans.push(VariantPlanMeta {
                        fields: SliceRange { start, len: v.fields.len() },
                    });
                }
                TypePlanNodeKind::Enum(EnumPlan {
                    variants: SliceRange { start: first, len: e.variants.len() },
                })
            }
            _ => TypePlanNodeKind::Unknown,
        };
        nodes.push(TypePlanNode {
            shape: r(i),
            kind,
            strategy: DeserStrategy { code: i as u32 },
            proxies: ProxyNodes { any_format: None },
        });
    }
    TypePlanCore {
        shapes: ShapeTable {
            shapes,
            str_shape: r(STR),
            string_shape: r(STRING),
            unit_shape: r(UNIT),
        },
        nodes,
        field_plans,
        variant_plans,
        validator_fns: vec![f(60), f(61)],
    }
}

fn required(index: usize, offset: usize, name: &'static str) -> FieldPlan {
    FieldPlan {
        index,
        offset,
        name,
        fill_rule: FillRule::Required,
        validators: SliceRange { start: 0, len: 0 },
    }
}

fn plan() -> TypePlanCore {
    plan_of(shapes())
}

fn frame(plan: &TypePlanCore, s: usize, buf: u64, ownership: FrameOwnership) -> Frame {
    let size = match plan.shapes.shapes[s].layout {
        ShapeLayout::Sized(l) => l.size,
        ShapeLayout::Unsized => 0,
    };
    Frame::new(
        &plan.shapes,
        ptr(buf, 0),
        AllocatedShape::new(r(s), size),
        ownership,
        NodeId { index: s },
    )
}

fn iset(members: &[usize]) -> ISet {
    let mut s = ISet::new();
    for m in members {
        s.set(*m);
    }
    s
}

fn drop_op(s: usize, a: Addr) -> MemOp {
    MemOp::DropInPlace { shape: r(s), at: a }
}

fn dealloc_op(a: Addr, size: usize) -> MemOp {
    MemOp::Dealloc { at: a, layout: layout(size) }
}

/// A host that answers its hooks as it was told to.
struct Script {
    ops: Vec<MemOp>,
    try_from: Vec<TryFromOutcome>,
    convert_in: Vec<Result<Addr, String>>,
    validate: Vec<Result<(), String>>,
}

impl Script {
    fn new() -> Script {
        Script { ops: vec![], try_from: vec![], convert_in: vec![], validate: vec![] }
    }
}

impl Host for Script {
    fn view(&self) -> HostView {
        unreachable!("only contracts look at this")
    }
    fn act(&mut self, op: MemOp) {
        self.ops.push(op);
    }
    fn try_from(&mut self, call: TryFromCall) -> TryFromOutcome {
        self.ops.push(MemOp::TryFrom { call });
        self.try_from.remove(0)
    }
    fn convert_in(&mut self, call: ConvertCall) -> Result<Addr, String> {
        self.ops.push(MemOp::ConvertIn { call });
        self.convert_in.remove(0)
    }
    fn validate(&mut self, call: ValidateCall) -> Result<(), String> {
        self.ops.push(MemOp::Validate { call });
        self.validate.remove(0)
    }
}

/// A value with these frames.
fn stack<'a>(plan: &'a TypePlanCore, frames: Vec<Frame>) -> P<'a> {
    Partial {
        mode: FrameMode::Strict { stack: frames },
        state: PartialState::Active,
        root_plan: plan,
        next_buffer: 100,
    }
}

fn failed(s: usize, operation: &'static str) -> ReflectErrorKind {
    ReflectErrorKind::OperationFailed { shape: r(s), operation }
}

fn broken(invariant: &'static str) -> ReflectErrorKind {
    ReflectErrorKind::InvariantViolation { invariant }
}

fn end_error(p: P, h: &mut Script) -> ReflectErrorKind {
    match p.end(h) {
        Ok(_) => panic!("expected an error"),
        Err(e) => e.kind,
    }
}

// ---------------------------------------------------------------------------------------------
// Pointers

#[test]
fn pointers_are_constructible_in_three_ways() {
    let mut d = pointer_def(Some(NUM), None);
    assert!(!d.constructible_from_pointee());
    d.vtable.borrow_from_pointee_fn = Some(f(1));
    assert!(!d.constructible_from_pointee(), "a borrow alone does not own");
    d.vtable.promote_to_owned_fn = Some(f(2));
    assert!(d.constructible_from_pointee());
    let mut d = pointer_def(Some(NUM), Some(KnownPointer::Cow));
    assert!(!d.constructible_from_pointee());
    d.vtable.new_into_fn = Some(f(3));
    assert!(d.constructible_from_pointee());
    for known in [KnownPointer::Box, KnownPointer::Rc, KnownPointer::Arc] {
        assert!(pointer_def(None, Some(known)).constructible_from_pointee());
    }
    for known in [KnownPointer::RcWeak, KnownPointer::Mutex, KnownPointer::SharedReference] {
        assert!(!pointer_def(None, Some(known)).constructible_from_pointee());
    }
}

#[test]
fn pointer_definitions_name_related_shapes() {
    let mut d = pointer_def(Some(NUM), None);
    d.weak = Some(r(8));
    d.strong = Some(r(9));
    assert_eq!(d.pointee(), Some(r(NUM)));
    assert_eq!(d.weak(), Some(r(8)));
    assert_eq!(d.strong(), Some(r(9)));
    assert_eq!((POINTER_WEAK, POINTER_ATOMIC, POINTER_LOCK), (1, 2, 4));
}

#[test]
fn pointer_tables_start_out_empty() {
    for t in [PointerVTable::new(), PointerVTable::default()] {
        assert!(t.upgrade_into_fn.is_none());
        assert!(t.downgrade_into_fn.is_none());
        assert!(t.borrow_fn.is_none());
        assert!(t.new_into_fn.is_none());
        assert!(t.borrow_from_pointee_fn.is_none());
        assert!(t.promote_to_owned_fn.is_none());
        assert!(t.lock_fn.is_none());
        assert!(t.read_fn.is_none());
        assert!(t.write_fn.is_none());
        assert!(t.slice_builder_vtable.is_none());
    }
    let s = SliceBuilderVTable::new(f(1), f(2), f(3), f(4));
    assert_eq!((s.new_fn, s.push_fn, s.convert_fn, s.free_fn), (f(1), f(2), f(3), f(4)));
}

#[test]
fn releasing_a_lock_drops_its_guard_once() {
    let mut h = Recorder::new(true);
    let lock = LockResult::new(
        PtrMut { addr: at(1, 8) },
        PtrConst { addr: at(2, 0) },
        LockGuardVTable { drop_in_place: f(5) },
    );
    assert_eq!(lock.data().addr, at(1, 8));
    assert_eq!(lock.data_const(), PtrConst { addr: at(1, 8) });
    lock.release(&mut h);
    assert_eq!(h.ops, vec![MemOp::DropGuard { f: f(5), guard: at(2, 0) }]);
}

// ---------------------------------------------------------------------------------------------
// Sets of fields, paths, stored frames, ropes

#[test]
fn field_sets_know_what_is_missing() {
    let mut s = ISet::new();
    assert!(s.all_set(0));
    assert!(s.none_set(3));
    assert_eq!(s.first_unset(2), Some(0));
    s.set(0);
    s.set(2);
    assert!(s.get(2) && !s.get(1) && !s.get(70));
    assert_eq!(s.first_unset(3), Some(1));
    let copy = s.duplicate();
    s.set(1);
    assert!(s.all_set(3) && !s.all_set(4));
    assert_eq!(s.first_unset(3), None);
    assert!(!copy.all_set(3));
    s.unset(0);
    s.unset(50);
    assert!(!s.get(0) && s.get(1));
    s.set_all(2);
    assert!(s.get(0) && s.get(1) && !s.get(2));
}

fn path(steps: &[PathStep]) -> Path {
    let mut p = Path::new(r(PAIR));
    for s in steps {
        p.push(*s);
    }
    p
}

#[test]
fn paths_are_ordered_step_by_step() {
    use_paths(&[
        path(&[]),
        path(&[PathStep::Field(0)]),
        path(&[PathStep::Field(0), PathStep::Index(0)]),
        path(&[PathStep::Field(0), PathStep::Index(1)]),
        path(&[PathStep::Field(1)]),
        path(&[PathStep::Index(0)]),
        path(&[PathStep::Deref]),
        path(&[PathStep::Inner]),
    ]);
}

fn use_paths(ps: &[Path]) {
    for i in 0..ps.len() {
        for j in 0..ps.len() {
            assert_eq!(ps[i].is_before(&ps[j]), i < j, "{i} {j}");
            assert_eq!(ps[i].same(&ps[j]), i == j);
        }
    }
    assert!(ps[2].is_below(&ps[1]) && ps[2].is_below(&ps[0]));
    assert!(!ps[1].is_below(&ps[1]) && !ps[4].is_below(&ps[1]));
    assert!(ps[2].parent().same(&ps[1]));
    assert!(ps[0].parent().same(&ps[0]));
    assert_eq!(ps[3].last(), Some(PathStep::Index(1)));
    assert_eq!(ps[0].last(), None);
    let other = Path::new(r(CHOICE));
    assert!(ps[5].is_before(&other) && !other.is_before(&ps[5]));
    assert!(ps[3].duplicate().same(&ps[3]));
    assert_eq!(ps[3].len(), 2);
}

#[test]
fn stored_frames_are_kept_by_path() {
    let plan = plan();
    let mut s = StoredFrames::new();
    let a = path(&[PathStep::Field(1)]);
    let b = path(&[PathStep::Field(0), PathStep::Deref]);
    let c = path(&[PathStep::Field(0)]);
    s.insert(a.duplicate(), frame(&plan, NUM, 1, FrameOwnership::Owned));
    s.insert(b.duplicate(), frame(&plan, NUM, 2, FrameOwnership::Owned));
    s.insert(c.duplicate(), frame(&plan, NUM, 3, FrameOwnership::Owned));
    assert_eq!(s.len(), 3);
    assert_eq!(s.find(&c), Some(0));
    assert_eq!(s.find(&b), Some(1));
    assert_eq!(s.find(&a), Some(2));
    assert_eq!(s.find(&path(&[])), None);
    assert_eq!(s.deepest(), 1);
    // The same path replaces the frame.
    s.insert(a.duplicate(), frame(&plan, NUM, 9, FrameOwnership::Owned));
    assert_eq!(s.len(), 3);
    assert_eq!(s.entries[2].frame.data, ptr(9, 0));
    let taken = s.remove_at(1);
    assert!(taken.path.same(&b));
    assert_eq!(s.deepest(), 0, "the first of equally deep frames");
}

#[test]
fn parents_are_found_in_store_or_on_stack() {
    let plan = plan();
    let mut stored = StoredFrames::new();
    let mut frames = vec![
        frame(&plan, PAIR, 1, FrameOwnership::Owned),
        frame(&plan, PAIR, 2, FrameOwnership::Owned),
    ];
    frames[1].tracker = Tracker::Struct { iset: iset(&[0, 1]), current_child: None };
    let p = path(&[PathStep::Field(0)]);
    assert_eq!(place_of(&stored, &frames, &p), Place::Stack(1));
    assert_eq!(place_of(&stored, &frames, &path(&[PathStep::Deref, PathStep::Deref])), Place::Nowhere);
    clear_parent_iset_for_path(&path(&[PathStep::Field(0), PathStep::Field(1)]), &mut frames, &mut stored);
    assert!(matches!(&frames[1].tracker, Tracker::Struct { iset, .. } if iset.get(0) && !iset.get(1)));
    let mut parent = frame(&plan, PAIR, 3, FrameOwnership::Owned);
    parent.tracker = Tracker::Struct { iset: iset(&[0, 1]), current_child: None };
    stored.insert(p.duplicate(), parent);
    assert_eq!(place_of(&stored, &frames, &p), Place::Stored(0));
    clear_parent_iset_for_path(&path(&[PathStep::Field(0), PathStep::Field(0)]), &mut frames, &mut stored);
    assert!(matches!(&stored.entries[0].frame.tracker, Tracker::Struct { iset, .. } if !iset.get(0)));
    assert!(matches!(&frames[1].tracker, Tracker::Struct { iset, .. } if iset.get(0)));
}

#[test]
fn cleaning_up_takes_children_from_their_parents_first() {
    let plan = plan();
    let mut h = Recorder::new(true);
    let mut stored = StoredFrames::new();
    let mut frames = vec![frame(&plan, PAIR, 1, FrameOwnership::Owned)];
    let mut parent = frame(&plan, PAIR, 2, FrameOwnership::Owned);
    parent.tracker = Tracker::Struct { iset: iset(&[0, 1]), current_child: None };
    let mut child = frame(&plan, NUM, 2, FrameOwnership::Field { field_idx: 1 });
    child.data = ptr(2, 4);
    child.mark_as_init();
    stored.insert(path(&[PathStep::Deref]), parent);
    stored.insert(path(&[PathStep::Deref, PathStep::Field(1)]), child);
    cleanup_stored_frames_on_error(&mut stored, &mut frames, &plan, &mut h);
    assert_eq!(stored.len(), 0);
    assert_eq!(
        h.ops,
        vec![drop_op(NUM, at(2, 4)), drop_op(NUM, at(2, 0)), dealloc_op(at(2, 0), 8)]
    );
}

// ---------------------------------------------------------------------------------------------
// Dropping

fn deinit_ops(plan: &TypePlanCore, mut fr: Frame) -> Vec<MemOp> {
    let mut h = Recorder::new(true);
    fr.deinit(&plan.shapes, &mut h);
    assert!(!fr.is_init);
    assert_eq!(fr.tracker.kind(), TrackerKind::Scalar);
    h.ops
}

#[test]
fn a_scalar_is_dropped_if_it_is_there() {
    let plan = plan();
    assert_eq!(deinit_ops(&plan, frame(&plan, NUM, 1, FrameOwnership::Owned)), vec![]);
    let mut fr = frame(&plan, NUM, 1, FrameOwnership::Owned);
    fr.mark_as_init();
    assert_eq!(deinit_ops(&plan, fr), vec![drop_op(NUM, at(1, 0))]);
    // A type without a destructor is left alone.
    let mut fr = frame(&plan, PLAIN, 1, FrameOwnership::Owned);
    fr.mark_as_init();
    assert_eq!(deinit_ops(&plan, fr), vec![]);
    // A struct without fields is there from the start.
    assert!(frame(&plan, UNIT, 1, FrameOwnership::Owned).is_init);
}

#[test]
fn parts_are_dropped_if_they_are_there() {
    let plan = plan();
    let mut fr = frame(&plan, ARRAY, 1, FrameOwnership::Owned);
    fr.tracker = Tracker::Array { iset: iset(&[0, 2]), current_child: None };
    assert_eq!(deinit_ops(&plan, fr), vec![drop_op(NUM, at(1, 0)), drop_op(NUM, at(1, 8))]);
    let mut fr = frame(&plan, PAIR, 1, FrameOwnership::Owned);
    fr.tracker = Tracker::Struct { iset: iset(&[1]), current_child: Some(0) };
    assert_eq!(deinit_ops(&plan, fr), vec![drop_op(NUM, at(1, 4))]);
    let mut fr = frame(&plan, PAIR, 1, FrameOwnership::Owned);
    fr.tracker = Tracker::Struct { iset: iset(&[0, 1]), current_child: None };
    assert_eq!(deinit_ops(&plan, fr), vec![drop_op(PAIR, at(1, 0))]);
    let enum_frame = || {
        let mut fr = frame(&plan, CHOICE, 1, FrameOwnership::Owned);
        fr.tracker = Tracker::Enum { variant_idx: 1, data: iset(&[0, 1]), current_child: None };
        fr
    };
    assert_eq!(
        deinit_ops(&plan, enum_frame()),
        vec![drop_op(NUM, at(1, 4)), drop_op(NUM, at(1, 8))]
    );
    let mut h = Recorder::new(true);
    enum_frame().deinit_for_cancellation(&plan.shapes, &mut h);
    assert_eq!(h.ops, vec![drop_op(CHOICE, at(1, 0))], "a complete enum runs its own destructor");
}

#[test]
fn what_waits_is_dropped_and_released() {
    let plan = plan();
    let mut fr = frame(&plan, TABLE, 1, FrameOwnership::Owned);
    fr.mark_as_init();
    fr.tracker = Tracker::MapOf {
        insert_state: MapInsertState::Idle,
        pending_entries: vec![(ptr(2, 0), Some(ptr(3, 0))), (ptr(4, 0), None)],
        current_entry_index: Some(1),
        building_key: false,
    };
    assert_eq!(
        deinit_ops(&plan, fr),
        vec![
            drop_op(TABLE, at(1, 0)),
            drop_op(STRING, at(2, 0)),
            dealloc_op(at(2, 0), 24),
            drop_op(NUM, at(3, 0)),
            dealloc_op(at(3, 0), 4),
            drop_op(STRING, at(4, 0)),
            dealloc_op(at(4, 0), 24),
        ]
    );
    let mut fr = frame(&plan, MAYBE, 1, FrameOwnership::Owned);
    fr.mark_as_init();
    fr.tracker = Tracker::Option { building_inner: false, pending_inner: Some(ptr(2, 0)) };
    assert_eq!(deinit_ops(&plan, fr), vec![drop_op(NUM, at(2, 0)), dealloc_op(at(2, 0), 4)]);
    let mut fr = frame(&plan, DYNAMIC, 1, FrameOwnership::Owned);
    fr.mark_as_init();
    fr.tracker = Tracker::DynamicValue {
        state: DynamicValueState::Object {
            insert_state: DynamicObjectInsertState::Idle,
            pending_entries: vec![("k".to_string(), ptr(2, 0))],
        },
    };
    assert_eq!(
        deinit_ops(&plan, fr),
        vec![drop_op(DYNAMIC, at(2, 0)), dealloc_op(at(2, 0), 16), drop_op(DYNAMIC, at(1, 0))]
    );
    let mut fr = frame(&plan, LIST, 1, FrameOwnership::Owned);
    fr.mark_as_init();
    fr.tracker = Tracker::List {
        current_child: None,
        rope: Some(ListRope { id: 6, slots: vec![ptr(2, 0), ptr(2, 4)], initialized: 1 }),
    };
    assert_eq!(
        deinit_ops(&plan, fr),
        vec![drop_op(NUM, at(2, 0)), MemOp::FreeRope { rope: 6 }, drop_op(LIST, at(1, 0))]
    );
}

#[test]
fn entries_of_existing_collections_are_left_alone() {
    let plan = plan();
    let mut fr = frame(&plan, NUM, 1, FrameOwnership::BorrowedInPlace);
    fr.mark_as_init();
    assert_eq!(deinit_ops(&plan, fr), vec![]);
    // ... unless another value takes their place.
    let mut h = Recorder::new(true);
    let mut fr = frame(&plan, NUM, 1, FrameOwnership::BorrowedInPlace);
    fr.mark_as_init();
    fr.deinit_for_replace(&plan.shapes, &mut h);
    assert_eq!(h.ops, vec![drop_op(NUM, at(1, 0))]);
    assert!(!fr.is_init);
    let mut h = Recorder::new(true);
    let mut fr = frame(&plan, DYNAMIC, 1, FrameOwnership::BorrowedInPlace);
    fr.mark_as_init();
    fr.deinit_for_replace(&plan.shapes, &mut h);
    assert_eq!(
        h.ops,
        vec![drop_op(DYNAMIC, at(1, 0)), MemOp::SetNull { f: f(77), at: at(1, 0) }]
    );
    assert!(fr.is_init, "the collection will drop the null value");
}

#[test]
fn only_owned_memory_is_released() {
    let plan = plan();
    for (ownership, releases) in [
        (FrameOwnership::Owned, true),
        (FrameOwnership::TrackedBuffer, true),
        (FrameOwnership::Field { field_idx: 0 }, false),
        (FrameOwnership::BorrowedInPlace, false),
        (FrameOwnership::External, false),
        (FrameOwnership::RopeSlot, false),
    ] {
        assert_eq!(ownership.needs_dealloc(), releases);
        let mut h = Recorder::new(true);
        frame(&plan, NUM, 1, ownership).dealloc(&plan.shapes, &mut h);
        let expected = if releases { vec![dealloc_op(at(1, 0), 4)] } else { vec![] };
        assert_eq!(h.ops, expected);
    }
    let mut h = Recorder::new(true);
    let mut empty = frame(&plan, UNIT, 1, FrameOwnership::Owned);
    empty.is_init = false;
    empty.dealloc(&plan.shapes, &mut h);
    assert_eq!(h.ops, vec![], "nothing was allocated for an empty value");
}

// ---------------------------------------------------------------------------------------------
// Defaults and completion

fn with_default(mut s: Vec<Shape>, which: usize) -> Vec<Shape> {
    s[which].type_ops.default_in_place = true;
    s
}

fn set_default(s: &mut Vec<Shape>, strukt: usize, i: usize, d: DefaultSource) {
    if let Type::User(UserType::Struct(st)) = &mut s[strukt].ty {
        st.fields[i].default = Some(d);
    }
}

#[test]
fn untouched_struct_takes_the_default_of_its_type() {
    let plan = plan_of(with_default(shapes(), PAIR));
    let mut h = Recorder::new(true);
    let mut fr = frame(&plan, PAIR, 1, FrameOwnership::Owned);
    assert_eq!(fr.fill_defaults(&plan.shapes, &mut h), Ok(()));
    assert!(fr.is_init);
    assert_eq!(h.ops, vec![MemOp::DefaultInPlace { shape: r(PAIR), at: at(1, 0) }]);
    // With a field set, the other field is on its own.
    let mut h = Recorder::new(true);
    let mut fr = frame(&plan, PAIR, 1, FrameOwnership::Owned);
    fr.tracker = Tracker::Struct { iset: iset(&[0]), current_child: None };
    assert_eq!(fr.fill_defaults(&plan.shapes, &mut h), Ok(()));
    assert_eq!(h.ops, vec![]);
    assert_eq!(
        fr.require_full_initialization(&plan.shapes, &mut h),
        Err(ReflectErrorKind::UninitializedField { shape: r(PAIR), field_name: "b" })
    );
}

#[test]
fn fields_take_their_own_defaults() {
    let mut s = shapes();
    set_default(&mut s, PAIR, 0, DefaultSource::Custom(f(50)));
    set_default(&mut s, PAIR, 1, DefaultSource::FromTrait);
    let plan = plan_of(with_default(s, NUM));
    let mut h = Recorder::new(true);
    let mut fr = frame(&plan, PAIR, 1, FrameOwnership::Owned);
    assert_eq!(fr.fill_defaults(&plan.shapes, &mut h), Ok(()));
    assert_eq!(
        h.ops,
        vec![
            MemOp::CallDefault { f: f(50), at: at(1, 0) },
            MemOp::DefaultInPlace { shape: r(NUM), at: at(1, 4) },
        ]
    );
    assert_eq!(fr.require_full_initialization(&plan.shapes, &mut h), Ok(()));
}

#[test]
fn default_that_a_type_does_not_have_is_an_error() {
    let mut s = shapes();
    set_default(&mut s, PAIR, 1, DefaultSource::Unknown);
    let plan = plan_of(s);
    let mut h = Recorder::new(true);
    let mut fr = frame(&plan, PAIR, 1, FrameOwnership::Owned);
    assert_eq!(
        fr.fill_defaults(&plan.shapes, &mut h),
        Err(ReflectErrorKind::DefaultAttrButNoDefaultImpl { shape: r(NUM) })
    );
}

#[test]
fn some_types_have_an_obvious_default() {
    for kind in [MAYBE, LIST, TABLE, GROUP, UNIT] {
        let plan = plan_of(with_default(shapes(), kind));
        let mut h = Recorder::new(true);
        let fld = field("x", 0, kind);
        assert!(Frame::try_init_field_default(&plan.shapes, &fld, ptr(1, 0), false, &mut h));
        assert_eq!(h.ops, vec![MemOp::DefaultInPlace { shape: r(kind), at: at(1, 0) }]);
    }
    // Others need to be asked for, by the field or by its container.
    let plan = plan_of(with_default(shapes(), NUM));
    let mut h = Recorder::new(true);
    let fld = field("x", 0, NUM);
    assert!(!Frame::try_init_field_default(&plan.shapes, &fld, ptr(1, 0), false, &mut h));
    assert!(Frame::try_init_field_default(&plan.shapes, &fld, ptr(1, 0), true, &mut h));
    assert_eq!(h.ops.len(), 1);
}

#[test]
fn variant_fields_take_defaults_too() {
    let mut s = shapes();
    s[CHOICE].default_attr = true;
    let plan = plan_of(with_default(s, NUM));
    let mut h = Recorder::new(true);
    let mut fr = frame(&plan, CHOICE, 1, FrameOwnership::Owned);
    fr.tracker = Tracker::Enum { variant_idx: 1, data: iset(&[0]), current_child: None };
    assert_eq!(fr.fill_defaults(&plan.shapes, &mut h), Ok(()));
    assert_eq!(h.ops, vec![MemOp::DefaultInPlace { shape: r(NUM), at: at(1, 8) }]);
    assert_eq!(fr.require_full_initialization(&plan.shapes, &mut h), Ok(()));
}

fn completion(plan: &TypePlanCore, fr: &mut Frame) -> (Result<(), ReflectErrorKind>, Vec<MemOp>) {
    let mut h = Recorder::new(true);
    let res = fr.require_full_initialization(&plan.shapes, &mut h);
    (res, h.ops)
}

#[test]
fn incomplete_values_are_reported() {
    let plan = plan();
    let uninit = |s: usize| Err(ReflectErrorKind::UninitializedValue { shape: r(s) });
    let cases: Vec<(usize, Tracker)> = vec![
        (NUM, Tracker::Scalar),
        (ARRAY, Tracker::Array { iset: iset(&[0, 1]), current_child: None }),
        (NUM, Tracker::Array { iset: iset(&[0, 1]), current_child: None }),
        (NUM, Tracker::Struct { iset: iset(&[0, 1]), current_child: None }),
        (ARC, Tracker::SmartPointer { building_inner: true, pending_inner: None }),
        (ARC, Tracker::SmartPointer { building_inner: false, pending_inner: None }),
        (LIST, Tracker::List { current_child: None, rope: None }),
        (GROUP, Tracker::SetOf { current_child: false }),
        (MAYBE, Tracker::Option { building_inner: true, pending_inner: None }),
        (OUTCOME, Tracker::Result { is_ok: true, building_inner: true }),
        (WRAPPER, Tracker::Inner { building_inner: true }),
        (DYNAMIC, Tracker::DynamicValue { state: DynamicValueState::Uninit }),
    ];
    for (s, tracker) in cases {
        let mut fr = frame(&plan, s, 1, FrameOwnership::Owned);
        fr.tracker = tracker;
        assert_eq!(completion(&plan, &mut fr), (uninit(s), vec![]));
    }
    let mut fr = frame(&plan, CHOICE, 1, FrameOwnership::Owned);
    fr.tracker = Tracker::Enum { variant_idx: 1, data: iset(&[1]), current_child: None };
    assert_eq!(
        completion(&plan, &mut fr).0,
        Err(ReflectErrorKind::UninitializedField { shape: r(CHOICE), field_name: "x" })
    );
    fr.tracker = Tracker::Enum { variant_idx: 0, data: iset(&[]), current_child: None };
    assert_eq!(completion(&plan, &mut fr).0, Ok(()), "a unit variant is always complete");
}

#[test]
fn rope_is_drained_into_its_list() {
    let plan = plan();
    let mut fr = frame(&plan, LIST, 1, FrameOwnership::Owned);
    fr.mark_as_init();
    fr.tracker = Tracker::List {
        current_child: None,
        rope: Some(ListRope { id: 5, slots: vec![ptr(2, 0), ptr(2, 4), ptr(2, 8)], initialized: 2 }),
    };
    let (res, ops) = completion(&plan, &mut fr);
    assert_eq!(res, Ok(()));
    assert_eq!(
        ops,
        vec![
            MemOp::ListReserve { f: f(71), list: at(1, 0), additional: 2 },
            MemOp::ListPush { f: f(70), list: at(1, 0), item: at(2, 0) },
            MemOp::ListPush { f: f(70), list: at(1, 0), item: at(2, 4) },
            MemOp::FreeRope { rope: 5 },
        ]
    );
    // Completing again does nothing.
    assert_eq!(completion(&plan, &mut fr), (Ok(()), vec![]));
}

#[test]
fn list_without_push_cannot_take_elements() {
    let mut s = shapes();
    s[LIST].def = Def::List(ListDef { t: r(NUM), push: None, reserve: None });
    let plan = plan_of(s);
    let mut fr = frame(&plan, LIST, 1, FrameOwnership::Owned);
    fr.mark_as_init();
    fr.tracker = Tracker::List {
        current_child: None,
        rope: Some(ListRope { id: 5, slots: vec![ptr(2, 0)], initialized: 1 }),
    };
    assert_eq!(
        completion(&plan, &mut fr).0,
        Err(failed(NUM, "List missing push function for rope drain"))
    );
}

#[test]
fn entries_go_into_their_map_in_order() {
    let plan = plan();
    let map = |entries| {
        let mut fr = frame(&plan, TABLE, 1, FrameOwnership::Owned);
        fr.mark_as_init();
        fr.tracker = Tracker::MapOf {
            insert_state: MapInsertState::Idle,
            pending_entries: entries,
            current_entry_index: Some(0),
            building_key: false,
        };
        fr
    };
    let mut fr = map(vec![(ptr(2, 0), Some(ptr(3, 0)))]);
    let (res, ops) = completion(&plan, &mut fr);
    assert_eq!(res, Ok(()));
    assert_eq!(
        ops,
        vec![
            MemOp::MapInsert { f: f(72), map: at(1, 0), key: at(2, 0), value: at(3, 0) },
            dealloc_op(at(2, 0), 24),
            dealloc_op(at(3, 0), 4),
        ]
    );
    let mut fr = map(vec![(ptr(2, 0), None)]);
    assert_eq!(
        completion(&plan, &mut fr).0,
        Err(broken("map pending_entries contains half-entry (key without value) at finalize"))
    );
}

#[test]
fn waiting_values_go_into_options_and_dynamic_values() {
    let plan = plan();
    let mut fr = frame(&plan, MAYBE, 1, FrameOwnership::Owned);
    fr.tracker = Tracker::Option { building_inner: false, pending_inner: Some(ptr(2, 0)) };
    let (res, ops) = completion(&plan, &mut fr);
    assert_eq!(res, Ok(()));
    assert_eq!(
        ops,
        vec![
            MemOp::InitSome { f: f(74), dst: at(1, 0), src: at(2, 0) },
            dealloc_op(at(2, 0), 4),
        ]
    );
    let mut fr = frame(&plan, DYNAMIC, 1, FrameOwnership::Owned);
    fr.tracker = Tracker::DynamicValue {
        state: DynamicValueState::Object {
            insert_state: DynamicObjectInsertState::Idle,
            pending_entries: vec![("k".to_string(), ptr(2, 0)), ("l".to_string(), ptr(3, 0))],
        },
    };
    let (res, ops) = completion(&plan, &mut fr);
    assert_eq!(res, Ok(()));
    let entry = |key: &str, buf| MemOp::InsertEntry {
        f: f(79),
        object: at(1, 0),
        key: key.to_string(),
        value: at(buf, 0),
    };
    assert_eq!(
        ops,
        vec![entry("k", 2), dealloc_op(at(2, 0), 16), entry("l", 3), dealloc_op(at(3, 0), 16)]
    );
    let mut fr = frame(&plan, DYNAMIC, 1, FrameOwnership::Owned);
    fr.tracker = Tracker::DynamicValue {
        state: DynamicValueState::Array {
            building_element: false,
            pending_elements: vec![ptr(2, 0)],
        },
    };
    assert_eq!(
        completion(&plan, &mut fr).1,
        vec![
            MemOp::PushElement { f: f(78), array: at(1, 0), item: at(2, 0) },
            dealloc_op(at(2, 0), 16),
        ]
    );
}

fn pending(s: usize, size: usize) -> PendingSmartPointerInner {
    PendingSmartPointerInner {
        data: ptr(2, 0),
        allocated: AllocatedShape::new(r(s), size),
        ownership: FrameOwnership::Owned,
    }
}

fn complete_pointer(def: PointerDef, inner: PendingSmartPointerInner) -> (Result<(), ReflectErrorKind>, Vec<MemOp>) {
    let plan = plan();
    let mut h = Recorder::new(true);
    let res = Frame::complete_pending_smart_pointer(
        &plan.shapes,
        r(ARC),
        def,
        ptr(1, 0),
        inner,
        &mut h,
    );
    (res, h.ops)
}

#[test]
fn pointers_take_waiting_values_in_three_ways() {
    let mut moved = pointer_def(Some(NUM), None);
    moved.vtable.new_into_fn = Some(f(1));
    assert_eq!(
        complete_pointer(moved, pending(NUM, 4)),
        (
            Ok(()),
            vec![
                MemOp::NewInto { f: f(1), dst: at(1, 0), src: at(2, 0) },
                dealloc_op(at(2, 0), 4)
            ]
        )
    );
    let mut promoted = pointer_def(Some(NUM), None);
    promoted.vtable.borrow_from_pointee_fn = Some(f(2));
    promoted.vtable.promote_to_owned_fn = Some(f(3));
    assert_eq!(
        complete_pointer(promoted, pending(NUM, 4)),
        (
            Ok(()),
            vec![
                MemOp::BorrowFromPointee { f: f(2), dst: at(1, 0), pointee: at(2, 0) },
                MemOp::PromoteToOwned { f: f(3), at: at(1, 0) },
                drop_op(NUM, at(2, 0)),
                dealloc_op(at(2, 0), 4),
            ]
        )
    );
    for kind in [KnownPointer::Box, KnownPointer::Arc, KnownPointer::Rc, KnownPointer::Cow] {
        assert_eq!(
            complete_pointer(pointer_def(Some(STR), Some(kind)), pending(STRING, 24)),
            (
                Ok(()),
                vec![
                    MemOp::StringInto { kind, dst: at(1, 0), src: at(2, 0) },
                    dealloc_op(at(2, 0), 24)
                ]
            )
        );
    }
}

#[test]
fn values_that_no_pointer_takes_are_dropped() {
    let gone = vec![drop_op(STRING, at(2, 0)), dealloc_op(at(2, 0), 24)];
    for (def, operation) in [
        (pointer_def(Some(STR), None), "SmartPointer<str> missing known pointer type"),
        (pointer_def(Some(STR), Some(KnownPointer::Pin)), "Unsupported SmartPointer<str> type"),
        (
            pointer_def(Some(NUM), Some(KnownPointer::Box)),
            "SmartPointer missing an owned construction capability and not a supported unsized type",
        ),
    ] {
        assert_eq!(
            complete_pointer(def, pending(STRING, 24)),
            (Err(failed(ARC, operation)), gone_copy(&gone))
        );
    }
    let plan = plan();
    let mut fr = frame(&plan, NUM, 1, FrameOwnership::Owned);
    fr.mark_as_init();
    fr.tracker =
        Tracker::SmartPointer { building_inner: false, pending_inner: Some(pending(STRING, 24)) };
    assert_eq!(
        completion(&plan, &mut fr),
        (Err(failed(NUM, "SmartPointer frame without SmartPointer definition")), gone)
    );
    assert!(!fr.is_init);
}

fn gone_copy(ops: &[MemOp]) -> Vec<MemOp> {
    ops.iter()
        .map(|op| match op {
            MemOp::DropInPlace { shape, at } => MemOp::DropInPlace { shape: *shape, at: *at },
            MemOp::Dealloc { at, layout } => MemOp::Dealloc { at: *at, layout: *layout },
            other => panic!("{other:?}"),
        })
        .collect()
}

#[test]
fn planned_fields_are_filled_and_validated() {
    let plan = plan_of(with_default(shapes(), NUM));
    let plans = vec![
        FieldPlan {
            fill_rule: FillRule::Defaultable(FieldDefault::Custom(f(51))),
            validators: SliceRange { start: 0, len: 2 },
            ..required(0, 0, "a")
        },
        FieldPlan {
            fill_rule: FillRule::Defaultable(FieldDefault::FromTrait(r(NUM))),
            ..required(1, 4, "b")
        },
    ];
    let check = |fun: usize| MemOp::Validate {
        call: ValidateCall { f: f(fun), at: at(1, 0), shape: r(PAIR) },
    };
    let mut h = Script::new();
    h.validate = vec![Ok(()), Ok(())];
    let mut fr = frame(&plan, PAIR, 1, FrameOwnership::Owned);
    assert_eq!(fr.fill_and_require_fields(&plans, 2, &plan, &mut h), Ok(()));
    assert_eq!(
        h.ops,
        vec![
            MemOp::CallDefault { f: f(51), at: at(1, 0) },
            check(60),
            check(61),
            MemOp::DefaultInPlace { shape: r(NUM), at: at(1, 4) },
        ]
    );
    // A refusal ends it.
    let mut h = Script::new();
    h.validate = vec![Err("too small".to_string())];
    let mut fr = frame(&plan, PAIR, 1, FrameOwnership::Owned);
    fr.tracker = Tracker::Struct { iset: iset(&[0, 1]), current_child: None };
    assert_eq!(
        fr.fill_and_require_fields(&plans, 2, &plan, &mut h),
        Err(ReflectErrorKind::ValidationFailed {
            shape: r(PAIR),
            field_name: "a",
            message: "too small".to_string()
        })
    );
    assert_eq!(h.ops, vec![check(60)]);
}

#[test]
fn planned_fields_may_be_required() {
    let plan = plan();
    let mut h = Script::new();
    let mut fr = frame(&plan, PAIR, 1, FrameOwnership::Owned);
    fr.tracker = Tracker::Struct { iset: iset(&[0]), current_child: None };
    let plans = vec![required(0, 0, "a"), required(1, 4, "b")];
    let missing = Err(ReflectErrorKind::UninitializedField { shape: r(PAIR), field_name: "b" });
    assert_eq!(fr.fill_and_require_fields(&plans, 2, &plan, &mut h), missing);
    let no_default = FieldPlan {
        fill_rule: FillRule::Defaultable(FieldDefault::FromTrait(r(NUM))),
        ..required(1, 4, "b")
    };
    let missing = Err(ReflectErrorKind::UninitializedField { shape: r(PAIR), field_name: "b" });
    assert_eq!(fr.fill_and_require_fields(&[no_default], 2, &plan, &mut h), missing);
    // A value that was set as a whole is complete.
    let mut fr = frame(&plan, PAIR, 1, FrameOwnership::Owned);
    fr.mark_as_init();
    assert_eq!(fr.fill_and_require_fields(&plans, 2, &plan, &mut h), Ok(()));
    assert_eq!(h.ops, vec![]);
}

// ---------------------------------------------------------------------------------------------
// Fields, elements and variants

#[test]
fn entering_parts_that_are_not_there() {
    let plan = plan();
    let t = &plan.shapes;
    let node = NodeId { index: NUM };
    let Type::User(UserType::Struct(pair)) = &t.shapes[PAIR].ty else { unreachable!() };
    let mut fr = frame(&plan, PAIR, 1, FrameOwnership::Owned);
    assert_eq!(
        P::begin_nth_struct_field(t, &mut fr, pair, 2, node).unwrap_err(),
        failed(PAIR, "field index out of bounds")
    );
    let Type::User(UserType::Enum(choice)) = &t.shapes[CHOICE].ty else { unreachable!() };
    let mut fr = frame(&plan, CHOICE, 1, FrameOwnership::Owned);
    assert_eq!(
        P::begin_nth_enum_field(t, &mut fr, &choice.variants[1], 2, node).unwrap_err(),
        failed(CHOICE, "enum field index out of bounds")
    );
    assert_eq!(
        P::begin_nth_enum_field(t, &mut fr, &choice.variants[1], 1, node).unwrap_err(),
        failed(CHOICE, "selecting a field on an enum requires selecting a variant first")
    );
    let mut fr = frame(&plan, ARRAY, 1, FrameOwnership::Owned);
    let three = ArrayType { t: r(NUM), n: 3 };
    let begin = |fr: &mut Frame, a, i| P::begin_nth_array_element(t, fr, a, i, node);
    assert_eq!(begin(&mut fr, three, 3).unwrap_err(), failed(ARRAY, "array index out of bounds"));
    assert_eq!(
        begin(&mut fr, ArrayType { t: r(NUM), n: 64 }, 3).unwrap_err(),
        failed(ARRAY, "arrays larger than 63 elements are not yet supported")
    );
    assert!(begin(&mut fr, ArrayType { t: r(NUM), n: 63 }, 62).is_ok());
    assert_eq!(
        begin(&mut fr, ArrayType { t: r(UNSIZED), n: 3 }, 1).unwrap_err(),
        ReflectErrorKind::Unsized {
            shape: r(UNSIZED),
            operation: "begin_nth_element, calculating array element offset"
        }
    );
    let mut fr = frame(&plan, ARRAY, 1, FrameOwnership::Owned);
    fr.mark_as_init();
    assert_eq!(
        begin(&mut fr, three, 1).unwrap_err(),
        failed(ARRAY, "unexpected tracker state: expected uninitialized Scalar or Array")
    );
}

#[test]
fn entering_a_part_takes_it_from_the_parent() {
    let plan = plan();
    let t = &plan.shapes;
    let node = NodeId { index: NUM };
    let Type::User(UserType::Struct(pair)) = &t.shapes[PAIR].ty else { unreachable!() };
    // All fields of a value that was set as a whole are there.
    let mut fr = frame(&plan, PAIR, 1, FrameOwnership::Owned);
    fr.mark_as_init();
    let child = P::begin_nth_struct_field(t, &mut fr, pair, 1, node).unwrap();
    assert!(child.is_init);
    assert_eq!(child.data, ptr(1, 4));
    assert_eq!(child.allocated, AllocatedShape::new(r(NUM), 4));
    assert_eq!(child.ownership, FrameOwnership::Field { field_idx: 1 });
    assert!(matches!(
        &fr.tracker,
        Tracker::Struct { iset, current_child: Some(1) } if iset.get(0) && !iset.get(1)
    ));
    let mut fr = frame(&plan, ARRAY, 1, FrameOwnership::Owned);
    fr.tracker = Tracker::Array { iset: iset(&[2]), current_child: None };
    let child = P::begin_nth_array_element(t, &mut fr, ArrayType { t: r(NUM), n: 3 }, 2, node).unwrap();
    assert!(child.is_init);
    assert_eq!(child.data, ptr(1, 8));
    assert!(matches!(
        &fr.tracker,
        Tracker::Array { iset, current_child: Some(2) } if !iset.get(2)
    ));
}

#[test]
fn only_structs_and_chosen_variants_have_fields() {
    let plan = plan();
    let fields = |s: usize, ty: Type| {
        let mut sh = shapes();
        if s == PLAIN {
            sh[PLAIN].ty = ty;
        }
        let plan = plan_of(sh);
        let p = stack(&plan, vec![frame(&plan, s, 1, FrameOwnership::Owned)]);
        match p.get_fields() {
            Ok(fields) => Ok(fields.len()),
            Err(e) => Err(e.kind),
        }
    };
    assert_eq!(fields(PAIR, Type::Unknown), Ok(2));
    for (ty, operation) in [
        (Type::Undefined, "shape type is undefined - shape was not properly configured"),
        (Type::Primitive, "cannot select a field from a primitive type"),
        (
            Type::Sequence(SequenceType::Slice(r(NUM))),
            "cannot select a field from a sequence type",
        ),
        (Type::User(UserType::Union), "cannot select a field from a union type"),
        (Type::User(UserType::Opaque), "opaque types cannot be reflected upon"),
        (Type::User(UserType::Unknown), "cannot select a field from this user type"),
        (Type::Pointer, "cannot select a field from a pointer type"),
        (Type::Unknown, "cannot select a field from this type"),
    ] {
        assert_eq!(fields(PLAIN, ty), Err(failed(PLAIN, operation)));
    }
    assert_eq!(
        fields(CHOICE, Type::Unknown),
        Err(failed(CHOICE, "must select variant before selecting enum fields"))
    );
    let mut fr = frame(&plan, CHOICE, 1, FrameOwnership::Owned);
    fr.tracker = Tracker::Enum { variant_idx: 1, data: iset(&[]), current_child: None };
    assert_eq!(stack(&plan, vec![fr]).get_fields().unwrap().len(), 2);
}

fn select(repr: EnumRepr, variant: usize) -> (Result<(), ReflectErrorKind>, Vec<MemOp>) {
    let mut s = shapes();
    if let Type::User(UserType::Enum(e)) = &mut s[CHOICE].ty {
        e.enum_repr = repr;
    }
    let plan = plan_of(s);
    let mut h = Recorder::new(true);
    let mut p = stack(&plan, vec![frame(&plan, CHOICE, 1, FrameOwnership::Owned)]);
    let res = p.select_variant_internal(variant, &mut h).map_err(|e| e.kind);
    (res, h.ops)
}

#[test]
fn discriminants_are_written_in_their_width() {
    for (repr, tag) in [
        (EnumRepr::U8, Tag::U8(255)),
        (EnumRepr::U16, Tag::U16(65535)),
        (EnumRepr::U32, Tag::U32(u32::MAX)),
        (EnumRepr::U64, Tag::U64(u64::MAX)),
        (EnumRepr::I8, Tag::I8(-1)),
        (EnumRepr::I16, Tag::I16(-1)),
        (EnumRepr::I32, Tag::I32(-1)),
        (EnumRepr::I64, Tag::I64(-1)),
        (EnumRepr::USize, Tag::USize(usize::MAX)),
        (EnumRepr::ISize, Tag::ISize(-1)),
    ] {
        assert_eq!(select(repr, 1), (Ok(()), vec![MemOp::WriteTag { at: at(1, 0), tag }]));
    }
}

#[test]
fn some_variants_cannot_be_chosen() {
    for (repr, variant, operation) in [
        (
            EnumRepr::Rust,
            1,
            "Rust enums with unspecified discriminant layout are not supported for incremental building",
        ),
        (EnumRepr::RustNPO, 1, "RustNPO enums are not supported for incremental building"),
        (EnumRepr::U8, 2, "trying to select an enum variant without a discriminant"),
    ] {
        assert_eq!(select(repr, variant), (Err(failed(CHOICE, operation)), vec![]));
    }
    let plan = plan();
    assert_eq!(
        frame(&plan, NUM, 1, FrameOwnership::Owned).get_enum_type(&plan.shapes).unwrap_err(),
        ReflectErrorKind::WasNotA { expected: "enum", actual: r(NUM) }
    );
    assert!(frame(&plan, CHOICE, 1, FrameOwnership::Owned).get_enum_type(&plan.shapes).is_ok());
}

// ---------------------------------------------------------------------------------------------
// Entering pointees

fn begin_error(def: PointerDef) -> ReflectErrorKind {
    let mut s = shapes();
    s.push(shape(Type::Sequence(SequenceType::Slice(r(NUM))), Def::Undefined, None));
    s[ARC].def = Def::Pointer(def);
    let plan = plan_of(s);
    let mut h = Script::new();
    let p = stack(&plan, vec![frame(&plan, ARC, 1, FrameOwnership::Owned)]);
    match p.begin_smart_ptr(&mut h) {
        Ok(_) => panic!("expected an error"),
        Err(e) => e.kind,
    }
}

#[test]
fn some_pointees_cannot_be_entered() {
    assert_eq!(
        begin_error(pointer_def(None, Some(KnownPointer::Arc))),
        failed(ARC, "Smart pointer must have a pointee shape")
    );
    assert_eq!(
        begin_error(pointer_def(Some(NUM), None)),
        failed(ARC, "push_smart_ptr can only be called on compatible types")
    );
    assert_eq!(
        begin_error(pointer_def(Some(UNSIZED), Some(KnownPointer::Arc))),
        failed(ARC, "push_smart_ptr can only be called on pointers to supported pointee types")
    );
    assert_eq!(
        begin_error(pointer_def(Some(PLAIN + 1), Some(KnownPointer::Arc))),
        failed(ARC, "smart pointer does not support slice building")
    );
}

#[test]
fn entering_a_pointee_allocates_it() {
    let plan = plan();
    let mut h = Script::new();
    let mut root = frame(&plan, ARC, 1, FrameOwnership::Owned);
    root.mark_as_init();
    let p = stack(&plan, vec![root]).begin_smart_ptr(&mut h).unwrap();
    // What the pointer held is dropped first.
    assert_eq!(
        h.ops,
        vec![drop_op(ARC, at(1, 0)), MemOp::Alloc { buf: 100, layout: layout(4) }]
    );
    assert_eq!(p.frame_count(), 2);
    assert_eq!(p.shape(), r(NUM));
    assert_eq!(p.next_buffer, 101);
    assert_eq!(p.data_ptr(), Some(PtrConst { addr: at(100, 0) }));
}

// ---------------------------------------------------------------------------------------------
// Ending

#[test]
fn wrapper_is_converted_from_its_inner_value() {
    let plan = plan();
    let frames = || {
        let mut outer = frame(&plan, WRAPPER, 1, FrameOwnership::Owned);
        outer.tracker = Tracker::Inner { building_inner: true };
        let mut inner = frame(&plan, NUM, 2, FrameOwnership::Owned);
        inner.mark_as_init();
        vec![outer, inner]
    };
    let call = || MemOp::TryFrom {
        call: TryFromCall { f: f(90), dst: at(1, 0), src_shape: r(NUM), src: at(2, 0) },
    };
    let mut h = Script::new();
    h.try_from = vec![TryFromOutcome::Converted];
    let p = stack(&plan, frames()).end(&mut h).unwrap();
    assert_eq!(h.ops, vec![call(), dealloc_op(at(2, 0), 4)]);
    assert!(p.frames()[0].is_init);
    assert_eq!(p.frames()[0].tracker.kind(), TrackerKind::Scalar);

    let refused = |inner| ReflectErrorKind::TryFromError {
        src_shape: r(NUM),
        dst_shape: r(WRAPPER),
        inner,
    };
    // A source that was not consumed is dropped.
    let mut h = Script::new();
    h.try_from = vec![TryFromOutcome::Unsupported];
    let e = end_error(stack(&plan, frames()), &mut h);
    assert_eq!(e, refused(TryFromError::UnsupportedSourceType));
    assert_eq!(
        h.ops,
        vec![call(), drop_op(NUM, at(2, 0)), dealloc_op(at(2, 0), 4), dealloc_op(at(1, 0), 8)]
    );
    // One that was consumed is only released.
    let mut h = Script::new();
    h.try_from = vec![TryFromOutcome::Failed("zero".to_string())];
    let e = end_error(stack(&plan, frames()), &mut h);
    assert_eq!(e, refused(TryFromError::Generic("zero".to_string())));
    assert_eq!(h.ops, vec![call(), dealloc_op(at(2, 0), 4), dealloc_op(at(1, 0), 8)]);
    // Of one that nothing is known about nothing is touched.
    let mut h = Script::new();
    h.try_from = vec![TryFromOutcome::Unknown];
    let e = end_error(stack(&plan, frames()), &mut h);
    assert_eq!(e, refused(TryFromError::UnsupportedSourceType));
    assert_eq!(h.ops, vec![call(), dealloc_op(at(1, 0), 8)]);
}

#[test]
fn proxy_is_converted_into_its_target() {
    let plan = plan();
    let frames = || {
        let target = frame(&plan, WRAPPER, 1, FrameOwnership::Owned);
        let mut proxy = frame(&plan, NUM, 2, FrameOwnership::Owned);
        proxy.mark_as_init();
        proxy.using_custom_deserialization = true;
        proxy.shape_level_proxy = Some(ProxyDef { convert_in: f(91) });
        vec![target, proxy]
    };
    let call = || MemOp::ConvertIn {
        call: ConvertCall { f: f(91), src: at(2, 0), dst: at(1, 0) },
    };
    let mut h = Script::new();
    h.convert_in = vec![Ok(at(1, 0))];
    let p = stack(&plan, frames()).end(&mut h).unwrap();
    assert_eq!(h.ops, vec![call(), dealloc_op(at(2, 0), 4)]);
    assert!(p.frames()[0].is_init);

    let wrong = |message| ReflectErrorKind::CustomDeserializationError {
        message,
        src_shape: r(NUM),
        dst_shape: r(WRAPPER),
    };
    let mut h = Script::new();
    h.convert_in = vec![Ok(at(7, 0))];
    assert_eq!(
        end_error(stack(&plan, frames()), &mut h),
        wrong(Message::Fixed("deserialize_with did not return the expected pointer"))
    );
    let mut h = Script::new();
    h.convert_in = vec![Err("bad".to_string())];
    assert_eq!(
        end_error(stack(&plan, frames()), &mut h),
        wrong(Message::Reported("bad".to_string()))
    );
    assert_eq!(h.ops, vec![call(), dealloc_op(at(2, 0), 4), dealloc_op(at(1, 0), 8)]);
}

#[test]
fn proxy_of_a_field_serves_where_the_frame_has_none() {
    let mut s = shapes();
    if let Type::User(UserType::Struct(st)) = &mut s[PAIR].ty {
        st.fields[0].shape = r(WRAPPER);
        st.fields[0].proxy = Some(ProxyDef { convert_in: f(92) });
    }
    let plan = plan_of(s);
    let mut outer = frame(&plan, PAIR, 1, FrameOwnership::Owned);
    outer.tracker = Tracker::Struct { iset: iset(&[]), current_child: Some(0) };
    let mut target = frame(&plan, WRAPPER, 1, FrameOwnership::Field { field_idx: 0 });
    target.data = ptr(1, 0);
    let mut proxy = frame(&plan, NUM, 2, FrameOwnership::Owned);
    proxy.mark_as_init();
    proxy.using_custom_deserialization = true;
    let mut h = Script::new();
    h.convert_in = vec![Ok(at(1, 0))];
    let p = stack(&plan, vec![outer, target, proxy]).end(&mut h).unwrap();
    assert_eq!(
        h.ops,
        vec![
            MemOp::ConvertIn { call: ConvertCall { f: f(92), src: at(2, 0), dst: at(1, 0) } },
            dealloc_op(at(2, 0), 4)
        ]
    );
    assert_eq!(p.frame_count(), 2);
}

/// Ends a number under a parent with this tracker.
fn end_under<'a>(
    plan: &'a TypePlanCore,
    parent: usize,
    is_init: bool,
    tracker: Tracker,
    child: Frame,
    h: &mut Script,
) -> Result<P<'a>, ReflectErrorKind> {
    let mut outer = frame(plan, parent, 1, FrameOwnership::External);
    outer.is_init = is_init;
    outer.tracker = tracker;
    stack(plan, vec![outer, child]).end(h).map_err(|e| e.kind)
}

fn num(plan: &TypePlanCore, ownership: FrameOwnership) -> Frame {
    let mut fr = frame(plan, NUM, 2, ownership);
    fr.mark_as_init();
    fr
}

#[test]
fn options_and_results_take_their_inner_value() {
    let plan = plan();
    let mut h = Script::new();
    let p = end_under(
        &plan,
        MAYBE,
        false,
        Tracker::Option { building_inner: true, pending_inner: None },
        num(&plan, FrameOwnership::Owned),
        &mut h,
    )
    .unwrap();
    assert_eq!(h.ops, vec![], "the value waits until the option is finished");
    assert!(matches!(
        p.frames()[0].tracker,
        Tracker::Option { building_inner: false, pending_inner: Some(q) } if q == ptr(2, 0)
    ));
    for (is_ok, op) in [
        (true, MemOp::InitOk { f: f(75), dst: at(1, 0), src: at(2, 0) }),
        (false, MemOp::InitErr { f: f(76), dst: at(1, 0), src: at(2, 0) }),
    ] {
        let mut h = Script::new();
        let p = end_under(
            &plan,
            OUTCOME,
            false,
            Tracker::Result { is_ok, building_inner: true },
            num(&plan, FrameOwnership::Owned),
            &mut h,
        )
        .unwrap();
        assert_eq!(h.ops, vec![op, dealloc_op(at(2, 0), 4)]);
        assert!(p.frames()[0].is_init);
    }
    // A value that nobody asked for is dropped.
    for tracker in [
        Tracker::Option { building_inner: false, pending_inner: None },
        Tracker::Result { is_ok: true, building_inner: false },
    ] {
        let mut h = Script::new();
        let parent = if tracker.kind() == TrackerKind::Option { MAYBE } else { OUTCOME };
        end_under(&plan, parent, true, tracker, num(&plan, FrameOwnership::Owned), &mut h).unwrap();
        assert_eq!(h.ops, vec![drop_op(NUM, at(2, 0)), dealloc_op(at(2, 0), 4)]);
    }
}

#[test]
fn collections_take_their_elements() {
    let plan = plan();
    let mut h = Script::new();
    let p = end_under(
        &plan,
        LIST,
        true,
        Tracker::List { current_child: Some(0), rope: None },
        num(&plan, FrameOwnership::Owned),
        &mut h,
    )
    .unwrap();
    assert_eq!(
        h.ops,
        vec![
            MemOp::ListPush { f: f(70), list: at(1, 0), item: at(2, 0) },
            dealloc_op(at(2, 0), 4)
        ]
    );
    assert!(matches!(p.frames()[0].tracker, Tracker::List { current_child: None, .. }));
    let mut h = Script::new();
    let p = end_under(
        &plan,
        LIST,
        true,
        Tracker::List {
            current_child: Some(0),
            rope: Some(ListRope { id: 1, slots: vec![ptr(2, 0)], initialized: 0 }),
        },
        num(&plan, FrameOwnership::RopeSlot),
        &mut h,
    )
    .unwrap();
    assert_eq!(h.ops, vec![]);
    assert!(matches!(
        &p.frames()[0].tracker,
        Tracker::List { rope: Some(rope), .. } if rope.initialized_count() == 1
    ));
    let mut h = Script::new();
    end_under(
        &plan,
        GROUP,
        true,
        Tracker::SetOf { current_child: true },
        num(&plan, FrameOwnership::Owned),
        &mut h,
    )
    .unwrap();
    assert_eq!(
        h.ops,
        vec![MemOp::SetInsert { f: f(73), set: at(1, 0), item: at(2, 0) }, dealloc_op(at(2, 0), 4)]
    );
}

#[test]
fn maps_pair_keys_with_values() {
    let plan = plan();
    let mut h = Script::new();
    let mut key = frame(&plan, STRING, 2, FrameOwnership::TrackedBuffer);
    key.mark_as_init();
    let p = end_under(
        &plan,
        TABLE,
        true,
        Tracker::MapOf {
            insert_state: MapInsertState::PushingKey { key_ptr: ptr(2, 0) },
            pending_entries: vec![],
            current_entry_index: Some(0),
            building_key: true,
        },
        key,
        &mut h,
    )
    .unwrap();
    assert!(matches!(
        &p.frames()[0].tracker,
        Tracker::MapOf {
            insert_state: MapInsertState::PushingValue { value_ptr: None, .. },
            pending_entries,
            ..
        } if *pending_entries == vec![(ptr(2, 0), None)]
    ));
    let mut h = Script::new();
    let mut value = frame(&plan, NUM, 3, FrameOwnership::TrackedBuffer);
    value.mark_as_init();
    let p = end_under(
        &plan,
        TABLE,
        true,
        Tracker::MapOf {
            insert_state: MapInsertState::PushingValue {
                key_ptr: ptr(2, 0),
                value_ptr: Some(ptr(3, 0)),
            },
            pending_entries: vec![(ptr(2, 0), None)],
            current_entry_index: Some(0),
            building_key: false,
        },
        value,
        &mut h,
    )
    .unwrap();
    assert_eq!(h.ops, vec![]);
    assert!(matches!(
        &p.frames()[0].tracker,
        Tracker::MapOf { insert_state: MapInsertState::Idle, pending_entries, .. }
            if *pending_entries == vec![(ptr(2, 0), Some(ptr(3, 0)))]
    ));
}

#[test]
fn dynamic_values_take_their_parts() {
    let plan = plan();
    let part = |init: bool| {
        let mut fr = frame(&plan, DYNAMIC, 2, FrameOwnership::Owned);
        fr.is_init = init;
        fr.tracker = Tracker::DynamicValue { state: DynamicValueState::Scalar };
        fr
    };
    let array = || Tracker::DynamicValue {
        state: DynamicValueState::Array { building_element: true, pending_elements: vec![] },
    };
    let object = || Tracker::DynamicValue {
        state: DynamicValueState::Object {
            insert_state: DynamicObjectInsertState::BuildingValue { key: "k".to_string() },
            pending_entries: vec![],
        },
    };
    let mut h = Script::new();
    end_under(&plan, DYNAMIC, true, array(), part(true), &mut h).unwrap();
    assert_eq!(
        h.ops,
        vec![
            MemOp::PushElement { f: f(78), array: at(1, 0), item: at(2, 0) },
            dealloc_op(at(2, 0), 16)
        ]
    );
    let mut h = Script::new();
    let p = end_under(&plan, DYNAMIC, true, object(), part(true), &mut h).unwrap();
    assert_eq!(
        h.ops,
        vec![
            MemOp::InsertEntry {
                f: f(79),
                object: at(1, 0),
                key: "k".to_string(),
                value: at(2, 0)
            },
            dealloc_op(at(2, 0), 16)
        ]
    );
    assert!(matches!(
        &p.frames()[0].tracker,
        Tracker::DynamicValue {
            state: DynamicValueState::Object { insert_state: DynamicObjectInsertState::Idle, .. }
        }
    ));
    let mut h = Script::new();
    assert_eq!(
        end_under(&plan, DYNAMIC, false, array(), part(false), &mut h).err(),
        Some(failed(DYNAMIC, "end() called but array element was never initialized"))
    );
    let mut h = Script::new();
    assert_eq!(
        end_under(&plan, DYNAMIC, false, object(), part(false), &mut h).err(),
        Some(failed(DYNAMIC, "end() called but object entry value was never initialized"))
    );
}

#[test]
fn frames_that_do_not_fit_do_not_end() {
    let mut no_push = shapes();
    no_push[LIST].def = Def::List(ListDef { t: r(NUM), push: None, reserve: None });
    let no_push = plan_of(no_push);
    let plan = plan();
    let owned = |plan: &TypePlanCore| num(plan, FrameOwnership::Owned);
    let mut h = Script::new();
    let mut err = |plan: &TypePlanCore, parent, init, tracker| {
        end_under(plan, parent, init, tracker, owned(plan), &mut h).err().unwrap()
    };
    let pointer = |building_inner| Tracker::SmartPointer { building_inner, pending_inner: None };
    assert_eq!(
        err(&plan, ARC, false, pointer(false)),
        failed(ARC, "SmartPointer end() called with building_inner = false")
    );
    assert_eq!(
        err(&plan, LIST, false, pointer(true)),
        failed(LIST, "SmartPointer frame without SmartPointer definition")
    );
    assert_eq!(
        err(&plan, LIST, false, Tracker::Option { building_inner: true, pending_inner: None }),
        failed(LIST, "Option frame without Option definition")
    );
    assert_eq!(
        err(&plan, LIST, false, Tracker::Result { is_ok: true, building_inner: true }),
        failed(LIST, "Result frame without Result definition")
    );
    assert_eq!(
        err(&no_push, LIST, true, Tracker::List { current_child: Some(0), rope: None }),
        failed(LIST, "List missing push function")
    );
    assert_eq!(
        err(&plan, LIST, false, Tracker::Scalar),
        failed(LIST, "end() called but parent has Uninit/Init tracker and isn't a SmartPointer")
    );
    assert_eq!(
        err(&plan, ARC, false, Tracker::Scalar),
        broken("only T=str is supported when building SmartPointer<T> and T is unsized")
    );
}

#[test]
fn untracked_pointer_to_str_takes_a_string() {
    let with = |pointee, known| {
        let mut s = shapes();
        s[ARC].def = Def::Pointer(pointer_def(pointee, known));
        plan_of(s)
    };
    let run = |plan: &TypePlanCore, child: usize, h: &mut Script| {
        let mut c = frame(plan, child, 2, FrameOwnership::Owned);
        c.mark_as_init();
        end_under(plan, ARC, true, Tracker::Scalar, c, h).map(|p| p.frames()[0].is_init)
    };
    let mut h = Script::new();
    let plan = with(Some(STR), Some(KnownPointer::Box));
    assert_eq!(run(&plan, STRING, &mut h), Ok(true));
    assert_eq!(
        h.ops,
        vec![
            drop_op(ARC, at(1, 0)),
            MemOp::StringInto { kind: KnownPointer::Box, dst: at(1, 0), src: at(2, 0) },
            dealloc_op(at(2, 0), 24),
        ]
    );
    let mut h = Script::new();
    assert_eq!(
        run(&plan, NUM, &mut h),
        Err(broken("the popped frame should be String when building a SmartPointer<T>"))
    );
    let plan = with(None, Some(KnownPointer::Box));
    assert_eq!(run(&plan, STRING, &mut h), Err(broken("pointer type doesn't have a pointee")));
    let plan = with(Some(STR), None);
    assert_eq!(
        run(&plan, STRING, &mut h),
        Err(failed(ARC, "SmartPointerStr for unknown smart pointer kind"))
    );
    let plan = with(Some(STR), Some(KnownPointer::Cow));
    assert_eq!(
        run(&plan, STRING, &mut h),
        Err(failed(ARC, "Don't know how to build this pointer type"))
    );
}

fn slice_plan(sized: bool) -> TypePlanCore {
    let mut s = shapes();
    if !sized {
        s[ARC].layout = ShapeLayout::Unsized;
    }
    plan_of(s)
}

fn slice_frame(plan: &TypePlanCore, ownership: FrameOwnership) -> Frame {
    let mut fr = frame(plan, ARC, 5, ownership);
    if ownership.needs_dealloc() {
        fr.allocated = AllocatedShape::new(r(ARC), 0);
    }
    fr.tracker = Tracker::SmartPointerSlice {
        vtable: SliceBuilderVTable::new(f(1), f(2), f(3), f(4)),
        building_item: false,
        current_child: None,
    };
    fr
}

#[test]
fn slices_need_a_place() {
    let plan = slice_plan(true);
    let parent = |s| frame(&plan, s, 1, FrameOwnership::External);
    let mut h = Script::new();
    let child = slice_frame(&plan, FrameOwnership::Field { field_idx: 0 });
    assert_eq!(
        end_error(stack(&plan, vec![parent(LIST), child]), &mut h),
        broken("SmartPointerSlice field frame parent must be a struct")
    );
    for ownership in [
        FrameOwnership::TrackedBuffer,
        FrameOwnership::BorrowedInPlace,
        FrameOwnership::External,
        FrameOwnership::RopeSlot,
    ] {
        let child = slice_frame(&plan, ownership);
        assert_eq!(
            end_error(stack(&plan, vec![parent(PAIR), child]), &mut h),
            broken("SmartPointerSlice cannot have TrackedBuffer/BorrowedInPlace/External/RopeSlot ownership after conversion")
        );
    }
    let plan = slice_plan(false);
    let child = slice_frame(&plan, FrameOwnership::Field { field_idx: 1 });
    assert_eq!(
        end_error(
            stack(&plan, vec![frame(&plan, PAIR, 1, FrameOwnership::External), child]),
            &mut h
        ),
        ReflectErrorKind::Unsized {
            shape: r(ARC),
            operation: "SmartPointerSlice conversion requires sized Arc"
        }
    );
}

#[test]
fn slice_in_a_struct_goes_into_its_field() {
    let plan = slice_plan(true);
    let mut h = Script::new();
    let parent = frame(&plan, PAIR, 1, FrameOwnership::External);
    let child = slice_frame(&plan, FrameOwnership::Field { field_idx: 1 });
    let p = stack(&plan, vec![parent, child]).end(&mut h).unwrap();
    assert_eq!(
        h.ops,
        vec![
            MemOp::SliceConvert { f: f(3), builder: at(5, 0), buf: 100 },
            MemOp::Copy { src: at(100, 0), dst: at(1, 4), size: 8 },
            dealloc_op(at(100, 0), 8),
        ]
    );
    assert_eq!(p.frame_count(), 2);
    assert_eq!(p.frames()[1].data, ptr(1, 4));
    assert!(p.frames()[1].is_init);
}

// ---------------------------------------------------------------------------------------------
// Deferred mode

#[test]
fn deferred_maps_are_put_together_at_the_end() {
    let plan = plan();
    let mut h = Script::new();
    let mut map = frame(&plan, TABLE, 1, FrameOwnership::External);
    map.mark_as_init();
    map.tracker = Tracker::MapOf {
        insert_state: MapInsertState::PushingKey { key_ptr: ptr(2, 0) },
        pending_entries: vec![],
        current_entry_index: Some(0),
        building_key: true,
    };
    let mut p = stack(&plan, vec![map]).begin_deferred(&mut h).unwrap();
    let mut key = frame(&plan, STRING, 2, FrameOwnership::TrackedBuffer);
    key.mark_as_init();
    p.mode.stack_mut().push(key);
    p = p.end(&mut h).unwrap();
    match &mut p.mode.stack_mut()[0].tracker {
        Tracker::MapOf { insert_state, pending_entries, building_key, .. } => {
            assert!(pending_entries.is_empty(), "the stored frame keeps its buffer");
            assert!(matches!(insert_state, MapInsertState::PushingValue { value_ptr: None, .. }));
            *insert_state = MapInsertState::PushingValue {
                key_ptr: ptr(2, 0),
                value_ptr: Some(ptr(3, 0)),
            };
            *building_key = false;
        }
        other => panic!("{other:?}"),
    }
    let mut value = frame(&plan, NUM, 3, FrameOwnership::TrackedBuffer);
    value.mark_as_init();
    p.mode.stack_mut().push(value);
    p = p.end(&mut h).unwrap();
    assert_eq!(h.ops, vec![], "nothing is done before the end");
    p = p.finish_deferred(&mut h).unwrap();
    assert_eq!(
        h.ops,
        vec![
            MemOp::MapInsert { f: f(72), map: at(1, 0), key: at(2, 0), value: at(3, 0) },
            dealloc_op(at(2, 0), 24),
            dealloc_op(at(3, 0), 4),
        ]
    );
    assert!(p.frames()[0].is_init);
}

#[test]
fn deferred_sets_take_elements_at_once() {
    let plan = plan();
    let mut h = Script::new();
    // The list above the set gives the element a path.
    let mut list = frame(&plan, LIST, 1, FrameOwnership::External);
    list.tracker = Tracker::List { current_child: Some(0), rope: None };
    let mut set = frame(&plan, GROUP, 2, FrameOwnership::RopeSlot);
    set.mark_as_init();
    set.tracker = Tracker::SetOf { current_child: true };
    let mut p = stack(&plan, vec![list, set]).begin_deferred(&mut h).unwrap();
    p.mode.stack_mut().push({
        let mut e = frame(&plan, NUM, 3, FrameOwnership::Owned);
        e.mark_as_init();
        e
    });
    p = p.end(&mut h).unwrap();
    assert_eq!(
        h.ops,
        vec![MemOp::SetInsert { f: f(73), set: at(2, 0), item: at(3, 0) }, dealloc_op(at(3, 0), 4)]
    );
    assert_eq!(p.frame_count(), 2);
    match &p.mode {
        FrameMode::Deferred { stored_frames, .. } => assert_eq!(stored_frames.len(), 0),
        FrameMode::Strict { .. } => panic!("strict"),
    }
}

#[test]
fn deferred_list_elements_are_finished_in_order() {
    let plan = plan();
    let mut h = Script::new();
    let mut list = frame(&plan, LIST, 1, FrameOwnership::External);
    list.mark_as_init();
    list.tracker = Tracker::List { current_child: None, rope: None };
    let mut p = stack(&plan, vec![list]).begin_deferred(&mut h).unwrap();
    for i in [1usize, 0, 2] {
        match &mut p.mode.stack_mut()[0].tracker {
            Tracker::List { current_child, .. } => *current_child = Some(i),
            other => panic!("{other:?}"),
        }
        let mut e = frame(&plan, NUM, 10 + i as u64, FrameOwnership::Owned);
        e.mark_as_init();
        p.mode.stack_mut().push(e);
        p = p.end(&mut h).unwrap();
    }
    p = p.finish_deferred(&mut h).unwrap();
    let push = |buf| MemOp::ListPush { f: f(70), list: at(1, 0), item: at(buf, 0) };
    assert_eq!(
        h.ops,
        vec![
            push(10),
            dealloc_op(at(10, 0), 4),
            push(11),
            dealloc_op(at(11, 0), 4),
            push(12),
            dealloc_op(at(12, 0), 4),
        ]
    );
    assert!(!p.is_deferred());
}

#[test]
fn deferred_proxies_and_wrappers_are_converted_at_the_end() {
    let plan = plan();
    let mut h = Script::new();
    let mut wrapper = frame(&plan, WRAPPER, 1, FrameOwnership::External);
    wrapper.tracker = Tracker::Inner { building_inner: true };
    let mut p = stack(&plan, vec![wrapper]).begin_deferred(&mut h).unwrap();
    p.mode.stack_mut().push(num(&plan, FrameOwnership::Owned));
    p = p.end(&mut h).unwrap();
    assert_eq!(h.ops, vec![]);
    h.try_from = vec![TryFromOutcome::Converted];
    p = p.finish_deferred(&mut h).unwrap();
    assert!(p.frames()[0].is_init);
    assert_eq!(h.ops.len(), 2);

    let mut h = Script::new();
    let target = frame(&plan, WRAPPER, 1, FrameOwnership::External);
    let mut p = stack(&plan, vec![target]).begin_deferred(&mut h).unwrap();
    let mut proxy = num(&plan, FrameOwnership::Owned);
    proxy.using_custom_deserialization = true;
    proxy.shape_level_proxy = Some(ProxyDef { convert_in: f(91) });
    p.mode.stack_mut().push(proxy);
    p = p.end(&mut h).unwrap();
    h.convert_in = vec![Ok(at(1, 0))];
    p = p.finish_deferred(&mut h).unwrap();
    assert!(p.frames()[0].is_init);
    assert_eq!(
        h.ops,
        vec![
            MemOp::ConvertIn { call: ConvertCall { f: f(91), src: at(2, 0), dst: at(1, 0) } },
            dealloc_op(at(2, 0), 4)
        ]
    );
}

// ---------------------------------------------------------------------------------------------
// Cow

fn cow_functions() -> CowFunctions {
    CowFunctions {
        debug: f(1),
        display: f(2),
        equal: f(3),
        partial_order: f(4),
        order: f(5),
        borrow: f(6),
        borrow_from_pointee: f(7),
        promote_to_owned: f(8),
        truthy: f(9),
    }
}

#[test]
fn cow_shapes_describe_themselves() {
    let plan = plan_of(with_default(shapes(), STRING));
    let s = cow_shape(&plan.shapes, r(STR), r(STRING), layout(24), cow_functions());
    assert!(matches!(s.ty, Type::User(UserType::Opaque)));
    assert_eq!(s.inner, Some(r(STR)));
    assert_eq!(s.variance.base, Variance::Covariant);
    assert_eq!(
        s.variance.deps,
        vec![
            VarianceDep { shape: r(STR), position: Variance::Invariant },
            VarianceDep { shape: r(STRING), position: Variance::Invariant },
        ]
    );
    assert_eq!(s.type_params[0].name, "T");
    assert_eq!(s.type_params[1].name, "Owned");
    assert!(s.type_ops.drop_in_place && s.type_ops.default_in_place);
    let Def::Pointer(d) = s.def else { unreachable!() };
    assert!(d.constructible_from_pointee());
    assert!(d.vtable.new_into_fn.is_none());
    assert_eq!(d.flags, PointerFlags { bits: 0 });
    // Where the owned type has no default, neither has the pointer.
    let without = cow_shape(&plan.shapes, r(NUM), r(NUM), layout(24), cow_functions());
    assert!(!without.type_ops.default_in_place);
}

#[test]
fn cow_hands_calls_to_its_inner_value() {
    let mut s = shapes();
    s[NUM].vtable = VTableErased::Direct(ValueVTable {
        debug: Some(f(11)),
        display: None,
        equal: Some(f(13)),
        partial_order: Some(f(14)),
        order: Some(f(15)),
        try_from: None,
    });
    s[NUM].type_ops.is_truthy = Some(f(16));
    let plan = plan_of(s);
    let t = &plan.shapes;
    let c = cow_shape(t, r(NUM), r(NUM), layout(24), cow_functions());
    let a = CowValue::Borrowed(PtrConst { addr: at(1, 0) });
    let b = CowValue::Owned(PtrConst { addr: at(2, 0) });
    let one = |id, x: &CowValue| match x {
        CowValue::Borrowed(p) | CowValue::Owned(p) => Some(InnerCall { f: f(id), value: *p }),
    };
    let two = |id| {
        Some(InnerPairCall {
            f: f(id),
            a: PtrConst { addr: at(1, 0) },
            b: PtrConst { addr: at(2, 0) },
        })
    };
    assert_eq!(cow_debug(t, &c, &a), one(11, &a));
    assert_eq!(cow_display(t, &c, &a), None);
    assert_eq!(cow_partial_eq(t, &c, &a, &b), two(13));
    assert_eq!(cow_partial_cmp(t, &c, &a, &b), two(14));
    assert_eq!(cow_cmp(t, &c, &a, &b), two(15));
    assert_eq!(cow_truthy(t, r(NUM), &b), one(16, &b));
    assert_eq!(cow_truthy(t, r(STRING), &b), None);
    // Without an inner shape there is nothing to ask.
    let mut opaque = cow_shape(t, r(NUM), r(NUM), layout(24), cow_functions());
    opaque.inner = None;
    assert_eq!(cow_debug(t, &opaque, &a), None);
    assert_eq!(cow_cmp(t, &opaque, &a, &b), None);
}

#[test]
fn default_cow_owns_the_default_of_its_owned_type() {
    let plan = plan_of(with_default(shapes(), STRING));
    let t = &plan.shapes;
    let mut h = Recorder::new(true);
    let c = cow_shape(t, r(STR), r(STRING), layout(24), cow_functions());
    assert_eq!(
        cow_default_in_place(t, &c, ptr(1, 0), 9, &mut h),
        Some(CowValue::Owned(PtrConst { addr: at(1, 0) }))
    );
    assert_eq!(
        h.ops,
        vec![
            MemOp::Alloc { buf: 9, layout: layout(24) },
            MemOp::DefaultInPlace { shape: r(STRING), at: at(9, 0) },
            MemOp::OwnedInto { owned: r(STRING), dst: at(1, 0), src: at(9, 0) },
            dealloc_op(at(9, 0), 24),
        ]
    );
    let mut h = Recorder::new(true);
    let c = cow_shape(t, r(NUM), r(NUM), layout(24), cow_functions());
    assert_eq!(cow_default_in_place(t, &c, ptr(1, 0), 9, &mut h), None);
    assert_eq!(h.ops, vec![MemOp::Alloc { buf: 9, layout: layout(4) }, dealloc_op(at(9, 0), 4)]);
    let mut h = Recorder::new(true);
    let c = cow_shape(t, r(STR), r(UNSIZED), layout(24), cow_functions());
    assert_eq!(cow_default_in_place(t, &c, ptr(1, 0), 9, &mut h), None);
    let mut short = cow_shape(t, r(STR), r(STRING), layout(24), cow_functions());
    short.type_params = vec![TypeParam { name: "T", shape: r(STR) }];
    assert_eq!(cow_default_in_place(t, &short, ptr(1, 0), 9, &mut h), None);
    assert_eq!(h.ops, vec![]);
}

#[test]
fn cow_names_go_as_deep_as_they_are_asked_to() {
    assert_eq!(cow_type_name(Some("str")), "Cow<str>");
    assert_eq!(cow_type_name(None), "Cow<…>");
}

// ---------------------------------------------------------------------------------------------
// Looking at a value

#[test]
fn plans_are_found_from_the_current_frame() {
    let mut plan = plan();
    plan.nodes[ARC].kind = TypePlanNodeKind::BackRef(NodeId { index: PAIR });
    plan.nodes[ARC].shape = r(PAIR);
    let p = stack(&plan, vec![frame(&plan, PAIR, 1, FrameOwnership::Owned)]);
    assert!(p.is_active());
    assert_eq!(p.try_shape(), Some(r(PAIR)));
    assert_eq!(p.struct_plan().unwrap().fields.len, 2);
    assert!(p.enum_plan().is_none());
    assert_eq!(p.field_plans().unwrap()[1].name, "b");
    assert_eq!(p.plan_node_id(), Some(NodeId { index: PAIR }));
    assert_eq!(p.plan_node().unwrap().shape, r(PAIR));
    assert_eq!(p.deser_strategy(), Some(&DeserStrategy { code: PAIR as u32 }));
    assert_eq!(p.proxy_nodes(), Some(&ProxyNodes { any_format: None }));
    assert_eq!(p.type_plan_core().nodes.len(), plan.nodes.len());
    assert!(p.current_path().is_none());
    assert!(!p.is_building_smart_ptr_slice());

    // A recursive type is described where it refers back to.
    let mut again = frame(&plan, PAIR, 1, FrameOwnership::Owned);
    again.type_plan = NodeId { index: ARC };
    let p = stack(&plan, vec![again]);
    assert_eq!(p.struct_plan().unwrap().fields.len, 2);
    assert_eq!(p.deser_strategy(), Some(&DeserStrategy { code: PAIR as u32 }));

    let mut choice = frame(&plan, CHOICE, 1, FrameOwnership::Owned);
    assert!(stack(&plan, vec![frame(&plan, CHOICE, 1, FrameOwnership::Owned)]).field_plans().is_none());
    choice.tracker = Tracker::Enum { variant_idx: 1, data: iset(&[]), current_child: None };
    let mut p = stack(&plan, vec![choice]);
    assert_eq!(p.enum_plan().unwrap().variants.len, 3);
    assert_eq!(p.field_plans().unwrap().len(), 2);

    p.state = PartialState::Built;
    assert!(!p.is_active());
    assert_eq!(p.try_shape(), None);
    assert!(p.struct_plan().is_none() && p.enum_plan().is_none());
    assert!(p.plan_node().is_none() && p.plan_node_id().is_none());
    assert!(p.deser_strategy().is_none() && p.proxy_nodes().is_none());
    assert!(p.data_ptr().is_none());
}

#[test]
fn values_are_read_once_they_are_complete() {
    let plan = plan();
    let mut h = Recorder::new(true);
    let mut p = stack(&plan, vec![frame(&plan, NUM, 1, FrameOwnership::Owned)]);
    assert_eq!(p.data_ptr(), Some(PtrConst { addr: at(1, 0) }));
    assert_eq!(p.initialized_data_ptr(&mut h), None);
    assert_eq!(p.read_as(r(NUM), &mut h), None);
    p.mode.stack_mut()[0].mark_as_init();
    assert_eq!(p.initialized_data_ptr(&mut h), Some(PtrConst { addr: at(1, 0) }));
    assert_eq!(p.read_as(r(NUM), &mut h), Some(PtrConst { addr: at(1, 0) }));
    assert_eq!(p.read_as(r(STRING), &mut h), None);
    p.state = PartialState::Built;
    assert_eq!(p.initialized_data_ptr(&mut h), None);
}

#[test]
fn calls_can_be_chained() {
    let plan = plan();
    let p = stack(&plan, vec![frame(&plan, NUM, 1, FrameOwnership::Owned)]);
    let p = p
        .with(|mut p| {
            p.mode.stack_mut()[0].mark_as_init();
            Ok::<_, ()>(p)
        })
        .unwrap();
    assert!(p.frames()[0].is_init);
    assert_eq!(p.with(|_| Err::<P, u8>(3)).err(), Some(3));
}

#[test]
fn unsized_roots_cannot_be_allocated() {
    let plan = plan();
    let mut h = Recorder::new(true);
    let e = P::alloc_shape(&plan, NodeId { index: UNSIZED }, &mut h).err().unwrap();
    assert_eq!(e.kind, ReflectErrorKind::Unsized { shape: r(UNSIZED), operation: "alloc_shape" });
    let e = P::from_raw_with_shape(&plan, NodeId { index: STR }, ptr(1, 0)).err().unwrap();
    assert_eq!(
        e.kind,
        ReflectErrorKind::Unsized { shape: r(STR), operation: "from_raw_with_shape" }
    );
    assert_eq!(h.ops, vec![]);
}

#[test]
fn trackers_know_their_current_child() {
    let child_of = |t: &Tracker| match t {
        Tracker::Struct { current_child, .. }
        | Tracker::Enum { current_child, .. }
        | Tracker::Array { current_child, .. }
        | Tracker::List { current_child, .. } => *current_child,
        Tracker::SetOf { current_child } => if *current_child { Some(0) } else { None },
        _ => None,
    };
    for mut t in [
        Tracker::Struct { iset: iset(&[]), current_child: None },
        Tracker::Enum { variant_idx: 0, data: iset(&[]), current_child: None },
        Tracker::Array { iset: iset(&[]), current_child: None },
    ] {
        t.set_current_child(4);
        assert_eq!(child_of(&t), Some(4));
        t.clear_current_child();
        assert_eq!(child_of(&t), None);
    }
    let mut list = Tracker::List { current_child: Some(2), rope: None };
    list.set_current_child(4);
    assert_eq!(child_of(&list), Some(2), "a list counts its items itself");
    list.clear_current_child();
    assert_eq!(child_of(&list), None);
    let mut set = Tracker::SetOf { current_child: true };
    set.clear_current_child();
    assert_eq!(child_of(&set), None);
}

#[test]
fn plans_are_checked_against_their_shapes() {
    let bad = |change: fn(&mut TypePlanCore)| {
        let mut p = plan();
        change(&mut p);
        !p.validate()
    };
    assert!(plan().validate());
    assert!(bad(|p| p.shapes.unit_shape = r(99)));
    assert!(bad(|p| p.shapes.str_shape = r(STRING)));
    assert!(bad(|p| p.shapes.string_shape = r(STR)));
    assert!(bad(|p| p.shapes.shapes[NUM].layout = ShapeLayout::Sized(Layout { size: 4, align: 0 })));
    assert!(bad(|p| p.shapes.shapes[NUM].layout = ShapeLayout::Sized(layout(usize::MAX))));
    assert!(bad(|p| p.shapes.shapes[DYNAMIC].type_ops.drop_in_place = false));
    assert!(bad(|p| p.shapes.shapes[ARRAY].ty =
        Type::Sequence(SequenceType::Array(ArrayType { t: r(NUM), n: usize::MAX }))));
    assert!(bad(|p| p.shapes.shapes[LIST].def =
        Def::List(ListDef { t: r(99), push: None, reserve: None })));
    assert!(bad(|p| if let Type::User(UserType::Enum(e)) = &mut p.shapes.shapes[CHOICE].ty {
        e.variants[1].fields[0].shape = r(99);
    }));
    assert!(bad(|p| p.nodes[NUM].shape = r(99)));
    assert!(bad(|p| p.nodes[ARC].kind = TypePlanNodeKind::Unknown));
    assert!(bad(|p| p.nodes[ARC].kind =
        TypePlanNodeKind::Pointer { pointee: Some(NodeId { index: STRING }) }));
    assert!(bad(|p| p.nodes[NUM].kind = TypePlanNodeKind::BackRef(NodeId { index: PAIR })));
    assert!(bad(|p| p.nodes[NUM].kind = TypePlanNodeKind::BackRef(NodeId { index: NUM })));
    assert!(bad(|p| p.nodes[PAIR].kind = TypePlanNodeKind::Struct(StructPlan {
        fields: SliceRange { start: usize::MAX, len: 2 },
    })));
    assert!(bad(|p| p.field_plans[0].validators = SliceRange { start: 1, len: 2 }));
    assert!(bad(|p| p.field_plans[0].fill_rule =
        FillRule::Defaultable(FieldDefault::FromTrait(r(99)))));
    assert!(bad(|p| p.variant_plans[0].fields = SliceRange { start: 0, len: 99 }));
}

#[test]
fn ending_a_whole_field_only_counts_it() {
    let plan = plan();
    let mut h = Script::new();
    let mut parent = frame(&plan, PAIR, 1, FrameOwnership::Owned);
    parent.tracker = Tracker::Struct { iset: iset(&[0]), current_child: Some(1) };
    let mut child = frame(&plan, NUM, 1, FrameOwnership::Field { field_idx: 1 });
    child.data = ptr(1, 4);
    child.mark_as_init();
    let p = stack(&plan, vec![parent, child]).end(&mut h).unwrap();
    assert_eq!(h.ops, vec![]);
    assert_eq!(p.frame_count(), 1);
    assert!(matches!(
        &p.frames()[0].tracker,
        Tracker::Struct { iset, current_child: None } if iset.all_set(2)
    ));
}

#[test]
fn map_entries_that_follow_on_can_be_finished() {
    let plan = plan();
    let mut h = Script::new();
    let mut map = frame(&plan, TABLE, 1, FrameOwnership::External);
    map.mark_as_init();
    map.tracker = Tracker::MapOf {
        insert_state: MapInsertState::Idle,
        pending_entries: vec![(ptr(2, 0), Some(ptr(3, 0)))],
        current_entry_index: Some(2),
        building_key: false,
    };
    let mut p = stack(&plan, vec![map]).begin_deferred(&mut h).unwrap();
    if let FrameMode::Deferred { stored_frames, .. } = &mut p.mode {
        for (step, s, buf) in [
            (PathStep::MapValue(2), NUM, 7),
            (PathStep::MapKey(2), STRING, 6),
            (PathStep::MapValue(1), NUM, 5),
            (PathStep::MapKey(1), STRING, 4),
        ] {
            let mut at = Path::new(r(TABLE));
            at.push(step);
            let mut fr = frame(&plan, s, buf, FrameOwnership::TrackedBuffer);
            fr.mark_as_init();
            stored_frames.insert(at, fr);
        }
    }
    let p = p.finish_deferred(&mut h).unwrap();
    let mut expected = Vec::new();
    for (key, value) in [(2, 3), (4, 5), (6, 7)] {
        expected.push(MemOp::MapInsert {
            f: f(72),
            map: at(1, 0),
            key: at(key, 0),
            value: at(value, 0),
        });
        expected.push(dealloc_op(at(key, 0), 24));
        expected.push(dealloc_op(at(value, 0), 4));
    }
    assert_eq!(h.ops, expected);
    assert!(p.frames()[0].is_init);
}

#[test]
fn making_room_tells_whether_anything_was_there() {
    let plan = plan();
    let told = |s: usize, ownership: FrameOwnership, is_init: bool, tracker: Tracker| {
        let mut h = Recorder::new(true);
        let mut fr = frame(&plan, s, 1, ownership);
        fr.is_init = is_init;
        fr.tracker = tracker;
        let mut p = stack(&plan, vec![frame(&plan, PAIR, 9, FrameOwnership::Owned), fr]);
        let told = p.prepare_for_reinitialization(&mut h);
        assert!(told || h.ops.is_empty());
        told
    };
    let field = FrameOwnership::Field { field_idx: 0 };
    for ownership in [FrameOwnership::Owned, field] {
        let parts = |set: &[usize]| Tracker::Struct { iset: iset(set), current_child: None };
        assert!(!told(PAIR, ownership, false, parts(&[])));
        assert!(told(PAIR, ownership, false, parts(&[1])));
        assert!(told(PAIR, ownership, true, parts(&[])));
        let elements = |set: &[usize]| Tracker::Array { iset: iset(set), current_child: None };
        assert!(!told(ARRAY, ownership, false, elements(&[])));
        assert!(told(ARRAY, ownership, false, elements(&[2])));
        let variant =
            |set: &[usize]| Tracker::Enum { variant_idx: 1, data: iset(set), current_child: None };
        assert!(!told(CHOICE, ownership, false, variant(&[])));
        assert!(told(CHOICE, ownership, false, variant(&[0])));
        assert!(!told(NUM, ownership, false, Tracker::Scalar));
        assert!(told(NUM, ownership, true, Tracker::Scalar));
        let pointer =
            |pending_inner| Tracker::SmartPointer { building_inner: false, pending_inner };
        assert!(!told(ARC, ownership, false, pointer(None)));
        assert!(told(ARC, ownership, false, pointer(Some(pending(NUM, 4)))));
        let option = |building_inner, pending_inner| Tracker::Option { building_inner, pending_inner };
        assert!(!told(MAYBE, ownership, false, option(true, None)));
        assert!(told(MAYBE, ownership, true, option(false, Some(ptr(2, 0)))));
        assert!(!told(GROUP, ownership, false, Tracker::SetOf { current_child: false }));
        assert!(!told(WRAPPER, ownership, false, Tracker::Inner { building_inner: true }));
    }
}

#[test]
fn stored_element_of_an_array_is_dropped_once() {
    let plan = plan();
    let mut h = Script::new();
    let mut array = frame(&plan, ARRAY, 1, FrameOwnership::Owned);
    array.tracker = Tracker::Array { iset: iset(&[0]), current_child: Some(2) };
    let mut p = stack(&plan, vec![array]).begin_deferred(&mut h).unwrap();
    let mut element = frame(&plan, NUM, 1, FrameOwnership::Field { field_idx: 2 });
    element.data = ptr(1, 8);
    element.mark_as_init();
    p.mode.stack_mut().push(element);
    p = p.end(&mut h).unwrap();
    assert!(matches!(
        &p.frames()[0].tracker,
        Tracker::Array { iset, .. } if iset.get(0) && iset.get(2)
    ));
    p.cancel(&mut h);
    assert_eq!(
        h.ops,
        vec![drop_op(NUM, at(1, 8)), drop_op(NUM, at(1, 0)), dealloc_op(at(1, 0), 12)]
    );
}

#[test]
fn pointer_that_cannot_be_built_stays_uninitialized() {
    let mut s = shapes();
    let mut def = pointer_def(Some(NUM), Some(KnownPointer::Arc));
    def.vtable.new_into_fn = None;
    s[ARC].def = Def::Pointer(def);
    let plan = plan_of(s);
    let mut h = Script::new();
    let building = Tracker::SmartPointer { building_inner: true, pending_inner: None };
    let gone = vec![drop_op(NUM, at(2, 0)), dealloc_op(at(2, 0), 4)];
    let p = end_under(&plan, ARC, false, building, num(&plan, FrameOwnership::Owned), &mut h);
    let p = p.unwrap();
    assert!(!p.frames()[0].is_init);
    assert!(matches!(p.frames()[0].tracker, Tracker::Scalar));
    assert_eq!(h.ops, gone);
    let mut h = Script::new();
    let mut pointer = frame(&plan, ARC, 1, FrameOwnership::External);
    pointer.tracker = Tracker::SmartPointer { building_inner: true, pending_inner: None };
    let mut p = stack(&plan, vec![pointer]).begin_deferred(&mut h).unwrap();
    p.mode.stack_mut().push(num(&plan, FrameOwnership::Owned));
    p = p.end(&mut h).unwrap();
    let e = p.finish_deferred(&mut h).err().unwrap();
    assert_eq!(e.kind, ReflectErrorKind::UninitializedValue { shape: r(ARC) });
    assert_eq!(h.ops, gone);
}

#[test]
fn stored_item_of_a_list_without_push_is_dropped() {
    let mut s = shapes();
    s[LIST].def = Def::List(ListDef { t: r(NUM), push: None, reserve: None });
    let plan = plan_of(s);
    let mut h = Script::new();
    let mut list = frame(&plan, LIST, 1, FrameOwnership::External);
    list.mark_as_init();
    list.tracker = Tracker::List { current_child: Some(0), rope: None };
    let mut p = stack(&plan, vec![list]).begin_deferred(&mut h).unwrap();
    p.mode.stack_mut().push(num(&plan, FrameOwnership::Owned));
    p = p.end(&mut h).unwrap();
    p = p.finish_deferred(&mut h).unwrap();
    assert!(p.frames()[0].is_init);
    assert_eq!(h.ops, vec![drop_op(NUM, at(2, 0)), dealloc_op(at(2, 0), 4)]);
}

/// Sets a slice builder aside under a list, and leaves deferred mode.
fn slice_error(plan: &TypePlanCore, ownership: FrameOwnership, h: &mut Script) -> ReflectErrorKind {
    let mut list = frame(plan, LIST, 1, FrameOwnership::External);
    list.tracker = Tracker::List { current_child: Some(0), rope: None };
    let mut p = stack(plan, vec![list]).begin_deferred(h).unwrap();
    p.mode.stack_mut().push(slice_frame(plan, ownership));
    p = p.end(h).unwrap();
    p = p.end(h).unwrap();
    assert_eq!(p.frame_count(), 1);
    p.finish_deferred(h).err().unwrap().kind
}

#[test]
fn slice_without_a_place_is_dropped_at_the_end_of_deferred_mode() {
    let plan = slice_plan(true);
    for ownership in [
        FrameOwnership::Field { field_idx: 0 },
        FrameOwnership::TrackedBuffer,
        FrameOwnership::External,
        FrameOwnership::RopeSlot,
    ] {
        let mut h = Script::new();
        assert_eq!(
            slice_error(&plan, ownership, &mut h),
            ReflectErrorKind::UninitializedValue { shape: r(ARC) }
        );
        assert_eq!(
            h.ops,
            vec![
                MemOp::SliceConvert { f: f(3), builder: at(5, 0), buf: 100 },
                drop_op(ARC, at(100, 0)),
                dealloc_op(at(100, 0), 8),
            ]
        );
    }
    let plan = slice_plan(false);
    let mut h = Script::new();
    assert_eq!(
        slice_error(&plan, FrameOwnership::Field { field_idx: 0 }, &mut h),
        ReflectErrorKind::UninitializedValue { shape: r(ARC) }
    );
    assert_eq!(h.ops, vec![MemOp::SliceFree { f: f(4), builder: at(5, 0) }]);
}

#[test]
fn rope_is_released_once() {
    let plan = plan();
    let rope = || Some(ListRope { id: 5, slots: vec![ptr(2, 0), ptr(2, 4)], initialized: 1 });
    let mut h = Script::new();
    let mut list = frame(&plan, LIST, 1, FrameOwnership::External);
    list.mark_as_init();
    list.tracker = Tracker::List { current_child: None, rope: rope() };
    stack(&plan, vec![list]).cancel(&mut h);
    assert_eq!(h.ops.iter().filter(|op| **op == MemOp::FreeRope { rope: 5 }).count(), 1);
    let mut h = Script::new();
    let mut list = frame(&plan, LIST, 1, FrameOwnership::External);
    list.mark_as_init();
    list.tracker = Tracker::List { current_child: Some(0), rope: rope() };
    let p = stack(&plan, vec![list]).begin_deferred(&mut h).unwrap();
    p.cancel(&mut h);
    assert_eq!(h.ops.iter().filter(|op| **op == MemOp::FreeRope { rope: 5 }).count(), 1);
}

#[test]
fn pointee_entered_again_can_be_finished() {
    let plan = plan();
    let mut h = Script::new();
    let p = stack(&plan, vec![frame(&plan, ARC, 1, FrameOwnership::External)]);
    let mut p = p.begin_deferred(&mut h).unwrap().begin_smart_ptr(&mut h).unwrap();
    let made = p.frames()[1].data;
    p = p.end(&mut h).unwrap();
    assert_eq!(p.frame_count(), 1);
    p = p.begin_smart_ptr(&mut h).unwrap();
    assert_eq!(p.frames()[1].data, made, "the pointee is the same");
    p.mode.stack_mut()[1].mark_as_init();
    p = p.end(&mut h).unwrap();
    p = p.finish_deferred(&mut h).unwrap();
    assert!(p.frames()[0].is_init);
    let made_buffers = h.ops.iter().filter(|op| matches!(op, MemOp::Alloc { .. })).count();
    assert_eq!(made_buffers, 1);
}

#[test]
fn buffers_get_different_numbers() {
    let plan = plan();
    let mut h = Script::new();
    let p = P::alloc_shape(&plan, NodeId { index: ARC }, &mut h).unwrap();
    let mut p = p.begin_smart_ptr(&mut h).unwrap();
    assert_eq!(p.frames()[0].data, ptr(0, 0));
    assert_eq!(p.frames()[1].data, ptr(1, 0));
    p.mode.stack_mut()[1].mark_as_init();
    p = p.end(&mut h).unwrap();
    p = p.begin_smart_ptr(&mut h).unwrap();
    assert_eq!(p.frames()[1].data, ptr(2, 0));
    assert_eq!(p.next_buffer, 3);
    p.cancel(&mut h);
    for buf in 0..3 {
        let made = |op: &&MemOp| matches!(op, MemOp::Alloc { buf: b, .. } if *b == buf);
        let released = |op: &&MemOp| matches!(op, MemOp::Dealloc { at, .. } if at.buf == buf);
        assert_eq!(h.ops.iter().filter(made).count(), 1);
        assert_eq!(h.ops.iter().filter(released).count(), 1);
    }
}

#[test]
fn refused_conversions_in_deferred_mode_leave_the_value_uninitialized() {
    let plan = plan();
    for outcome in [TryFromOutcome::Unsupported, TryFromOutcome::Failed("no".to_string())] {
        let consumed = matches!(outcome, TryFromOutcome::Failed(_));
        let mut h = Script::new();
        let mut wrapper = frame(&plan, WRAPPER, 1, FrameOwnership::External);
        wrapper.tracker = Tracker::Inner { building_inner: true };
        let mut p = stack(&plan, vec![wrapper]).begin_deferred(&mut h).unwrap();
        p.mode.stack_mut().push(num(&plan, FrameOwnership::Owned));
        p = p.end(&mut h).unwrap();
        h.try_from = vec![outcome];
        let e = p.finish_deferred(&mut h).err().unwrap();
        assert_eq!(e.kind, ReflectErrorKind::UninitializedValue { shape: r(WRAPPER) });
        let mut released = vec![dealloc_op(at(2, 0), 4)];
        if !consumed {
            released.insert(0, drop_op(NUM, at(2, 0)));
        }
        assert_eq!(h.ops[1..], released[..]);
    }
    let mut h = Script::new();
    let target = frame(&plan, WRAPPER, 1, FrameOwnership::External);
    let mut p = stack(&plan, vec![target]).begin_deferred(&mut h).unwrap();
    let mut proxy = num(&plan, FrameOwnership::Owned);
    proxy.using_custom_deserialization = true;
    proxy.shape_level_proxy = Some(ProxyDef { convert_in: f(91) });
    p.mode.stack_mut().push(proxy);
    p = p.end(&mut h).unwrap();
    h.convert_in = vec![Err("bad".to_string())];
    let e = p.finish_deferred(&mut h).err().unwrap();
    assert_eq!(e.kind, ReflectErrorKind::UninitializedValue { shape: r(WRAPPER) });
    assert_eq!(h.ops.last(), Some(&dealloc_op(at(2, 0), 4)));
}

#[test]
fn incomplete_part_of_a_dynamic_value_is_disposed_of() {
    let plan = plan();
    let mut h = Script::new();
    // The list gives the dynamic value a path.
    let mut list = frame(&plan, LIST, 1, FrameOwnership::External);
    list.tracker = Tracker::List { current_child: Some(0), rope: None };
    let mut value = frame(&plan, DYNAMIC, 2, FrameOwnership::RopeSlot);
    value.tracker = Tracker::DynamicValue {
        state: DynamicValueState::Array { building_element: true, pending_elements: vec![] },
    };
    let mut p = stack(&plan, vec![list, value]).begin_deferred(&mut h).unwrap();
    p.mode.stack_mut().push(frame(&plan, DYNAMIC, 3, FrameOwnership::Owned));
    assert_eq!(
        end_error(p, &mut h),
        ReflectErrorKind::UninitializedValue { shape: r(DYNAMIC) }
    );
    assert_eq!(h.ops, vec![dealloc_op(at(3, 0), 16)]);
}

#[test]
fn key_without_value_waits_on_after_the_error() {
    let plan = plan();
    let mut fr = frame(&plan, TABLE, 1, FrameOwnership::Owned);
    fr.mark_as_init();
    fr.tracker = Tracker::MapOf {
        insert_state: MapInsertState::Idle,
        pending_entries: vec![(ptr(2, 0), Some(ptr(3, 0))), (ptr(4, 0), None)],
        current_entry_index: Some(1),
        building_key: false,
    };
    assert!(completion(&plan, &mut fr).0.is_err());
    assert_eq!(
        deinit_ops(&plan, fr),
        vec![drop_op(TABLE, at(1, 0)), drop_op(STRING, at(4, 0)), dealloc_op(at(4, 0), 24)]
    );
}

#[test]
fn frame_set_aside_under_a_taken_path_supersedes_the_other() {
    let plan = plan();
    let mut h = Script::new();
    let mut list = frame(&plan, LIST, 1, FrameOwnership::External);
    list.mark_as_init();
    list.tracker = Tracker::List { current_child: None, rope: None };
    let mut p = stack(&plan, vec![list]).begin_deferred(&mut h).unwrap();
    for buf in [2, 3] {
        match &mut p.mode.stack_mut()[0].tracker {
            Tracker::List { current_child, .. } => *current_child = Some(0),
            other => panic!("{other:?}"),
        }
        let mut e = frame(&plan, NUM, buf, FrameOwnership::Owned);
        e.mark_as_init();
        p.mode.stack_mut().push(e);
        p = p.end(&mut h).unwrap();
    }
    assert_eq!(h.ops, vec![drop_op(NUM, at(2, 0)), dealloc_op(at(2, 0), 4)]);
    match &p.mode {
        FrameMode::Deferred { stored_frames, .. } => {
            assert_eq!(stored_frames.len(), 1);
            assert_eq!(stored_frames.entries[0].frame.data, ptr(3, 0));
        }
        FrameMode::Strict { .. } => panic!("strict"),
    }
}

#[test]
fn frames_without_a_path_are_complete_in_deferred_mode_too() {
    let plan = plan();
    for is_init in [false, true] {
        let mut h = Script::new();
        let mut set = frame(&plan, GROUP, 1, FrameOwnership::External);
        set.mark_as_init();
        set.tracker = Tracker::SetOf { current_child: true };
        let mut p = stack(&plan, vec![set]).begin_deferred(&mut h).unwrap();
        let mut e = frame(&plan, NUM, 2, FrameOwnership::Owned);
        e.is_init = is_init;
        p.mode.stack_mut().push(e);
        let ended = p.end(&mut h).map(|p| p.frame_count()).map_err(|e| e.kind);
        if is_init {
            assert_eq!(ended, Ok(1));
            assert_eq!(
                h.ops,
                vec![
                    MemOp::SetInsert { f: f(73), set: at(1, 0), item: at(2, 0) },
                    dealloc_op(at(2, 0), 4)
                ]
            );
        } else {
            assert_eq!(ended, Err(ReflectErrorKind::UninitializedValue { shape: r(NUM) }));
            assert_eq!(h.ops, vec![dealloc_op(at(2, 0), 4), drop_op(GROUP, at(1, 0))]);
        }
    }
}

#[test]
fn incomplete_element_of_a_set_is_disposed_of() {
    let plan = plan();
    let mut h = Script::new();
    // The list gives the set a path.
    let mut list = frame(&plan, LIST, 1, FrameOwnership::External);
    list.tracker = Tracker::List { current_child: Some(0), rope: None };
    let mut set = frame(&plan, GROUP, 2, FrameOwnership::RopeSlot);
    set.mark_as_init();
    set.tracker = Tracker::SetOf { current_child: true };
    let mut p = stack(&plan, vec![list, set]).begin_deferred(&mut h).unwrap();
    p.mode.stack_mut().push(frame(&plan, NUM, 3, FrameOwnership::Owned));
    assert_eq!(end_error(p, &mut h), ReflectErrorKind::UninitializedValue { shape: r(NUM) });
    assert_eq!(h.ops, vec![dealloc_op(at(3, 0), 4), drop_op(GROUP, at(2, 0))]);
}

#[test]
fn what_waits_in_an_entry_of_a_collection_is_discarded() {
    let plan = plan();
    let mut fr = frame(&plan, DYNAMIC, 1, FrameOwnership::BorrowedInPlace);
    fr.mark_as_init();
    fr.tracker = Tracker::DynamicValue {
        state: DynamicValueState::Array { building_element: false, pending_elements: vec![ptr(2, 0)] },
    };
    assert_eq!(
        deinit_ops(&plan, fr),
        vec![drop_op(DYNAMIC, at(2, 0)), dealloc_op(at(2, 0), 16)],
        "the entry itself stays"
    );
}

#[test]
fn what_waits_makes_way_for_a_stored_value() {
    let plan = plan();
    let mut h = Recorder::new(true);
    let mut option = frame(&plan, MAYBE, 1, FrameOwnership::External);
    option.mark_as_init();
    option.tracker = Tracker::Option { building_inner: false, pending_inner: Some(ptr(2, 0)) };
    let mut child = frame(&plan, NUM, 3, FrameOwnership::Owned);
    child.mark_as_init();
    option.absorb(PathStep::OptionSome, child, &plan.shapes, &mut h);
    assert_eq!(
        h.ops,
        vec![
            drop_op(NUM, at(2, 0)),
            dealloc_op(at(2, 0), 4),
            MemOp::InitSome { f: f(74), dst: at(1, 0), src: at(3, 0) },
            dealloc_op(at(3, 0), 4),
        ]
    );
    assert!(option.is_init);
}

#[test]
fn list_without_push_drops_its_elements() {
    let mut s = shapes();
    s[LIST].def = Def::List(ListDef { t: r(NUM), push: None, reserve: None });
    let plan = plan_of(s);
    let mut fr = frame(&plan, LIST, 1, FrameOwnership::External);
    fr.mark_as_init();
    fr.tracker = Tracker::List {
        current_child: None,
        rope: Some(ListRope { id: 5, slots: vec![ptr(2, 0), ptr(2, 4)], initialized: 1 }),
    };
    assert_eq!(
        completion(&plan, &mut fr).1,
        vec![drop_op(NUM, at(2, 0)), MemOp::FreeRope { rope: 5 }]
    );
}
