//! The precomputed plan for building a value of a root type.
use vstd::prelude::*;
use vstd::slice::slice_subrange;

use crate::memory::FnRef;
use crate::shape::{Def, ShapeRef, ShapeTable};

verus! {

/// Names a node of a plan.
#[derive(Clone, Copy, PartialEq, Eq, Structural, Debug)]
pub struct NodeId {
    pub index: usize,
}

/// A run of consecutive items.
#[derive(Clone, Copy, PartialEq, Eq, Structural, Debug)]
pub struct SliceRange {
    pub start: usize,
    pub len: usize,
}

impl SliceRange {
    /// Whether the run lies within `n` items.
    pub fn is_within(self, n: usize) -> (r: bool)
        ensures
            r == self.fits(n as nat),
    {
        self.len <= n && self.start <= n - self.len
    }

    /// The run lies within `n` items.
    pub open spec fn fits(self, n: nat) -> bool {
        self.start + self.len <= n
    }
}

/// Plan for a struct.
#[derive(Clone, Copy, PartialEq, Eq, Structural, Debug)]
pub struct StructPlan {
    pub fields: SliceRange,
}

/// Plan for an enum.
#[derive(Clone, Copy, PartialEq, Eq, Structural, Debug)]
pub struct EnumPlan {
    pub variants: SliceRange,
}

/// Plan for a variant.
#[derive(Clone, Copy, PartialEq, Eq, Structural, Debug)]
pub struct VariantPlanMeta {
    pub fields: SliceRange,
}

/// Where the default of a field comes from.
#[derive(Clone, Copy, PartialEq, Eq, Structural, Debug)]
pub enum FieldDefault {
    /// A function that writes it.
    Custom(FnRef),
    /// The default of this type.
    FromTrait(ShapeRef),
}

/// What to do about a field that was not set.
#[derive(Clone, Copy, PartialEq, Eq, Structural, Debug)]
pub enum FillRule {
    Defaultable(FieldDefault),
    Required,
}

/// Plan for a field.
#[derive(Clone, Copy, Debug)]
pub struct FieldPlan {
    pub index: usize,
    pub offset: usize,
    pub name: &'static str,
    pub fill_rule: FillRule,
    pub validators: SliceRange,
}

/// How a deserializer is to go about a type.
#[derive(Clone, Copy, PartialEq, Eq, Structural, Debug)]
pub struct DeserStrategy {
    pub code: u32,
}

/// Plan nodes for the proxies of a type.
#[derive(Clone, Copy, PartialEq, Eq, Structural, Debug)]
pub struct ProxyNodes {
    /// The proxy that serves every format.
    pub any_format: Option<NodeId>,
}

/// What a node describes.
#[derive(Clone, Copy, PartialEq, Eq, Structural, Debug)]
pub enum TypePlanNodeKind {
    Struct(StructPlan),
    Enum(EnumPlan),
    Pointer { pointee: Option<NodeId> },
    /// A recursive type: everything is said at the node referred to.
    BackRef(NodeId),
    Unknown,
}

/// One type within the plan.
#[derive(Clone, Copy, PartialEq, Eq, Structural, Debug)]
pub struct TypePlanNode {
    pub shape: ShapeRef,
    pub kind: TypePlanNodeKind,
    pub strategy: DeserStrategy,
    pub proxies: ProxyNodes,
}

impl TypePlanNode {
    /// The node plans the fields of a struct or enum.
    pub open spec fn has_fields(self) -> bool {
        self.kind is Struct || self.kind is Enum
    }
}

/// The whole plan, with the shapes it speaks of.
#[derive(Debug)]
pub struct TypePlanCore {
    pub shapes: ShapeTable,
    pub nodes: Vec<TypePlanNode>,
    pub field_plans: Vec<FieldPlan>,
    pub variant_plans: Vec<VariantPlanMeta>,
    pub validator_fns: Vec<FnRef>,
}

impl TypePlanCore {
    /// The plan has this node.
    pub open spec fn has_node(self, id: NodeId) -> bool {
        id.index < self.nodes@.len()
    }

    /// The node of this number.
    pub open spec fn node_at(self, id: NodeId) -> TypePlanNode {
        self.nodes@[id.index as int]
    }

    /// The node that says everything about a type.
    pub open spec fn resolved(self, node: TypePlanNode) -> TypePlanNode {
        match node.kind {
            TypePlanNodeKind::BackRef(target) => self.node_at(target),
            _ => node,
        }
    }

    /// The field plans of a run.
    pub open spec fn fields_in(self, r: SliceRange) -> Seq<FieldPlan> {
        self.field_plans@.subrange(r.start as int, r.start + r.len)
    }

    /// The variant plans of a run.
    pub open spec fn variants_in(self, r: SliceRange) -> Seq<VariantPlanMeta> {
        self.variant_plans@.subrange(r.start as int, r.start + r.len)
    }

    /// The validators of a run.
    pub open spec fn validators_in(self, r: SliceRange) -> Seq<FnRef> {
        self.validator_fns@.subrange(r.start as int, r.start + r.len)
    }

    /// The node for what a pointer points to, where the plan has one.
    pub open spec fn pointer_inner(self, id: NodeId) -> Option<NodeId> {
        match self.resolved(self.node_at(id)).kind {
            TypePlanNodeKind::Pointer { pointee } => pointee,
            _ => None,
        }
    }

    /// The shape of the value from which a pointer is built: a `String` where it points to `str`.
    pub open spec fn staging_shape(self, pointee: ShapeRef) -> ShapeRef {
        if self.shapes.sized(pointee) is Some {
            pointee
        } else {
            self.shapes.string_shape
        }
    }

    /// A pointer that can be built from a pointee in memory of its own has a node for it.
    pub open spec fn pointer_ok(self, node: TypePlanNode) -> bool {
        match self.shapes.at(node.shape).def {
            Def::Pointer(p) => match p.pointee {
                Some(pointee) => p.is_constructible() && (self.shapes.sized(pointee) is Some
                    || pointee == self.shapes.str_shape) ==> {
                    &&& node.kind matches TypePlanNodeKind::Pointer { pointee: Some(inner) }
                    &&& self.has_node(inner)
                    &&& self.node_at(inner).shape == self.staging_shape(pointee)
                },
                None => true,
            },
            _ => true,
        }
    }

    /// A node fits into the plan. What has fields is neither a pointer nor an option.
    pub open spec fn node_ok(self, node: TypePlanNode) -> bool {
        &&& self.shapes.has(node.shape)
        &&& node.has_fields() ==> !(self.shapes.at(node.shape).def is Pointer) && !(
        self.shapes.at(node.shape).def is Option)
        &&& match node.kind {
            TypePlanNodeKind::Struct(p) => p.fields.fits(self.field_plans@.len()),
            TypePlanNodeKind::Enum(p) => p.variants.fits(self.variant_plans@.len()),
            TypePlanNodeKind::Pointer { pointee } => pointee matches Some(id) ==> self.has_node(id),
            TypePlanNodeKind::BackRef(target) => {
                &&& self.has_node(target)
                &&& !(self.node_at(target).kind is BackRef)
                &&& self.node_at(target).shape == node.shape
            },
            TypePlanNodeKind::Unknown => true,
        }
        &&& node.kind is BackRef || self.pointer_ok(node)
    }

    /// Field plans that only mention what the plan has.
    pub open spec fn plans_ok(self, plans: Seq<FieldPlan>) -> bool {
        forall|i: int|
            #![trigger plans[i]]
            0 <= i < plans.len() ==> {
                &&& plans[i].validators.fits(self.validator_fns@.len())
                &&& plans[i].fill_rule matches FillRule::Defaultable(FieldDefault::FromTrait(s))
                    ==> self.shapes.has(s)
            }
    }

    /// The plan and its shapes fit together.
    pub open spec fn wf(self) -> bool {
        &&& self.shapes.wf()
        &&& forall|i: int|
            #![trigger self.nodes@[i]]
            0 <= i < self.nodes@.len() ==> self.node_ok(self.nodes@[i])
        &&& self.plans_ok(self.field_plans@)
        &&& forall|i: int|
            #![trigger self.variant_plans@[i]]
            0 <= i < self.variant_plans@.len() ==> self.variant_plans@[i].fields.fits(
                self.field_plans@.len(),
            )
    }

    fn check_pointer(&self, node: &TypePlanNode) -> (r: bool)
        requires
            self.shapes.wf(),
            self.shapes.has(node.shape),
        ensures
            r == self.pointer_ok(*node),
    {
        let t = &self.shapes;
        if let Def::Pointer(p) = &t.get(node.shape).def {
            if let Some(pointee) = p.pointee {
                assert(t.shape_ok(t.shapes@[node.shape.id as int]));
                let sized = t.sized_layout(pointee).is_some();
                if p.constructible_from_pointee() && (sized || pointee == t.str_shape) {
                    let staging = if sized {
                        pointee
                    } else {
                        t.string_shape
                    };
                    return match node.kind {
                        TypePlanNodeKind::Pointer { pointee: Some(inner) } => inner.index
                            < self.nodes.len() && self.nodes[inner.index].shape == staging,
                        _ => false,
                    };
                }
            }
        }
        true
    }

    fn check_node(&self, node: &TypePlanNode) -> (r: bool)
        requires
            self.shapes.wf(),
        ensures
            r == self.node_ok(*node),
    {
        if node.shape.id >= self.shapes.shapes.len() {
            return false;
        }
        let n: usize = self.nodes.len();
        let has_fields = match node.kind {
            TypePlanNodeKind::Struct(_) | TypePlanNodeKind::Enum(_) => true,
            _ => false,
        };
        let is_held = match &self.shapes.get(node.shape).def {
            Def::Pointer(_) | Def::Option(_) => true,
            _ => false,
        };
        if has_fields && is_held {
            return false;
        }
        match node.kind {
            TypePlanNodeKind::Struct(p) => p.fields.is_within(self.field_plans.len())
                && self.check_pointer(node),
            TypePlanNodeKind::Enum(p) => p.variants.is_within(self.variant_plans.len())
                && self.check_pointer(node),
            TypePlanNodeKind::Pointer { pointee } => (match pointee {
                Some(id) => id.index < n,
                None => true,
            }) && self.check_pointer(node),
            TypePlanNodeKind::BackRef(target) => target.index < n && (
            match self.nodes[target.index].kind {
                TypePlanNodeKind::BackRef(_) => false,
                _ => true,
            }) && self.nodes[target.index].shape == node.shape,
            TypePlanNodeKind::Unknown => self.check_pointer(node),
        }
    }

    fn check_field_plan(&self, plan: &FieldPlan) -> (r: bool)
        ensures
            r == (plan.validators.fits(self.validator_fns@.len()) && (
            plan.fill_rule matches FillRule::Defaultable(FieldDefault::FromTrait(s))
                ==> self.shapes.has(s))),
    {
        plan.validators.is_within(self.validator_fns.len()) && match plan.fill_rule {
            FillRule::Defaultable(FieldDefault::FromTrait(s)) => s.id < self.shapes.shapes.len(),
            _ => true,
        }
    }

    /// Whether the plan and its shapes fit together.
    pub fn validate(&self) -> (r: bool)
        ensures
            r == self.wf(),
    {
        if !self.shapes.validate() {
            return false;
        }
        let mut i: usize = 0;
        while i < self.nodes.len()
            invariant
                self.shapes.wf(),
                i <= self.nodes@.len(),
                forall|j: int|
                    #![trigger self.nodes@[j]]
                    0 <= j < i ==> self.node_ok(self.nodes@[j]),
            decreases self.nodes@.len() - i,
        {
            if !self.check_node(&self.nodes[i]) {
                assert(!self.node_ok(self.nodes@[i as int]));
                return false;
            }
            i = i + 1;
        }
        i = 0;
        while i < self.field_plans.len()
            invariant
                i <= self.field_plans@.len(),
                forall|j: int|
                    #![trigger self.field_plans@[j]]
                    0 <= j < i ==> {
                        &&& self.field_plans@[j].validators.fits(self.validator_fns@.len())
                        &&& self.field_plans@[j].fill_rule matches FillRule::Defaultable(
                            FieldDefault::FromTrait(s),
                        ) ==> self.shapes.has(s)
                    },
            decreases self.field_plans@.len() - i,
        {
            if !self.check_field_plan(&self.field_plans[i]) {
                assert(!self.plans_ok(self.field_plans@));
                return false;
            }
            i = i + 1;
        }
        i = 0;
        while i < self.variant_plans.len()
            invariant
                i <= self.variant_plans@.len(),
                forall|j: int|
                    #![trigger self.variant_plans@[j]]
                    0 <= j < i ==> self.variant_plans@[j].fields.fits(self.field_plans@.len()),
            decreases self.variant_plans@.len() - i,
        {
            if !self.variant_plans[i].fields.is_within(self.field_plans.len()) {
                assert(!self.wf());
                return false;
            }
            i = i + 1;
        }
        true
    }

    /// Looks a node up.
    pub fn node(&self, id: NodeId) -> (n: &TypePlanNode)
        requires
            self.has_node(id),
        ensures
            *n == self.node_at(id),
    {
        &self.nodes[id.index]
    }

    /// Follows the reference of a recursive type; other nodes are returned unchanged.
    pub fn resolve_backref<'a>(&'a self, node: &'a TypePlanNode) -> (n: &'a TypePlanNode)
        requires
            self.wf(),
            self.node_ok(*node),
        ensures
            *n == self.resolved(*node),
            self.node_ok(*n),
            n.shape == node.shape,
    {
        match node.kind {
            TypePlanNodeKind::BackRef(target) => self.node(target),
            _ => node,
        }
    }

    /// The plan of a struct node.
    pub fn struct_plan_by_id(&self, id: NodeId) -> (p: Option<&StructPlan>)
        requires
            self.wf(),
            self.has_node(id),
        ensures
            p is Some == self.resolved(self.node_at(id)).kind is Struct,
            p matches Some(s) ==> self.resolved(self.node_at(id)).kind == TypePlanNodeKind::Struct(
                *s,
            ),
    {
        let node = self.resolve_backref(self.node(id));
        match &node.kind {
            TypePlanNodeKind::Struct(p) => Some(p),
            _ => None,
        }
    }

    /// The plan of an enum node.
    pub fn enum_plan_by_id(&self, id: NodeId) -> (p: Option<&EnumPlan>)
        requires
            self.wf(),
            self.has_node(id),
        ensures
            p is Some == self.resolved(self.node_at(id)).kind is Enum,
            p matches Some(e) ==> self.resolved(self.node_at(id)).kind == TypePlanNodeKind::Enum(
                *e,
            ),
    {
        let node = self.resolve_backref(self.node(id));
        match &node.kind {
            TypePlanNodeKind::Enum(p) => Some(p),
            _ => None,
        }
    }

    /// The node for what a pointer points to.
    pub fn pointer_inner_node_id(&self, id: NodeId) -> (p: Option<NodeId>)
        requires
            self.wf(),
            self.has_node(id),
        ensures
            p == self.pointer_inner(id),
    {
        let node = self.resolve_backref(self.node(id));
        match node.kind {
            TypePlanNodeKind::Pointer { pointee } => pointee,
            _ => None,
        }
    }

    /// The field plans of a run.
    pub fn fields(&self, r: SliceRange) -> (s: &[FieldPlan])
        requires
            r.fits(self.field_plans@.len()),
        ensures
            s@ == self.fields_in(r),
    {
        assert(r.start + r.len <= self.field_plans.len());
        slice_subrange(self.field_plans.as_slice(), r.start, r.start + r.len)
    }

    /// The variant plans of a run.
    pub fn variants(&self, r: SliceRange) -> (s: &[VariantPlanMeta])
        requires
            r.fits(self.variant_plans@.len()),
        ensures
            s@ == self.variants_in(r),
    {
        assert(r.start + r.len <= self.variant_plans.len());
        slice_subrange(self.variant_plans.as_slice(), r.start, r.start + r.len)
    }

    /// The validators of a run.
    pub fn validators(&self, r: SliceRange) -> (s: &[FnRef])
        requires
            r.fits(self.validator_fns@.len()),
        ensures
            s@ == self.validators_in(r),
    {
        assert(r.start + r.len <= self.validator_fns.len());
        slice_subrange(self.validator_fns.as_slice(), r.start, r.start + r.len)
    }
}

} // verus!
