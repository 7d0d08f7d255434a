//! Paths from the root of a value to one of its parts.
use vstd::prelude::*;

use crate::shape::ShapeRef;

verus! {

/// One step into a value.
#[derive(Clone, Copy, PartialEq, Eq, Structural, Debug)]
pub enum PathStep {
    /// A struct or variant field.
    Field(u32),
    /// An array or list element.
    Index(u32),
    /// An enum variant.
    Variant(u32),
    /// The key of a map entry.
    MapKey(u32),
    /// The value of a map entry.
    MapValue(u32),
    /// The value inside `Some`.
    OptionSome,
    /// What a pointer points to.
    Deref,
    /// The value inside a transparent wrapper.
    Inner,
    /// The proxy from which a value is converted.
    Proxy,
}

/// Steps that lead from a root shape to a part of a value.
#[derive(Debug)]
pub struct Path {
    pub shape: ShapeRef,
    pub steps: Vec<PathStep>,
}

/// A path as the contracts see it.
#[verifier::ext_equal]
pub struct PathView {
    pub shape: ShapeRef,
    pub steps: Seq<PathStep>,
}

impl View for Path {
    type V = PathView;

    open spec fn view(&self) -> PathView {
        PathView { shape: self.shape, steps: self.steps@ }
    }
}

impl PathStep {
    /// Position of the kind of step among all kinds.
    pub open spec fn rank(self) -> int {
        match self {
            PathStep::Field(_) => 0,
            PathStep::Index(_) => 1,
            PathStep::Variant(_) => 2,
            PathStep::MapKey(_) => 3,
            PathStep::MapValue(_) => 4,
            PathStep::OptionSome => 5,
            PathStep::Deref => 6,
            PathStep::Inner => 7,
            PathStep::Proxy => 8,
        }
    }

    /// The index that the step carries, 0 where it carries none.
    pub open spec fn index(self) -> int {
        match self {
            PathStep::Field(i) => i as int,
            PathStep::Index(i) => i as int,
            PathStep::Variant(i) => i as int,
            PathStep::MapKey(i) => i as int,
            PathStep::MapValue(i) => i as int,
            _ => 0,
        }
    }

    /// Steps are ordered by kind, then by index.
    pub open spec fn before(self, other: PathStep) -> bool {
        self.rank() < other.rank() || (self.rank() == other.rank() && self.index() < other.index())
    }

    fn exec_rank(self) -> (r: u8)
        ensures
            r == self.rank(),
    {
        match self {
            PathStep::Field(_) => 0,
            PathStep::Index(_) => 1,
            PathStep::Variant(_) => 2,
            PathStep::MapKey(_) => 3,
            PathStep::MapValue(_) => 4,
            PathStep::OptionSome => 5,
            PathStep::Deref => 6,
            PathStep::Inner => 7,
            PathStep::Proxy => 8,
        }
    }

    fn exec_index(self) -> (r: u32)
        ensures
            r == self.index(),
    {
        match self {
            PathStep::Field(i) => i,
            PathStep::Index(i) => i,
            PathStep::Variant(i) => i,
            PathStep::MapKey(i) => i,
            PathStep::MapValue(i) => i,
            _ => 0,
        }
    }

    /// Whether the step comes before another one.
    pub fn is_before(self, other: PathStep) -> (r: bool)
        ensures
            r == self.before(other),
    {
        let a: u8 = self.exec_rank();
        let b: u8 = other.exec_rank();
        a < b || (a == b && self.exec_index() < other.exec_index())
    }
}

/// Lexicographic order on steps, from position `i` on; a proper prefix comes first.
pub open spec fn steps_before(a: Seq<PathStep>, b: Seq<PathStep>, i: nat) -> bool
    decreases a.len() - i,
{
    if i >= a.len() {
        i < b.len()
    } else if i >= b.len() {
        false
    } else if a[i as int] == b[i as int] {
        steps_before(a, b, i + 1)
    } else {
        a[i as int].before(b[i as int])
    }
}

impl PathView {
    /// Paths are ordered by root shape, then by steps.
    pub open spec fn before(self, other: PathView) -> bool {
        if self.shape == other.shape {
            steps_before(self.steps, other.steps, 0)
        } else {
            self.shape.id < other.shape.id
        }
    }

    /// The path to what holds the part at this path.
    pub open spec fn parent(self) -> PathView {
        PathView {
            shape: self.shape,
            steps: if self.steps.len() == 0 {
                self.steps
            } else {
                self.steps.drop_last()
            },
        }
    }

    /// The path leads strictly below another one.
    pub open spec fn is_below(self, other: PathView) -> bool {
        &&& self.shape == other.shape
        &&& self.steps.len() > other.steps.len()
        &&& self.steps.subrange(0, other.steps.len() as int) == other.steps
    }
}

proof fn lemma_step_identity(a: PathStep, b: PathStep)
    ensures
        a.rank() == b.rank() && a.index() == b.index() ==> a == b,
{
}

proof fn lemma_steps_total(a: Seq<PathStep>, b: Seq<PathStep>, i: nat)
    requires
        i <= a.len(),
        i <= b.len(),
        forall|j: int| 0 <= j < i ==> a[j] == b[j],
    ensures
        a == b || steps_before(a, b, i) || steps_before(b, a, i),
        steps_before(a, b, i) ==> a != b && !steps_before(b, a, i),
    decreases a.len() - i,
{
    if i < a.len() && i < b.len() {
        if a[i as int] == b[i as int] {
            lemma_steps_total(a, b, i + 1);
        } else {
            lemma_step_identity(a[i as int], b[i as int]);
        }
    } else if i == a.len() && i == b.len() {
        assert(a =~= b);
    }
}

proof fn lemma_steps_transitive(a: Seq<PathStep>, b: Seq<PathStep>, c: Seq<PathStep>, i: nat)
    requires
        steps_before(a, b, i),
        steps_before(b, c, i),
    ensures
        steps_before(a, c, i),
    decreases a.len() - i,
{
    if i < a.len() {
        if a[i as int] == b[i as int] && b[i as int] == c[i as int] {
            lemma_steps_transitive(a, b, c, i + 1);
        }
    }
}

/// Paths that differ in their last step only are ordered by it.
pub proof fn lemma_last_step_decides(a: Seq<PathStep>, b: Seq<PathStep>, n: nat, i: nat)
    requires
        a.len() == n + 1,
        b.len() == n + 1,
        i <= n,
        forall|k: int| 0 <= k < n ==> a[k] == b[k],
        a[n as int].before(b[n as int]),
        a[n as int] != b[n as int],
    ensures
        steps_before(a, b, i),
    decreases n - i,
{
    if i < n {
        lemma_last_step_decides(a, b, n, i + 1);
    }
}

/// Of two different paths exactly one comes first.
pub proof fn lemma_path_order_total(a: PathView, b: PathView)
    ensures
        a == b || a.before(b) || b.before(a),
        a.before(b) ==> a != b && !b.before(a),
{
    if a.shape == b.shape {
        lemma_steps_total(a.steps, b.steps, 0);
    }
}

/// The order of paths is transitive.
pub proof fn lemma_path_order_transitive(a: PathView, b: PathView, c: PathView)
    requires
        a.before(b),
        b.before(c),
    ensures
        a.before(c),
{
    if a.shape == b.shape && b.shape == c.shape {
        lemma_steps_transitive(a.steps, b.steps, c.steps, 0);
    }
}

impl Path {
    /// The empty path.
    pub fn new(shape: ShapeRef) -> (p: Path)
        ensures
            p@ == (PathView { shape, steps: Seq::<PathStep>::empty() }),
    {
        Path { shape, steps: Vec::new() }
    }

    /// Adds a step at the end.
    pub fn push(&mut self, step: PathStep)
        ensures
            final(self)@ == (PathView { shape: old(self)@.shape, steps: old(self)@.steps.push(step) }),
    {
        self.steps.push(step);
    }

    /// Number of steps.
    pub fn len(&self) -> (n: usize)
        ensures
            n == self@.steps.len(),
    {
        self.steps.len()
    }

    /// The last step.
    pub fn last(&self) -> (s: Option<PathStep>)
        ensures
            s == (if self@.steps.len() == 0 {
                None
            } else {
                Some(self@.steps.last())
            }),
    {
        let n: usize = self.steps.len();
        if n == 0 {
            None
        } else {
            Some(self.steps[n - 1])
        }
    }

    /// The path without its last step.
    pub fn parent(&self) -> (p: Path)
        ensures
            p@ == self@.parent(),
    {
        let mut p = Path::new(self.shape);
        let n: usize = self.steps.len();
        let mut i: usize = 0;
        while i + 1 < n
            invariant
                n == self@.steps.len(),
                n == 0 ==> i == 0,
                n > 0 ==> i <= n - 1,
                p@.shape == self@.shape,
                p@.steps == self@.steps.subrange(0, i as int),
            decreases n - i,
        {
            p.push(self.steps[i]);
            i = i + 1;
            assert(p@.steps =~= self@.steps.subrange(0, i as int));
        }
        assert(p@.steps =~= self@.parent().steps);
        p
    }

    /// The same path.
    pub fn duplicate(&self) -> (p: Path)
        ensures
            p@ == self@,
    {
        let mut p = Path::new(self.shape);
        let mut i: usize = 0;
        while i < self.steps.len()
            invariant
                i <= self@.steps.len(),
                p@.shape == self@.shape,
                p@.steps == self@.steps.subrange(0, i as int),
            decreases self@.steps.len() - i,
        {
            p.push(self.steps[i]);
            i = i + 1;
            assert(p@.steps =~= self@.steps.subrange(0, i as int));
        }
        assert(p@.steps =~= self@.steps);
        p
    }

    /// Whether two paths are the same.
    pub fn same(&self, other: &Path) -> (r: bool)
        ensures
            r == (self@ == other@),
    {
        if self.shape != other.shape || self.steps.len() != other.steps.len() {
            return false;
        }
        let mut i: usize = 0;
        while i < self.steps.len()
            invariant
                i <= self@.steps.len(),
                self@.shape == other@.shape,
                self@.steps.len() == other@.steps.len(),
                forall|j: int| 0 <= j < i ==> self@.steps[j] == other@.steps[j],
            decreases self@.steps.len() - i,
        {
            if self.steps[i] != other.steps[i] {
                return false;
            }
            i = i + 1;
        }
        assert(self@.steps =~= other@.steps);
        true
    }

    /// Whether the path comes before another one.
    pub fn is_before(&self, other: &Path) -> (r: bool)
        ensures
            r == self@.before(other@),
    {
        if self.shape != other.shape {
            return self.shape.id < other.shape.id;
        }
        let mut i: usize = 0;
        while i < self.steps.len() && i < other.steps.len() && self.steps[i] == other.steps[i]
            invariant
                i <= self@.steps.len(),
                i <= other@.steps.len(),
                self@.shape == other@.shape,
                self@.before(other@) == steps_before(self@.steps, other@.steps, i as nat),
            decreases self@.steps.len() - i,
        {
            i = i + 1;
        }
        if i >= self.steps.len() {
            i < other.steps.len()
        } else if i >= other.steps.len() {
            false
        } else {
            self.steps[i].is_before(other.steps[i])
        }
    }

    /// Whether the path leads strictly below another one.
    pub fn is_below(&self, other: &Path) -> (r: bool)
        ensures
            r == self@.is_below(other@),
    {
        if self.shape != other.shape || self.steps.len() <= other.steps.len() {
            return false;
        }
        let mut i: usize = 0;
        while i < other.steps.len()
            invariant
                i <= other@.steps.len() < self@.steps.len(),
                self@.shape == other@.shape,
                forall|j: int| 0 <= j < i ==> self@.steps[j] == other@.steps[j],
            decreases other@.steps.len() - i,
        {
            if self.steps[i] != other.steps[i] {
                assert(self@.steps.subrange(0, other@.steps.len() as int)[i as int]
                    != other@.steps[i as int]);
                return false;
            }
            i = i + 1;
        }
        assert(self@.steps.subrange(0, other@.steps.len() as int) =~= other@.steps);
        true
    }
}

} // verus!
