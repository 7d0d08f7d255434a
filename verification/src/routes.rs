//! Which paths lead where, how they are ordered, and what is found under them.
use vstd::prelude::*;

use crate::error::ReflectErrorKind;
use crate::frame::FrameView;
use crate::partial::{
    innermost_field, navigation, navigation_steps, shown_path, shown_steps, step_index, PartialView,
};
use crate::path::{steps_before, PathStep, PathView};
use crate::plan::{NodeId, SliceRange, TypePlanCore, TypePlanNodeKind};
use crate::pool::{Place, Pool};
use crate::shape::{SequenceType, ShapeTable, Type, UserType};
use crate::stored::{ascending, deepest, find, lemma_deepest, lemma_find, StoredView};
use crate::tracker::TrackerView;

verus! {

/// The step into the part that a frame works on says which kind of part that is, and which one. A
/// frame that works on no part, or on one that cannot be entered again, adds no step.
pub proof fn law_step_into_the_current_part(f: FrameView, idx: usize)
    requires
        idx <= u32::MAX,
    ensures
        match f.tracker {
            TrackerView::Struct { current_child, .. } => {
                &&& current_child == Some(idx) ==> navigation(f) == Some(PathStep::Field(idx as u32))
                &&& current_child is None ==> navigation(f) is None
            },
            TrackerView::Enum { current_child, .. } => {
                &&& current_child == Some(idx) ==> navigation(f) == Some(PathStep::Field(idx as u32))
                &&& current_child is None ==> navigation(f) is None
            },
            TrackerView::List { current_child, .. } => {
                &&& current_child == Some(idx) ==> navigation(f) == Some(PathStep::Index(idx as u32))
                &&& current_child is None ==> navigation(f) is None
            },
            TrackerView::Array { current_child, .. } => {
                &&& current_child == Some(idx) ==> navigation(f) == Some(PathStep::Index(idx as u32))
                &&& current_child is None ==> navigation(f) is None
            },
            TrackerView::SmartPointerSlice { current_child, .. } => {
                &&& current_child == Some(idx) ==> navigation(f) == Some(PathStep::Index(idx as u32))
                &&& current_child is None ==> navigation(f) is None
            },
            TrackerView::MapOf { current_entry_index, building_key, .. } => {
                &&& current_entry_index == Some(idx) && building_key ==> navigation(f) == Some(
                    PathStep::MapKey(idx as u32),
                )
                &&& current_entry_index == Some(idx) && !building_key ==> navigation(f) == Some(
                    PathStep::MapValue(idx as u32),
                )
                &&& current_entry_index is None ==> navigation(f) is None
            },
            TrackerView::Option { building_inner, .. } => navigation(f) == if building_inner {
                Some(PathStep::OptionSome)
            } else {
                None
            },
            TrackerView::SmartPointer { building_inner, .. } => navigation(f) == if building_inner {
                Some(PathStep::Deref)
            } else {
                None
            },
            TrackerView::Inner { building_inner } => navigation(f) == if building_inner {
                Some(PathStep::Inner)
            } else {
                None
            },
            _ => navigation(f) is None,
        },
{
}

proof fn lemma_navigation(s: Seq<FrameView>, n: nat)
    requires
        n <= s.len(),
    ensures
        navigation_steps(s, n) == Seq::new(
            n,
            |k: int|
                (match navigation(s[k]) {
                    Some(x) => seq![x],
                    None => Seq::empty(),
                }) + (if k + 1 < s.len() && s[k + 1].using_custom_deserialization {
                    seq![PathStep::Proxy]
                } else {
                    Seq::empty()
                }),
        ).flatten(),
    decreases n,
{
    let step = |k: int|
        (match navigation(s[k]) {
            Some(x) => seq![x],
            None => Seq::empty(),
        }) + (if k + 1 < s.len() && s[k + 1].using_custom_deserialization {
            seq![PathStep::Proxy]
        } else {
            Seq::empty()
        });
    if n == 0 {
        assert(Seq::new(n, step) =~= Seq::empty());
    } else {
        let m = (n - 1) as nat;
        lemma_navigation(s, m);
        Seq::new(m, step).lemma_flatten_push(step(m as int));
        assert(Seq::new(n, step) =~= Seq::new(m, step).push(step(m as int)));
        assert(navigation_steps(s, n) =~= navigation_steps(s, m) + step(m as int));
    }
}

/// The path to a part leads from the root through all frames of the stack, from the bottom up: each
/// adds the step into the part that it works on, and a step into a proxy where the next frame is
/// one. The path of the current frame leads through the frames below it.
pub proof fn law_paths_lead_through_the_stack(p: PartialView, t: ShapeTable)
    requires
        p.stack.len() > 0,
    ensures
        ({
            let s = p.stack;
            let step = |k: int|
                (match navigation(s[k]) {
                    Some(x) => seq![x],
                    None => Seq::empty(),
                }) + (if k + 1 < s.len() && s[k + 1].using_custom_deserialization {
                    seq![PathStep::Proxy]
                } else {
                    Seq::empty()
                });
            &&& p.derived_path(t) == (PathView {
                shape: s[0].allocated.shape,
                steps: Seq::new(s.len(), step).flatten(),
            })
            &&& p.storage_path(t) == (PathView {
                shape: s[0].allocated.shape,
                steps: Seq::new((s.len() - 1) as nat, step).flatten(),
            })
        }),
{
    lemma_navigation(p.stack, p.stack.len());
    lemma_navigation(p.stack, (p.stack.len() - 1) as nat);
}

proof fn lemma_shown(t: ShapeTable, s: Seq<FrameView>, n: nat)
    requires
        n <= s.len(),
    ensures
        shown_path(t, s, n) == Seq::new(n, |k: int| shown_steps(t, s[k])).flatten(),
    decreases n,
{
    let step = |k: int| shown_steps(t, s[k]);
    if n == 0 {
        assert(Seq::new(n, step) =~= Seq::empty());
    } else {
        let m = (n - 1) as nat;
        lemma_shown(t, s, m);
        Seq::new(m, step).lemma_flatten_push(step(m as int));
        assert(Seq::new(n, step) =~= Seq::new(m, step).push(step(m as int)));
        assert(shown_path(t, s, n) =~= shown_path(t, s, m) + step(m as int));
    }
}

/// An error says where it happened: at the current frame, on the way from the root through all
/// frames, from the bottom up. A struct shows the field that it works on, an enum its variant and
/// then the field, a list or array the element, and a pointer that it is one.
pub proof fn law_errors_say_where(p: PartialView, t: ShapeTable, kind: ReflectErrorKind)
    requires
        p.stack.len() > 0,
    ensures
        ({
            let s = p.stack;
            let e = p.err(t, kind);
            &&& e.kind == kind
            &&& e.path == (PathView {
                shape: s[0].allocated.shape,
                steps: Seq::new(s.len(), |k: int| shown_steps(t, s[k])).flatten(),
            })
        }),
{
    lemma_shown(t, p.stack, p.stack.len());
}

/// What a frame shows in an error, by its type and by the part that it works on.
pub proof fn law_what_a_frame_shows(t: ShapeTable, f: FrameView, idx: usize)
    requires
        idx <= u32::MAX,
    ensures
        ({
            let shown = shown_steps(t, f);
            match (t.at(f.allocated.shape).ty, f.tracker) {
                (
                    Type::User(UserType::Struct(_)),
                    TrackerView::Struct { current_child, .. },
                ) => {
                    &&& current_child == Some(idx) ==> shown == seq![PathStep::Field(idx as u32)]
                    &&& current_child is None ==> shown.len() == 0
                },
                (
                    Type::User(UserType::Enum(_)),
                    TrackerView::Enum { variant_idx, current_child, .. },
                ) => variant_idx <= u32::MAX ==> {
                    &&& current_child == Some(idx) ==> shown == seq![
                        PathStep::Variant(variant_idx as u32),
                        PathStep::Field(idx as u32),
                    ]
                    &&& current_child is None ==> shown == seq![
                        PathStep::Variant(variant_idx as u32),
                    ]
                },
                (Type::User(UserType::Opaque), TrackerView::List { current_child, .. }) => {
                    &&& current_child == Some(idx) ==> shown == seq![PathStep::Index(idx as u32)]
                    &&& current_child is None ==> shown.len() == 0
                },
                (
                    Type::Sequence(SequenceType::Array(_)),
                    TrackerView::Array { current_child, .. },
                ) => {
                    &&& current_child == Some(idx) ==> shown == seq![PathStep::Index(idx as u32)]
                    &&& current_child is None ==> shown.len() == 0
                },
                (Type::Pointer, _) => shown == seq![PathStep::Deref],
                _ => shown.len() == 0,
            }
        }),
{
    let shown = shown_steps(t, f);
    if let TrackerView::Enum { variant_idx, current_child, .. } = f.tracker {
        if current_child == Some(idx) {
            assert(seq![PathStep::Variant(step_index(variant_idx))] + seq![
                PathStep::Field(step_index(idx)),
            ] =~= seq![
                PathStep::Variant(step_index(variant_idx)),
                PathStep::Field(step_index(idx)),
            ]);
        } else if current_child is None {
            assert(seq![PathStep::Variant(step_index(variant_idx))] + Seq::<PathStep>::empty()
                =~= seq![PathStep::Variant(step_index(variant_idx))]);
        }
    }
}

/// Of two steps of one kind the one with the lower index comes first. All keys of a map come before
/// all of its values, fields before elements, and no step before itself.
pub proof fn law_steps_are_ordered(i: u32, j: u32, a: PathStep, b: PathStep)
    ensures
        PathStep::Field(i).before(PathStep::Field(j)) <==> i < j,
        PathStep::Index(i).before(PathStep::Index(j)) <==> i < j,
        PathStep::Variant(i).before(PathStep::Variant(j)) <==> i < j,
        PathStep::MapKey(i).before(PathStep::MapKey(j)) <==> i < j,
        PathStep::MapValue(i).before(PathStep::MapValue(j)) <==> i < j,
        PathStep::Field(i).before(PathStep::Index(j)),
        PathStep::Index(i).before(PathStep::Variant(j)),
        PathStep::Variant(i).before(PathStep::MapKey(j)),
        PathStep::MapKey(i).before(PathStep::MapValue(j)),
        PathStep::MapValue(i).before(PathStep::OptionSome),
        PathStep::OptionSome.before(PathStep::Deref),
        PathStep::Deref.before(PathStep::Inner),
        PathStep::Inner.before(PathStep::Proxy),
        !a.before(a),
        a.before(b) ==> !b.before(a),
        a == b || a.before(b) || b.before(a),
{
}

proof fn lemma_first_difference(a: Seq<PathStep>, b: Seq<PathStep>, k: nat, i: nat)
    requires
        i <= k,
        k <= a.len(),
        k <= b.len(),
        forall|j: int| 0 <= j < k ==> #[trigger] a[j] == b[j],
        k < a.len() && k < b.len() ==> a[k as int] != b[k as int],
    ensures
        k < a.len() && k < b.len() ==> (steps_before(a, b, i) <==> a[k as int].before(b[k as int])),
        k == a.len() ==> (steps_before(a, b, i) <==> k < b.len()),
        k == b.len() ==> !steps_before(a, b, i),
    decreases k - i,
{
    if i < k {
        assert(a[i as int] == b[i as int]);
        lemma_first_difference(a, b, k, i + 1);
    }
}

/// Paths of one root are ordered by the first step in which they differ, and a path comes before
/// all that lead on from it. Paths of different roots are ordered by root.
pub proof fn law_paths_are_ordered(a: PathView, b: PathView, k: nat)
    requires
        k <= a.steps.len(),
        k <= b.steps.len(),
        forall|j: int| 0 <= j < k ==> #[trigger] a.steps[j] == b.steps[j],
        k < a.steps.len() && k < b.steps.len() ==> a.steps[k as int] != b.steps[k as int],
    ensures
        a.shape != b.shape ==> (a.before(b) <==> a.shape.id < b.shape.id),
        a.shape == b.shape ==> {
            &&& k < a.steps.len() && k < b.steps.len() ==> (a.before(b)
                <==> a.steps[k as int].before(b.steps[k as int]))
            &&& k == a.steps.len() ==> (a.before(b) <==> k < b.steps.len())
            &&& k == b.steps.len() ==> !a.before(b)
        },
{
    lemma_first_difference(a.steps, b.steps, k, 0);
}

/// The parent of a path is the path without its last step, and every path but that of the root
/// leads below its parent.
pub proof fn law_parents_are_one_step_shorter(path: PathView, other: PathView, step: PathStep)
    ensures
        path.parent().shape == path.shape,
        path.steps.len() > 0 ==> path.parent().steps == path.steps.drop_last(),
        path.steps.len() == 0 ==> path.parent() == path,
        path.steps.len() > 0 ==> path.is_below(path.parent()),
        (PathView { shape: path.shape, steps: path.steps.push(step) }).parent() == path,
        path.is_below(other) <==> path.shape == other.shape && path.steps.len() > other.steps.len()
            && forall|i: int|
            0 <= i < other.steps.len() ==> #[trigger] path.steps[i] == other.steps[i],
{
    let child = PathView { shape: path.shape, steps: path.steps.push(step) };
    assert(child.steps.drop_last() =~= path.steps);
    if path.steps.len() > 0 {
        assert(path.steps.subrange(0, path.parent().steps.len() as int) =~= path.parent().steps);
    }
    if path.shape == other.shape && path.steps.len() > other.steps.len() && forall|i: int|
        0 <= i < other.steps.len() ==> #[trigger] path.steps[i] == other.steps[i] {
        assert(path.steps.subrange(0, other.steps.len() as int) =~= other.steps);
    }
    if path.is_below(other) {
        assert forall|i: int| 0 <= i < other.steps.len() implies #[trigger] path.steps[i]
            == other.steps[i] by {
            assert(path.steps.subrange(0, other.steps.len() as int)[i] == path.steps[i]);
        }
    }
}

/// What is set aside is found under its path, and nothing is found where nothing was set aside. A
/// frame on the stack is found under a path of as many steps as there are frames below it, unless
/// one was set aside under that path.
pub proof fn law_what_is_found_under_a_path(pool: Pool, path: PathView, i: int)
    requires
        ascending(pool.stored),
        pool.is_countable(),
    ensures
        0 <= i < pool.stored.len() && pool.stored[i].path == path ==> {
            &&& find(pool.stored, path) == Some(i)
            &&& pool.place(path) == Place::Stored(i as usize)
            &&& pool.frame_at(path) == Some(pool.stored[i].frame)
        },
        (forall|j: int|
            0 <= j < pool.stored.len() ==> (#[trigger] pool.stored[j]).path != path) ==> {
            &&& find(pool.stored, path) is None
            &&& path.steps.len() < pool.stack.len() ==> {
                &&& pool.place(path) == Place::Stack(path.steps.len() as usize)
                &&& pool.frame_at(path) == Some(pool.stack[path.steps.len() as int])
            }
            &&& path.steps.len() >= pool.stack.len() ==> pool.frame_at(path) is None
        },
{
    lemma_find(pool.stored, path);
}

/// Of the stored frames the deepest is one with the longest path, and of several the first.
pub proof fn law_the_deepest_has_the_longest_path(s: Seq<StoredView>)
    requires
        s.len() > 0,
    ensures
        ({
            let d = deepest(s, s.len()) as int;
            &&& 0 <= d < s.len()
            &&& forall|j: int|
                0 <= j < s.len() ==> (#[trigger] s[j]).path.steps.len() <= s[d].path.steps.len()
            &&& forall|j: int|
                0 <= j < d ==> (#[trigger] s[j]).path.steps.len() < s[d].path.steps.len()
        }),
{
    lemma_deepest(s, s.len());
}

/// Replacing the frame at a place replaces that frame, and no other.
pub proof fn law_frames_are_replaced_alone(pool: Pool, place: Place, other: Place, f: FrameView)
    requires
        pool.has(place),
        pool.has(other),
    ensures
        pool.with(place, f).at(place) == f,
        other != place ==> pool.with(place, f).at(other) == pool.at(other),
        pool.with(place, f).stored.len() == pool.stored.len(),
        pool.with(place, f).stack.len() == pool.stack.len(),
        forall|i: int|
            0 <= i < pool.stored.len() ==> (#[trigger] pool.with(place, f).stored[i]).path
                == pool.stored[i].path,
        pool.has(place) <==> match place {
            Place::Stored(i) => i < pool.stored.len(),
            Place::Stack(k) => k < pool.stack.len(),
            Place::Nowhere => false,
        },
{
}

/// The current frame is the last one of the stack. Replacing it, pushing one and popping one change
/// no other frame, and nothing else of the value.
pub proof fn law_the_stack_is_a_stack(p: PartialView, f: FrameView)
    requires
        p.stack.len() > 0,
    ensures
        p.top() == p.stack[p.stack.len() - 1],
        p.with_top(f) == (PartialView { stack: p.stack.update(p.stack.len() - 1, f), ..p }),
        p.pushed(f) == (PartialView { stack: p.stack.push(f), ..p }),
        p.popped() == (PartialView { stack: p.stack.drop_last(), ..p }),
        p.pushed(f).top() == f,
        p.pushed(f).popped() == p,
        p.with_top(f).top() == f,
        p.pool().stack == p.stack,
        p.deferred is None ==> p.pool().stored.len() == 0,
        p.deferred matches Some(d) ==> p.pool().stored == d.stored,
        p.active_top() == if p.state is Active {
            Some(p.stack[p.stack.len() - 1])
        } else {
            None
        },
{
    assert(p.pushed(f).popped().stack =~= p.stack);
}

/// The nearest field is that of the innermost frame which is on one.
pub proof fn law_nearest_field(t: ShapeTable, s: Seq<FrameView>, n: nat, k: int)
    requires
        n <= s.len(),
        0 <= k < n ==> s[k].field(t) is Some,
        forall|j: int| k < j < n ==> (#[trigger] s[j]).field(t) is None,
        -1 <= k < n,
    ensures
        k >= 0 ==> innermost_field(t, s, n) == s[k].field(t),
        k < 0 ==> innermost_field(t, s, n) is None,
    decreases n,
{
    if n > 0 {
        if k < n - 1 {
            assert(s[n - 1].field(t) is None);
            law_nearest_field(t, s, (n - 1) as nat, k);
        }
    }
}

/// The node of a recursive type is the one that it refers to, and any other node is itself. What a
/// pointer points to is planned at the node that the pointer's node names.
pub proof fn law_plans_are_looked_up(plan: TypePlanCore, id: NodeId, r: SliceRange)
    ensures
        plan.node_at(id) == plan.nodes@[id.index as int],
        plan.has_node(id) <==> id.index < plan.nodes@.len(),
        ({
            let node = plan.nodes@[id.index as int];
            &&& node.kind matches TypePlanNodeKind::BackRef(target) ==> plan.resolved(node)
                == plan.nodes@[target.index as int]
            &&& !(node.kind is BackRef) ==> plan.resolved(node) == node
            &&& node.kind matches TypePlanNodeKind::Pointer { pointee } ==> plan.pointer_inner(id)
                == pointee
            &&& !(node.kind is Pointer) && !(node.kind is BackRef) ==> plan.pointer_inner(id) is None
        }),
        r.start + r.len <= plan.validator_fns@.len() ==> plan.validators_in(r).len() == r.len,
        r.start + r.len <= plan.validator_fns@.len() ==> forall|i: int|
            0 <= i < r.len ==> #[trigger] plan.validators_in(r)[i] == plan.validator_fns@[r.start + i],
{
}

} // verus!
