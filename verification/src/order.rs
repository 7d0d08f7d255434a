//! When the frames that were set aside can all be completed.
use vstd::prelude::*;

use crate::absorb::is_absorbing;
use crate::deferred::{consumed, is_owed, slice_finished, step_ready, walk, walk_step, Walk};
use crate::frame::{FrameOwnership, FrameView};
use crate::memory::{HostView, PtrUninit};
use crate::partial::PartialView;
use crate::path::{lemma_last_step_decides, lemma_path_order_total, PathStep, PathView};
use crate::pool::Pool;
use crate::shape::ShapeTable;
use crate::stored::{ascending, deepest, find, lemma_deepest, lemma_find, StoredView};
use crate::tracker::TrackerView;

verus! {

/// The path to a part of what is at `parent`.
pub open spec fn child_path(parent: PathView, step: PathStep) -> PathView {
    PathView { shape: parent.shape, steps: parent.steps.push(step) }
}

/// A frame was set aside under this path.
pub open spec fn is_stored(s: Seq<StoredView>, path: PathView) -> bool {
    exists|i: int| 0 <= i < s.len() && (#[trigger] s[i]).path == path
}

impl Pool {
    /// The frame at a path, if there is one.
    pub open spec fn frame_at(self, path: PathView) -> Option<FrameView> {
        if self.place(path) is Nowhere {
            None
        } else {
            Some(self.at(self.place(path)))
        }
    }

    /// The key of this entry of a map was set aside.
    pub open spec fn key_stored(self, map: PathView, i: u32) -> bool {
        is_stored(self.stored, child_path(map, PathStep::MapKey(i)))
    }

    /// The value of this entry of a map was set aside.
    pub open spec fn value_stored(self, map: PathView, i: u32) -> bool {
        is_stored(self.stored, child_path(map, PathStep::MapValue(i)))
    }

    /// The keys that were set aside follow on the entries that wait already, without a gap, and
    /// each value has a key that waits for it or was set aside too.
    pub open spec fn entries_in_line(
        self,
        map: PathView,
        entries: Seq<(PtrUninit, Option<PtrUninit>)>,
    ) -> bool {
        &&& forall|i: u32| #[trigger] self.key_stored(map, i) ==> i >= entries.len()
        &&& forall|i: u32, j: u32|
            #![trigger self.key_stored(map, i), self.key_stored(map, j)]
            self.key_stored(map, j) && entries.len() <= i < j ==> self.key_stored(map, i)
        &&& forall|i: u32| #[trigger]
            self.value_stored(map, i) ==> self.key_stored(map, i) || (i < entries.len()
                && entries[i as int].1 is None)
    }

    /// Keys and values of the frame at a path are in line, if it is a map.
    pub open spec fn keys_in_line(self, path: PathView) -> bool {
        self.frame_at(path) matches Some(f) ==> (f.tracker matches TrackerView::MapOf {
            pending_entries,
            ..
        } ==> self.entries_in_line(path, pending_entries))
    }

    /// A stored frame has a place to go: one that owns its memory has a parent that takes it
    /// over, the field of a struct is one that the struct has, and a key or value is what the map
    /// keeps.
    pub open spec fn entry_in_line(self, t: ShapeTable, i: int) -> bool {
        let e = self.stored[i];
        let parent = self.frame_at(e.path.parent());
        &&& e.path.steps.len() > 0
        &&& e.frame.ownership.releases() ==> parent is Some && is_absorbing(e.path.steps.last())
        &&& e.frame.ownership matches FrameOwnership::Field { field_idx } ==> (
        parent matches Some(f) ==> (t.is_struct(f.shape()) ==> field_idx < t.struct_fields(
            f.shape(),
        ).len()))
        &&& parent matches Some(f) ==> is_owed(t, f, e.path.steps.last(), e.frame)
        &&& self.keys_in_line(e.path.parent())
    }

    /// No two paths of stored frames lead through different parents to one frame of the stack.
    pub open spec fn one_parent(self, i: int, j: int) -> bool {
        let a = self.stored[i].path.parent();
        let b = self.stored[j].path.parent();
        !is_stored(self.stored, a) && !is_stored(self.stored, b) && a.steps.len() == b.steps.len()
            ==> a == b
    }

    /// Every stored frame has a place to go, and the entries of maps are in line.
    pub open spec fn in_line(self, t: ShapeTable) -> bool {
        &&& ascending(self.stored)
        &&& forall|i: int|
            #![trigger self.entry_in_line(t, i)]
            0 <= i < self.stored.len() ==> self.entry_in_line(t, i)
        &&& forall|i: int, j: int|
            #![trigger self.one_parent(i, j)]
            0 <= i < self.stored.len() && 0 <= j < self.stored.len() ==> self.one_parent(i, j)
    }
}

/// What is stored after one frame was taken out.
pub proof fn lemma_without(p: Pool, d: int)
    requires
        ascending(p.stored),
        p.is_countable(),
        0 <= d < p.stored.len(),
    ensures
        ascending(p.without(d).stored),
        forall|path: PathView|
            is_stored(p.without(d).stored, path) <==> (#[trigger] is_stored(p.stored, path) && path
                != p.stored[d].path),
        forall|path: PathView|
            path != p.stored[d].path ==> #[trigger] p.without(d).frame_at(path) == p.frame_at(path),
{
    let s = p.stored;
    let q = p.without(d).stored;
    assert forall|a: int, b: int|
        #![trigger q[a], q[b]]
        0 <= a < b < q.len() implies q[a].path.before(q[b].path) by {
        let a0 = if a < d { a } else { a + 1 };
        let b0 = if b < d { b } else { b + 1 };
        assert(s[a0].path.before(s[b0].path));
    }
    assert forall|path: PathView|
        is_stored(q, path) <==> (#[trigger] is_stored(s, path) && path != s[d].path) by {
        lemma_find(s, path);
        if is_stored(q, path) {
            let k = choose|k: int| 0 <= k < q.len() && (#[trigger] q[k]).path == path;
            let k0 = if k < d { k } else { k + 1 };
            assert(s[k0].path == path);
            lemma_find(s, s[d].path);
        }
        if is_stored(s, path) && path != s[d].path {
            let k = choose|k: int| 0 <= k < s.len() && (#[trigger] s[k]).path == path;
            let k0 = if k < d { k } else { k - 1 };
            assert(q[k0].path == path);
        }
    }
    assert forall|path: PathView| path != s[d].path implies #[trigger] p.without(d).frame_at(path)
        == p.frame_at(path) by {
        lemma_find(s, path);
        lemma_find(q, path);
        if is_stored(s, path) {
            let k = choose|k: int| 0 <= k < s.len() && (#[trigger] s[k]).path == path;
            let k0 = if k < d { k } else { k - 1 };
            assert(q[k0] == s[k]);
        }
    }
}

/// What is where after one frame was replaced.
proof fn lemma_with(p: Pool, path: PathView, f: FrameView)
    requires
        ascending(p.stored),
        p.is_countable(),
        !(p.place(path) is Nowhere),
    ensures
        ascending(p.with(p.place(path), f).stored),
        p.with(p.place(path), f).stored.len() == p.stored.len(),
        p.with(p.place(path), f).stack.len() == p.stack.len(),
        forall|k: int|
            #![trigger p.with(p.place(path), f).stored[k]]
            0 <= k < p.stored.len() ==> p.with(p.place(path), f).stored[k].path
                == p.stored[k].path && (p.stored[k].path != path ==> p.with(
                p.place(path),
                f,
            ).stored[k] == p.stored[k]),
        is_stored(p.stored, path) ==> p.with(
            p.place(path),
            f,
        ).stored[find(p.stored, path)->0].frame == f,
        forall|x: PathView|
            is_stored(p.with(p.place(path), f).stored, x) <==> #[trigger] is_stored(p.stored, x),
        p.with(p.place(path), f).frame_at(path) == Some(f),
        forall|x: PathView|
            x != path && (is_stored(p.stored, x) || is_stored(p.stored, path) || x.steps.len()
                != path.steps.len()) ==> #[trigger] p.with(p.place(path), f).frame_at(x)
                == p.frame_at(x),
{
    let s = p.stored;
    let q = p.with(p.place(path), f);
    lemma_find(s, path);
    assert forall|k: int| #![trigger q.stored[k]] 0 <= k < s.len() implies q.stored[k].path
        == s[k].path && (s[k].path != path ==> q.stored[k] == s[k]) by {}
    assert forall|a: int, b: int|
        #![trigger q.stored[a], q.stored[b]]
        0 <= a < b < s.len() implies q.stored[a].path.before(q.stored[b].path) by {
        assert(s[a].path.before(s[b].path));
    }
    assert forall|x: PathView| is_stored(q.stored, x) <==> #[trigger] is_stored(s, x) by {
        if is_stored(q.stored, x) {
            let k = choose|k: int| 0 <= k < q.stored.len() && (#[trigger] q.stored[k]).path == x;
            assert(s[k].path == x);
        }
        if is_stored(s, x) {
            let k = choose|k: int| 0 <= k < s.len() && (#[trigger] s[k]).path == x;
            assert(q.stored[k].path == x);
        }
    }
    lemma_find(q.stored, path);
    assert forall|x: PathView|
        x != path && (is_stored(s, x) || is_stored(s, path) || x.steps.len()
            != path.steps.len()) implies #[trigger] q.frame_at(x) == p.frame_at(x) by {
        lemma_find(s, x);
        lemma_find(q.stored, x);
        if is_stored(s, x) {
            let k = choose|k: int| 0 <= k < s.len() && (#[trigger] s[k]).path == x;
            assert(q.stored[k] == s[k]);
        }
    }
}

/// A path is that of its parent, and one more step.
pub proof fn lemma_child_path(path: PathView)
    requires
        path.steps.len() > 0,
    ensures
        path == child_path(path.parent(), path.steps.last()),
{
    assert(path.steps =~= path.parent().steps.push(path.steps.last()));
}

/// Of two parts of one value the one whose step comes first is completed first.
proof fn lemma_first_step_first(s: Seq<StoredView>, parent: PathView, a: PathStep, b: PathStep)
    requires
        ascending(s),
        s.len() > 0,
        is_stored(s, child_path(parent, a)),
        s[deepest(s, s.len()) as int].path == child_path(parent, b),
    ensures
        !a.before(b),
{
    lemma_deepest(s, s.len());
    let d = deepest(s, s.len()) as int;
    let k = choose|k: int| 0 <= k < s.len() && (#[trigger] s[k]).path == child_path(parent, a);
    if a.before(b) {
        let x = child_path(parent, a);
        let y = child_path(parent, b);
        lemma_last_step_decides(x.steps, y.steps, parent.steps.len(), 0);
        assert(x.before(y));
        lemma_path_order_total(x, y);
        if d < k {
            assert(s[d].path.before(s[k].path));
        }
    }
}

/// The deepest stored frame can be dealt with.
proof fn lemma_step_ready(t: ShapeTable, w: Walk)
    requires
        w.pool.in_line(t),
        w.pool.is_countable(),
        w.pool.stored.len() > 0,
    ensures
        step_ready(t, w),
{
    reveal(FrameView::filled);
    reveal(FrameView::completed);
    let s = w.pool.stored;
    lemma_deepest(s, s.len());
    let d = deepest(s, s.len()) as int;
    let e = s[d];
    assert(w.pool.entry_in_line(t, d));
    lemma_without(w.pool, d);
    let pool = w.pool.without(d);
    let parent = e.path.parent();
    let step = e.path.steps.last();
    lemma_child_path(e.path);
    assert(parent.steps.len() < e.path.steps.len());
    assert(pool.frame_at(parent) == w.pool.frame_at(parent));
    if !(pool.place(parent) is Nowhere) && is_absorbing(step) {
        let f = pool.at(pool.place(parent));
        assert(w.pool.keys_in_line(parent));
        match (step, f.tracker) {
            (PathStep::MapKey(i), TrackerView::MapOf { pending_entries, .. }) => {
                assert(w.pool.key_stored(parent, i));
                if i > pending_entries.len() {
                    let first = pending_entries.len() as u32;
                    assert(w.pool.key_stored(parent, first));
                    lemma_first_step_first(
                        s,
                        parent,
                        PathStep::MapKey(first),
                        PathStep::MapKey(i),
                    );
                }
            },
            (PathStep::MapValue(i), TrackerView::MapOf { pending_entries, .. }) => {
                assert(w.pool.value_stored(parent, i));
                if w.pool.key_stored(parent, i) {
                    lemma_first_step_first(
                        s,
                        parent,
                        PathStep::MapKey(i),
                        PathStep::MapValue(i),
                    );
                }
            },
            _ => {},
        }
    }
}

/// Different parts have different paths.
pub proof fn lemma_child_paths_differ(a: PathView, x: PathStep, b: PathView, y: PathStep)
    ensures
        child_path(a, x) == child_path(b, y) ==> a == b && x == y,
{
    if child_path(a, x) == child_path(b, y) {
        assert(child_path(a, x).steps.drop_last() =~= a.steps);
        assert(child_path(b, y).steps.drop_last() =~= b.steps);
        assert(child_path(a, x).steps.last() == x);
        assert(child_path(b, y).steps.last() == y);
    }
}

/// The entries of a map stay in line when it takes over the next key or a value.
proof fn lemma_entries_stay_in_line(
    p: Pool,
    next: Pool,
    map: PathView,
    step: PathStep,
    entries: Seq<(PtrUninit, Option<PtrUninit>)>,
    after: Seq<(PtrUninit, Option<PtrUninit>)>,
)
    requires
        p.entries_in_line(map, entries),
        forall|x: PathView|
            is_stored(next.stored, x) <==> (#[trigger] is_stored(p.stored, x) && x != child_path(
                map,
                step,
            )),
        match step {
            PathStep::MapKey(i) => i == entries.len() && after.len() == entries.len() + 1
                && after[i as int].1 is None && forall|k: int|
                0 <= k < entries.len() ==> after[k] == entries[k],
            PathStep::MapValue(i) => after.len() == entries.len() && forall|k: int|
                0 <= k < entries.len() && k != i ==> after[k] == entries[k],
            _ => after == entries,
        },
    ensures
        next.entries_in_line(map, after),
{
    assert forall|i: u32|
        #![trigger next.key_stored(map, i)]
        #![trigger p.key_stored(map, i)]
        next.key_stored(map, i) == (p.key_stored(map, i) && step != PathStep::MapKey(i)) by {
        lemma_child_paths_differ(map, step, map, PathStep::MapKey(i));
        assert(is_stored(next.stored, child_path(map, PathStep::MapKey(i))) <==> (is_stored(
            p.stored,
            child_path(map, PathStep::MapKey(i)),
        ) && child_path(map, PathStep::MapKey(i)) != child_path(map, step)));
    }
    assert forall|i: u32|
        #![trigger next.value_stored(map, i)]
        #![trigger p.value_stored(map, i)]
        next.value_stored(map, i) == (p.value_stored(map, i) && step != PathStep::MapValue(i)) by {
        lemma_child_paths_differ(map, step, map, PathStep::MapValue(i));
        assert(is_stored(next.stored, child_path(map, PathStep::MapValue(i))) <==> (is_stored(
            p.stored,
            child_path(map, PathStep::MapValue(i)),
        ) && child_path(map, PathStep::MapValue(i)) != child_path(map, step)));
    }
    assert forall|i: u32| #[trigger] next.key_stored(map, i) implies i >= after.len() by {
        assert(p.key_stored(map, i));
    }
    assert forall|i: u32, j: u32|
        #![trigger next.key_stored(map, i), next.key_stored(map, j)]
        next.key_stored(map, j) && after.len() <= i < j implies next.key_stored(map, i) by {
        assert(p.key_stored(map, j));
        assert(p.key_stored(map, i));
    }
    assert forall|i: u32| #[trigger] next.value_stored(map, i) implies next.key_stored(map, i) || (i
        < after.len() && after[i as int].1 is None) by {
        assert(p.value_stored(map, i));
        if p.key_stored(map, i) {
            assert(next.key_stored(map, i) || step == PathStep::MapKey(i));
        }
    }
}

/// The entries of a map stay in line when a part of something else is taken out.
proof fn lemma_entries_beside(
    p: Pool,
    next: Pool,
    map: PathView,
    other: PathView,
    step: PathStep,
    entries: Seq<(PtrUninit, Option<PtrUninit>)>,
)
    requires
        p.entries_in_line(map, entries),
        map != other,
        forall|x: PathView|
            is_stored(next.stored, x) <==> (#[trigger] is_stored(p.stored, x) && x != child_path(
                other,
                step,
            )),
    ensures
        next.entries_in_line(map, entries),
{
    assert forall|i: u32| next.key_stored(map, i) == p.key_stored(map, i) by {
        lemma_child_paths_differ(other, step, map, PathStep::MapKey(i));
    }
    assert forall|i: u32| next.value_stored(map, i) == p.value_stored(map, i) by {
        lemma_child_paths_differ(other, step, map, PathStep::MapValue(i));
    }
}

/// The frame at `parent` after it took over the part behind `step`: its tracker, where it is a
/// map, holds one key or value more.
pub open spec fn took_part(f: FrameView, step: PathStep, after: FrameView) -> bool {
    &&& after.allocated == f.allocated
    &&& after.tracker matches TrackerView::MapOf { pending_entries: m1, .. } ==> (
    f.tracker matches TrackerView::MapOf { pending_entries: m, .. } && match step {
        PathStep::MapKey(_) => exists|key: PtrUninit| m1 == m.push((key, None)),
        PathStep::MapValue(i) => exists|e: (PtrUninit, Option<PtrUninit>)|
            m1 == m.update(i as int, e),
        _ => m1 == m,
    })
}

/// Taking the deepest frame out, and letting its parent take it over, keeps the rest in line.
proof fn lemma_rest_in_line(t: ShapeTable, p: Pool, d: int, next: Pool, f: FrameView, after: FrameView)
    requires
        p.in_line(t),
        p.is_countable(),
        p.stored.len() > 0,
        d == deepest(p.stored, p.stored.len()),
        ({
            let parent = p.stored[d].path.parent();
            let step = p.stored[d].path.steps.last();
            &&& next.is_countable()
            &&& ascending(next.stored)
            &&& next.stored.len() == p.stored.len() - 1
            &&& forall|x: PathView|
                is_stored(next.stored, x) <==> (#[trigger] is_stored(p.stored, x) && x
                    != p.stored[d].path)
            &&& forall|k: int|
                #![trigger next.stored[k]]
                0 <= k < next.stored.len() ==> exists|j: int|
                    0 <= j < p.stored.len() && j != d && (#[trigger] p.stored[j]).path
                        == next.stored[k].path && p.stored[j].frame.ownership
                        == next.stored[k].frame.ownership && p.stored[j].frame.shape()
                        == next.stored[k].frame.shape()
            &&& p.frame_at(parent) is Some ==> {
                &&& p.frame_at(parent) == Some(f)
                &&& next.frame_at(parent) == Some(after)
                &&& took_part(f, step, after)
                &&& f.in_order(step)
            }
            &&& p.frame_at(parent) is None ==> next.frame_at(parent) is None
            &&& forall|x: PathView|
                x != parent && x != p.stored[d].path && (is_stored(p.stored, x) || is_stored(
                    p.stored,
                    parent,
                ) || x.steps.len() != parent.steps.len()) ==> #[trigger] next.frame_at(x)
                    == p.frame_at(x)
        }),
    ensures
        next.in_line(t),
{
    let s = p.stored;
    lemma_deepest(s, s.len());
    let e = s[d];
    let parent = e.path.parent();
    let step = e.path.steps.last();
    assert(p.entry_in_line(t, d));
    lemma_child_path(e.path);
    lemma_find(s, e.path);
    assert forall|k: int|
        #![trigger next.entry_in_line(t, k)]
        0 <= k < next.stored.len() implies next.entry_in_line(t, k) by {
        let x = next.stored[k];
        let j = choose|j: int|
            0 <= j < s.len() && j != d && (#[trigger] s[j]).path == x.path
                && s[j].frame.ownership == x.frame.ownership && s[j].frame.shape()
                == x.frame.shape();
        assert(p.entry_in_line(t, j));
        let q = x.path.parent();
        assert(q.steps.len() < x.path.steps.len() <= e.path.steps.len());
        if q == parent {
            if p.frame_at(parent) is Some {
                match after.tracker {
                    TrackerView::MapOf { pending_entries: m1, .. } => {
                        match f.tracker {
                            TrackerView::MapOf { pending_entries: m, .. } => {
                                lemma_entries_stay_in_line(p, next, parent, step, m, m1);
                            },
                            _ => {},
                        }
                    },
                    _ => {},
                }
            }
        } else {
            assert(p.one_parent(j, d));
            assert(next.frame_at(q) == p.frame_at(q));
            match p.frame_at(q) {
                Some(g) => match g.tracker {
                    TrackerView::MapOf { pending_entries, .. } => {
                        lemma_entries_beside(p, next, q, parent, step, pending_entries);
                    },
                    _ => {},
                },
                None => {},
            }
        }
    }
    assert forall|i: int, j: int|
        #![trigger next.one_parent(i, j)]
        0 <= i < next.stored.len() && 0 <= j < next.stored.len() implies next.one_parent(i, j) by {
        let x = next.stored[i];
        let y = next.stored[j];
        let i0 = choose|i0: int| 0 <= i0 < s.len() && i0 != d && (#[trigger] s[i0]).path == x.path;
        let j0 = choose|j0: int| 0 <= j0 < s.len() && j0 != d && (#[trigger] s[j0]).path == y.path;
        assert(p.entry_in_line(t, i0));
        assert(p.entry_in_line(t, j0));
        assert(p.one_parent(i0, j0));
        assert(x.path.parent().steps.len() < e.path.steps.len());
        assert(y.path.parent().steps.len() < e.path.steps.len());
        assert(is_stored(next.stored, x.path.parent()) == is_stored(s, x.path.parent()));
        assert(is_stored(next.stored, y.path.parent()) == is_stored(s, y.path.parent()));
    }
}

/// Where a frame that was taken out came from.
proof fn lemma_rest_came_from(p: Pool, d: int)
    requires
        0 <= d < p.stored.len(),
    ensures
        ({
            let s = p.stored;
            let pool = p.without(d);
            forall|k: int|
                #![trigger pool.stored[k]]
                0 <= k < pool.stored.len() ==> exists|j: int|
                    0 <= j < s.len() && j != d && (#[trigger] s[j]).path == pool.stored[k].path
                        && s[j].frame.ownership == pool.stored[k].frame.ownership
                        && s[j].frame.shape() == pool.stored[k].frame.shape()
        }),
{
    let s = p.stored;
    let pool = p.without(d);
    assert forall|k: int|
        #![trigger pool.stored[k]]
        0 <= k < pool.stored.len() implies exists|j: int|
        0 <= j < s.len() && j != d && (#[trigger] s[j]).path == pool.stored[k].path
            && s[j].frame.ownership == pool.stored[k].frame.ownership && s[j].frame.shape()
            == pool.stored[k].frame.shape() by {
        let j = if k < d { k } else { k + 1 };
        assert(s[j] == pool.stored[k]);
    }
}

/// Taking the deepest frame out keeps the rest in line, if nothing is left of its parent.
proof fn lemma_rest_without_parent(t: ShapeTable, p: Pool, d: int)
    requires
        p.in_line(t),
        p.is_countable(),
        p.stored.len() > 0,
        d == deepest(p.stored, p.stored.len()),
        p.without(d).place(p.stored[d].path.parent()) is Nowhere,
    ensures
        p.without(d).in_line(t),
{
    lemma_deepest(p.stored, p.stored.len());
    assert(p.entry_in_line(t, d));
    lemma_without(p, d);
    let e = p.stored[d];
    let parent = e.path.parent();
    assert(parent.steps.len() < e.path.steps.len());
    let next = p.without(d);
    assert(next.frame_at(parent) == p.frame_at(parent));
    assert(next.frame_at(parent) is None);
    assert forall|x: PathView|
        is_stored(next.stored, x) <==> (#[trigger] is_stored(p.stored, x) && x != e.path) by {}
    assert forall|x: PathView|
        x != parent && x != e.path && (is_stored(p.stored, x) || is_stored(p.stored, parent)
            || x.steps.len() != parent.steps.len()) implies #[trigger] next.frame_at(x)
        == p.frame_at(x) by {}
    assert(next.stored.len() == p.stored.len() - 1);
    assert(next.is_countable());
    assert forall|k: int|
        #![trigger next.stored[k]]
        0 <= k < next.stored.len() implies exists|j: int|
        0 <= j < p.stored.len() && j != d && (#[trigger] p.stored[j]).path == next.stored[k].path
            && p.stored[j].frame.ownership == next.stored[k].frame.ownership
            && p.stored[j].frame.shape() == next.stored[k].frame.shape() by {
        let j = if k < d { k } else { k + 1 };
        assert(p.stored[j] == next.stored[k]);
    }
    lemma_rest_in_line(t, p, d, next, e.frame, e.frame);
}

/// Taking the deepest frame out, and letting its parent take it over, keeps the rest in line.
proof fn lemma_rest_with_parent(t: ShapeTable, p: Pool, d: int, after: FrameView)
    requires
        p.in_line(t),
        p.is_countable(),
        p.stored.len() > 0,
        d == deepest(p.stored, p.stored.len()),
        ({
            let pool = p.without(d);
            let at = pool.place(p.stored[d].path.parent());
            let step = p.stored[d].path.steps.last();
            &&& !(at is Nowhere)
            &&& took_part(pool.at(at), step, after)
            &&& pool.at(at).in_order(step)
            &&& after.ownership == pool.at(at).ownership
        }),
    ensures
        ({
            let pool = p.without(d);
            let at = pool.place(p.stored[d].path.parent());
            &&& pool.with(at, after).in_line(t)
            &&& pool.with(at, after).is_countable()
            &&& pool.with(at, after).stored.len() == p.stored.len() - 1
        }),
{
    let s = p.stored;
    lemma_deepest(s, s.len());
    assert(p.entry_in_line(t, d));
    lemma_without(p, d);
    lemma_rest_came_from(p, d);
    let pool = p.without(d);
    let e = s[d];
    let parent = e.path.parent();
    let at = pool.place(parent);
    let f = pool.at(at);
    let next = pool.with(at, after);
    assert(parent.steps.len() < e.path.steps.len());
    assert(pool.frame_at(parent) == p.frame_at(parent));
    lemma_with(pool, parent, after);
    lemma_find(pool.stored, parent);
    assert forall|k: int|
        #![trigger next.stored[k]]
        0 <= k < next.stored.len() implies exists|j: int|
        0 <= j < s.len() && j != d && (#[trigger] s[j]).path == next.stored[k].path
            && s[j].frame.ownership == next.stored[k].frame.ownership && s[j].frame.shape()
            == next.stored[k].frame.shape() by {
        assert(pool.stored[k].path == next.stored[k].path);
        assert(next.stored[k].frame.shape() == pool.stored[k].frame.shape());
        assert(next.stored[k].frame.ownership == pool.stored[k].frame.ownership);
    }
    assert forall|x: PathView|
        is_stored(next.stored, x) <==> (#[trigger] is_stored(s, x) && x != e.path) by {
        assert(is_stored(next.stored, x) <==> is_stored(pool.stored, x));
    }
    assert forall|x: PathView|
        x != parent && x != e.path && (is_stored(s, x) || is_stored(s, parent) || x.steps.len()
            != parent.steps.len()) implies #[trigger] next.frame_at(x) == p.frame_at(x) by {
        assert(is_stored(pool.stored, x) <==> is_stored(s, x));
        assert(is_stored(pool.stored, parent) <==> is_stored(s, parent));
        assert(pool.frame_at(x) == p.frame_at(x));
    }
    lemma_rest_in_line(t, p, d, next, f, after);
}

/// After the deepest frame was completed, the rest is in line.
proof fn lemma_step_keeps_line(t: ShapeTable, w: Walk)
    requires
        w.pool.in_line(t),
        w.pool.is_countable(),
        w.pool.stored.len() > 0,
        walk_step(t, w).failed is None,
    ensures
        walk_step(t, w).pool.in_line(t),
        walk_step(t, w).pool.is_countable(),
        walk_step(t, w).pool.stored.len() == w.pool.stored.len() - 1,
{
    let s = w.pool.stored;
    lemma_deepest(s, s.len());
    let d = deepest(s, s.len()) as int;
    let e = s[d];
    assert(w.pool.entry_in_line(t, d));
    lemma_step_ready(t, w);
    let pool = w.pool.without(d);
    let parent = e.path.parent();
    let step = e.path.steps.last();
    let at = pool.place(parent);
    let a = slice_finished(t, pool, e.path, e.frame, w.host, w.next_buffer);
    let filled = a.frame.filled(t);
    let done = filled.frame.completed(t);
    let h2 = a.host.plus(filled.ops).plus(done.ops);
    let next = walk_step(t, w).pool;
    assert(next == consumed(t, pool, e.path, done.frame, h2).pool);
    if at is Nowhere {
        lemma_rest_without_parent(t, w.pool, d);
    } else {
        let f = pool.at(at);
        let after = if is_absorbing(step) {
            f.absorbed(t, step, done.frame, h2).frame
        } else {
            match step {
                PathStep::Field(idx) => f.with_field(t, idx as usize),
                _ => f,
            }
        };
        assert(is_absorbing(step) ==> f.in_order(step));
        lemma_took_part(t, f, step, done.frame, h2);
        lemma_find(pool.stored, parent);
        if step is Variant {
            assert(pool.with(at, f) =~= pool);
        }
        assert(next == pool.with(at, after));
        lemma_rest_with_parent(t, w.pool, d, after);
    }
}

/// What taking over a part, or counting a field, does to a frame.
proof fn lemma_took_part(t: ShapeTable, f: FrameView, step: PathStep, child: FrameView, h: HostView)
    ensures
        is_absorbing(step) ==> took_part(f, step, f.absorbed(t, step, child, h).frame)
            && f.absorbed(t, step, child, h).frame.ownership == f.ownership,
        step matches PathStep::Field(idx) ==> took_part(f, step, f.with_field(t, idx as usize)),
        step is Variant ==> took_part(f, step, f),
{
    match (step, f.tracker) {
        (PathStep::MapValue(i), TrackerView::MapOf { pending_entries: m, .. }) => {
            let e = (m[i as int].0, Some(child.data));
            assert(m.update(i as int, e) == m.update(i as int, e));
        },
        (PathStep::MapKey(_), TrackerView::MapOf { pending_entries: m, .. }) => {
            assert(m.push((child.data, None)) == m.push((child.data, None)));
        },
        _ => {},
    }
}

proof fn lemma_walk_in_line(t: ShapeTable, w: Walk, n: nat)
    requires
        w.failed is None,
        w.pool.in_line(t),
        w.pool.is_countable(),
        n <= w.pool.stored.len(),
        walk(t, w, n).failed is None,
    ensures
        walk(t, w, n).pool.in_line(t),
        walk(t, w, n).pool.is_countable(),
        walk(t, w, n).pool.stored.len() == w.pool.stored.len() - n,
    decreases n,
{
    if n > 0 {
        lemma_walk_in_line(t, w, (n - 1) as nat);
        lemma_step_keeps_line(t, walk(t, w, (n - 1) as nat));
    }
}

/// Deferred mode can be left whenever every frame that was set aside has a place to go and the
/// keys and values of maps are in line: none of the frames that are completed first can spoil
/// this for those that follow, whatever the hooks answer.
pub proof fn law_frames_in_line_can_be_finished(p: PartialView, t: ShapeTable, h: HostView)
    requires
        p.pool().is_countable(),
        p.pool().in_line(t),
    ensures
        p.finishable(t, h),
{
    let w = p.walk_start(h);
    assert forall|n: nat|
        #![trigger walk(t, w, n)]
        n < w.pool.stored.len() && walk(t, w, n).failed is None implies step_ready(
        t,
        walk(t, w, n),
    ) by {
        lemma_walk_in_line(t, w, n);
        lemma_step_ready(t, walk(t, w, n));
    }
}

} // verus!
