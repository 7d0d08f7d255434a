//! That frames stay in line while parts are entered, set aside and entered again, so that deferred
//! mode can be left in the end.
use vstd::prelude::*;

use crate::absorb::is_absorbing;
use crate::deferred::is_owed;
use crate::end::parted;
use crate::frame::FrameView;
use crate::memory::{HostView, PtrUninit};
use crate::order::{
    child_path, is_stored, law_frames_in_line_can_be_finished, lemma_child_path,
    lemma_child_paths_differ, lemma_without,
};
use crate::partial::{navigation, navigation_steps, PartialView};
use crate::path::{PathStep, PathView};
use crate::plan::TypePlanCore;
use crate::pool::Pool;
use crate::shape::ShapeTable;
use crate::stored::{
    ascending, find, inserted, lemma_find, lemma_inserted, lemma_lower_bound, lower_bound,
    StoredView,
};
use crate::tracker::TrackerView;

verus! {

/// A path is part of another one.
pub open spec fn is_on(path: PathView, longer: PathView) -> bool {
    &&& path.shape == longer.shape
    &&& path.steps.len() <= longer.steps.len()
    &&& path.steps == longer.steps.take(path.steps.len() as int)
}

impl Pool {
    /// The parents of stored frames are set aside too, or they are on the way that leads to `path`.
    pub open spec fn leads_along(self, path: PathView) -> bool {
        forall|i: int|
            #![trigger self.stored[i]]
            0 <= i < self.stored.len() ==> is_stored(self.stored, self.stored[i].path.parent())
                || is_on(self.stored[i].path.parent(), path)
    }
}

/// Each frame of a stack but the first is one step further than the one below it.
pub open spec fn has_one_step_each(stack: Seq<FrameView>) -> bool {
    forall|k: int|
        #![trigger stack[k]]
        0 < k < stack.len() ==> (navigation(stack[k - 1]) is Some)
            != stack[k].using_custom_deserialization
}

impl PartialView {
    /// Every frame that was set aside has a place to go, the entries of maps are in line, and the
    /// parents of stored frames are set aside too or are on the stack. Each frame of the stack is one
    /// step of the path to the current frame. Only proxies are converted.
    pub open spec fn is_in_line(self, t: ShapeTable) -> bool {
        let pool = self.pool();
        &&& pool.in_line(t)
        &&& pool.leads_along(self.storage_path(t))
        &&& has_one_step_each(self.stack)
        &&& forall|i: int|
            #![trigger pool.stored[i]]
            0 <= i < pool.stored.len() && pool.stored[i].frame.using_custom_deserialization
                ==> pool.stored[i].path.steps.last() is Proxy
    }

    /// It is the turn of the current frame to be set aside: its path and that of its parent are
    /// free, and it has a parent that will take it over if it owns its memory. A key of a map is one
    /// that the map keeps, and those before it are there; a value of a map is one that the map keeps,
    /// and its key is there and waits for it.
    pub open spec fn is_in_turn(self, t: ShapeTable) -> bool {
        let path = self.storage_path(t);
        let pool = self.pool();
        let below = self.popped().top();
        let step = path.steps.last();
        &&& !is_stored(pool.stored, path)
        &&& !is_stored(pool.stored, path.parent())
        &&& self.top().ownership.releases() ==> is_absorbing(step)
        &&& is_owed(t, below, step, self.top())
        &&& match (step, below.tracker) {
            (PathStep::MapKey(i), TrackerView::MapOf { pending_entries, .. }) => {
                &&& i >= pending_entries.len()
                &&& forall|j: u32|
                    pending_entries.len() <= j < i ==> #[trigger] pool.key_stored(path.parent(), j)
            },
            (PathStep::MapValue(i), TrackerView::MapOf { pending_entries, .. }) => pool.key_stored(
                path.parent(),
                i,
            ) || (i < pending_entries.len() && pending_entries[i as int].1 is None),
            _ => true,
        }
    }
}

impl PartialView {
    /// A part of the current frame was set aside.
    pub open spec fn has_stored_parts(self, t: ShapeTable) -> bool {
        exists|i: int|
            0 <= i < self.pool().stored.len() && (#[trigger] self.pool().stored[i]).path.parent()
                == self.storage_path(t)
    }
}

/// Two states of a frame have the same shape, and the later one is a map only if the earlier one is,
/// with the same entries.
pub open spec fn is_similar(f: FrameView, g: FrameView) -> bool {
    &&& g.shape() == f.shape()
    &&& g.tracker matches TrackerView::MapOf { pending_entries: after, .. } ==> (
    f.tracker matches TrackerView::MapOf { pending_entries, .. } && pending_entries == after)
}

/// What is found at a path is similar to what was.
pub open spec fn is_kept(p: Pool, q: Pool, x: PathView) -> bool {
    match (p.frame_at(x), q.frame_at(x)) {
        (Some(f), Some(g)) => is_similar(f, g),
        (None, None) => true,
        _ => false,
    }
}

/// A path is on the way that it is.
proof fn lemma_is_on_itself(path: PathView)
    ensures
        is_on(path, path),
{
    assert(path.steps.take(path.steps.len() as int) =~= path.steps);
}

/// What is on a way is on a longer one.
proof fn lemma_is_on_longer(x: PathView, path: PathView, longer: PathView)
    requires
        is_on(x, path),
        is_on(path, longer),
    ensures
        is_on(x, longer),
{
    assert(longer.steps.take(path.steps.len() as int).take(x.steps.len() as int)
        =~= longer.steps.take(x.steps.len() as int));
}

/// On one way there is one path of each length.
proof fn lemma_one_way(x: PathView, y: PathView, path: PathView)
    requires
        is_on(x, path),
        is_on(y, path),
        x.steps.len() == y.steps.len(),
    ensures
        x == y,
{
}

proof fn lemma_steps_len(stack: Seq<FrameView>, n: nat)
    requires
        has_one_step_each(stack),
        n < stack.len(),
    ensures
        navigation_steps(stack, n).len() == n,
    decreases n,
{
    if n > 0 {
        lemma_steps_len(stack, (n - 1) as nat);
        assert(stack[n as int] == stack[n as int]);
    }
}

proof fn lemma_same_steps(a: Seq<FrameView>, b: Seq<FrameView>, n: nat)
    requires
        n < a.len(),
        n < b.len(),
        forall|i: int| 0 <= i < n ==> navigation(#[trigger] a[i]) == navigation(b[i]),
        forall|i: int|
            0 <= i <= n ==> (#[trigger] a[i]).using_custom_deserialization
                == b[i].using_custom_deserialization,
    ensures
        navigation_steps(a, n) == navigation_steps(b, n),
    decreases n,
{
    if n > 0 {
        lemma_same_steps(a, b, (n - 1) as nat);
        assert(navigation(a[n - 1]) == navigation(b[n - 1]));
        assert(a[n as int].using_custom_deserialization == b[n as int].using_custom_deserialization);
    }
}

/// Frames stay in line if none is new among the stored ones, and what their parents are is kept.
proof fn lemma_kept_in_line(t: ShapeTable, p: Pool, q: Pool, way: PathView)
    requires
        p.in_line(t),
        ascending(q.stored),
        q.leads_along(way),
        forall|k: int|
            #![trigger q.stored[k]]
            0 <= k < q.stored.len() ==> {
                &&& exists|j: int| 0 <= j < p.stored.len() && p.stored[j] == q.stored[k]
                &&& is_kept(p, q, q.stored[k].path.parent())
            },
        forall|x: PathView, i: u32| #[trigger] q.key_stored(x, i) == p.key_stored(x, i),
        forall|x: PathView, i: u32| #[trigger] q.value_stored(x, i) == p.value_stored(x, i),
    ensures
        q.in_line(t),
{
    assert forall|k: int| #![trigger q.entry_in_line(t, k)] 0 <= k < q.stored.len() implies q.entry_in_line(
        t,
        k,
    ) by {
        let e = q.stored[k];
        let j = choose|j: int| 0 <= j < p.stored.len() && p.stored[j] == q.stored[k];
        assert(p.entry_in_line(t, j));
        let x = e.path.parent();
        assert(is_kept(p, q, x));
        match q.frame_at(x) {
            Some(g) => match g.tracker {
                TrackerView::MapOf { pending_entries, .. } => {
                    assert(p.entries_in_line(x, pending_entries));
                    assert(q.entries_in_line(x, pending_entries)) by {
                        assert forall|i: u32, j: u32|
                            #![trigger q.key_stored(x, i), q.key_stored(x, j)]
                            q.key_stored(x, j) && pending_entries.len() <= i < j implies q.key_stored(
                            x,
                            i,
                        ) by {
                            assert(p.key_stored(x, j));
                            assert(p.key_stored(x, i));
                        }
                        assert forall|i: u32| #[trigger] q.key_stored(x, i) implies i
                            >= pending_entries.len() by {
                            assert(p.key_stored(x, i));
                        }
                        assert forall|i: u32| #[trigger] q.value_stored(x, i) implies q.key_stored(
                            x,
                            i,
                        ) || (i < pending_entries.len() && pending_entries[i as int].1 is None) by {
                            assert(p.value_stored(x, i));
                            assert(q.key_stored(x, i) == p.key_stored(x, i));
                        }
                    }
                },
                _ => {},
            },
            None => {},
        }
    }
    lemma_parents_on_one_way(q, way);
}

/// Parents on one way are one for each length.
proof fn lemma_parents_on_one_way(q: Pool, way: PathView)
    requires
        q.leads_along(way),
    ensures
        forall|a: int, b: int|
            #![trigger q.one_parent(a, b)]
            0 <= a < q.stored.len() && 0 <= b < q.stored.len() ==> q.one_parent(a, b),
{
    assert forall|a: int, b: int|
        #![trigger q.one_parent(a, b)]
        0 <= a < q.stored.len() && 0 <= b < q.stored.len() implies q.one_parent(a, b) by {
        let x = q.stored[a].path.parent();
        let y = q.stored[b].path.parent();
        assert(is_stored(q.stored, x) || is_on(x, way));
        assert(is_stored(q.stored, y) || is_on(y, way));
        if !is_stored(q.stored, x) && !is_stored(q.stored, y) && x.steps.len() == y.steps.len() {
            lemma_one_way(x, y, way);
        }
    }
}

/// Deferred mode starts in line: nothing is set aside yet.
pub proof fn law_deferred_mode_starts_in_line(p: PartialView, t: ShapeTable, h: HostView)
    requires
        p.deferring(t, h).result is Ok,
        has_one_step_each(p.stack),
    ensures
        p.deferring(t, h).partial.is_in_line(t),
{
}

/// The current frame changes, and maybe a frame is pushed on it.
proof fn lemma_top_changed(p: PartialView, q: PartialView, t: ShapeTable)
    requires
        p.is_in_line(t),
        p.pool().is_countable(),
        p.stack.len() > 0,
        q.pool().stored == p.pool().stored,
        q.stack.len() == p.stack.len() || q.stack.len() == p.stack.len() + 1,
        forall|k: int| 0 <= k < p.stack.len() - 1 ==> q.stack[k] == p.stack[k],
        is_similar(p.top(), q.stack[p.stack.len() - 1]),
        q.stack[p.stack.len() - 1].using_custom_deserialization
            == p.top().using_custom_deserialization,
        has_one_step_each(q.stack),
    ensures
        q.is_in_line(t),
{
    let n = (p.stack.len() - 1) as nat;
    let s = p.pool().stored;
    lemma_steps_len(p.stack, n);
    lemma_steps_len(q.stack, (q.stack.len() - 1) as nat);
    lemma_same_steps(p.stack, q.stack, n);
    let way = q.storage_path(t);
    let before = p.storage_path(t);
    assert(q.root(t) == p.root(t));
    assert(is_on(before, way)) by {
        if q.stack.len() == p.stack.len() {
            lemma_is_on_itself(way);
        } else {
            assert(way.steps.take(n as int) =~= before.steps);
        }
    }
    assert forall|k: int| #![trigger q.pool().stored[k]] 0 <= k < s.len() implies is_stored(
        q.pool().stored,
        q.pool().stored[k].path.parent(),
    ) || is_on(q.pool().stored[k].path.parent(), way) by {
        let x = s[k].path.parent();
        assert(is_stored(s, x) || is_on(x, before));
        if is_on(x, before) {
            lemma_is_on_longer(x, before, way);
        }
    }
    assert forall|k: int| #![trigger q.pool().stored[k]] 0 <= k < s.len() implies {
        &&& exists|j: int| 0 <= j < s.len() && s[j] == q.pool().stored[k]
        &&& is_kept(p.pool(), q.pool(), q.pool().stored[k].path.parent())
    } by {
        let x = s[k].path.parent();
        lemma_find(s, x);
        assert(is_stored(s, x) || is_on(x, before));
    }
    assert forall|x: PathView, i: u32| #[trigger] q.pool().key_stored(x, i) == p.pool().key_stored(
        x,
        i,
    ) by {}
    assert forall|x: PathView, i: u32| #[trigger] q.pool().value_stored(x, i)
        == p.pool().value_stored(x, i) by {}
    lemma_kept_in_line(t, p.pool(), q.pool(), way);
}

/// Working on the current frame keeps everything in line, as long as it stays what it is: a map with
/// the same entries, or no map.
pub proof fn law_working_on_a_frame_keeps_frames_in_line(p: PartialView, t: ShapeTable, f: FrameView)
    requires
        p.is_in_line(t),
        p.pool().is_countable(),
        p.stack.len() > 0,
        is_similar(p.top(), f),
        f.using_custom_deserialization == p.top().using_custom_deserialization,
    ensures
        p.with_top(f).is_in_line(t),
{
    let q = p.with_top(f);
    assert forall|k: int| #![trigger q.stack[k]] 0 < k < q.stack.len() implies (navigation(
        q.stack[k - 1],
    ) is Some) != q.stack[k].using_custom_deserialization by {
        assert((navigation(p.stack[k - 1]) is Some) != p.stack[k].using_custom_deserialization);
    }
    lemma_top_changed(p, q, t);
}

/// Entering a part of the current frame keeps everything in line: the frame works on that part from
/// now on, and stays what it is otherwise.
pub proof fn law_entering_a_part_keeps_frames_in_line(
    p: PartialView,
    t: ShapeTable,
    parent: FrameView,
    child: FrameView,
)
    requires
        p.is_in_line(t),
        p.pool().is_countable(),
        p.stack.len() > 0,
        is_similar(p.top(), parent),
        parent.using_custom_deserialization == p.top().using_custom_deserialization,
        navigation(parent) is Some,
        !child.using_custom_deserialization,
    ensures
        p.with_top(parent).pushed(child).is_in_line(t),
{
    let q = p.with_top(parent).pushed(child);
    assert forall|k: int| #![trigger q.stack[k]] 0 < k < q.stack.len() implies (navigation(
        q.stack[k - 1],
    ) is Some) != q.stack[k].using_custom_deserialization by {
        if k < p.stack.len() {
            assert((navigation(p.stack[k - 1]) is Some) != p.stack[k].using_custom_deserialization);
        }
    }
    lemma_top_changed(p, q, t);
}

/// The path to the pointee of the current frame, before and after it was entered again.
proof fn lemma_resumed_path(p: PartialView, p1: PartialView, t: ShapeTable, i: int)
    requires
        p.is_in_line(t),
        p.stack.len() > 0,
        p.deferred is Some,
        p.top().tracker matches TrackerView::SmartPointer { building_inner, .. } && building_inner,
        p.stored_pointee(t) == Some(i),
        p1.deferred == p.deferred,
        p1 == (PartialView { next_buffer: p1.next_buffer, ..p.with_top(p1.top()) }),
        p1.top().shape() == p.top().shape(),
        p1.top().using_custom_deserialization == p.top().using_custom_deserialization,
    ensures
        ({
            let at = p.derived_path(t);
            let q = p1.pointee_resumed(i);
            &&& 0 <= i < p.pool().stored.len()
            &&& p.pool().stored[i].path == at
            &&& at == child_path(p.storage_path(t), PathStep::Deref)
            &&& at.parent() == p.storage_path(t)
            &&& at.steps.len() == p.stack.len()
            &&& q.storage_path(t) == at
            &&& has_one_step_each(q.stack)
            &&& is_on(p.storage_path(t), at)
        }),
{
    let n = p.stack.len();
    let s = p.pool().stored;
    let at = p.derived_path(t);
    let way = p.storage_path(t);
    let q = p1.pointee_resumed(i);
    lemma_find(s, at);
    lemma_steps_len(p.stack, (n - 1) as nat);
    assert(at.steps =~= way.steps.push(PathStep::Deref));
    assert(at.steps.last() is Deref);
    assert(s[i].path == at);
    assert(!s[i].frame.using_custom_deserialization);
    assert forall|k: int| #![trigger q.stack[k]] 0 < k < q.stack.len() implies (navigation(
        q.stack[k - 1],
    ) is Some) != q.stack[k].using_custom_deserialization by {
        if k < n {
            assert((navigation(p.stack[k - 1]) is Some) != p.stack[k].using_custom_deserialization);
        }
    }
    lemma_steps_len(q.stack, n);
    lemma_same_steps(p.stack, q.stack, (n - 1) as nat);
    assert(q.root(t) == p.root(t));
    assert(q.storage_path(t).steps =~= at.steps);
    assert(at.steps.take(n - 1) =~= way.steps);
    assert(at.parent().steps =~= way.steps);
}

/// Taking a stored frame back to the stack keeps the others in line.
proof fn lemma_taken_back_in_line(t: ShapeTable, p: Pool, q: Pool, i: int, way: PathView)
    requires
        p.in_line(t),
        p.leads_along(way),
        p.is_countable(),
        p.stack.len() > 0,
        0 <= i < p.stored.len(),
        p.stored[i].path == child_path(way, PathStep::Deref),
        is_on(way, p.stored[i].path),
        way.steps.len() == p.stack.len() - 1,
        q.stored == p.stored.remove(i),
        q.stack.len() == p.stack.len() + 1,
        forall|k: int|
            #![trigger q.stack[k]]
            0 <= k < p.stack.len() ==> is_similar(p.stack[k], q.stack[k]),
        is_similar(p.stored[i].frame, q.stack[p.stack.len() as int]),
    ensures
        q.in_line(t),
        q.leads_along(p.stored[i].path),
{
    let s = p.stored;
    let r = q.stored;
    let at = s[i].path;
    lemma_is_on_itself(at);
    lemma_without(p, i);
    assert(r == p.without(i).stored);
    assert(at.steps.last() is Deref);
    assert forall|k: int| #![trigger r[k]] 0 <= k < r.len() implies exists|j: int|
        0 <= j < s.len() && s[j] == r[k] by {
        let j = if k < i { k } else { k + 1 };
        assert(s[j] == r[k]);
    }
    assert forall|k: int| #![trigger r[k]] 0 <= k < r.len() implies {
        &&& is_stored(r, r[k].path.parent()) || is_on(r[k].path.parent(), at)
        &&& is_kept(p, q, r[k].path.parent())
    } by {
        let j = choose|j: int| 0 <= j < s.len() && s[j] == r[k];
        let x = s[j].path.parent();
        assert(is_stored(s, x) || is_on(x, way));
        assert(is_stored(p.without(i).stored, x) <==> (is_stored(s, x) && x != at));
        if is_on(x, way) {
            lemma_is_on_longer(x, way, at);
        }
        lemma_resumed_kept(p, q, i, way, x);
    }
    assert forall|x: PathView, k: u32| #[trigger] q.key_stored(x, k) == p.key_stored(x, k) by {
        let y = child_path(x, PathStep::MapKey(k));
        assert(y.steps.last() is MapKey);
        assert(is_stored(p.without(i).stored, y) <==> (is_stored(s, y) && y != at));
    }
    assert forall|x: PathView, k: u32| #[trigger] q.value_stored(x, k) == p.value_stored(x, k) by {
        let y = child_path(x, PathStep::MapValue(k));
        assert(y.steps.last() is MapValue);
        assert(is_stored(p.without(i).stored, y) <==> (is_stored(s, y) && y != at));
    }
    lemma_kept_in_line(t, p, q, at);
}

/// Entering the pointee that was set aside keeps everything in line.
proof fn lemma_resumed_in_line(p: PartialView, p1: PartialView, t: ShapeTable, i: int)
    requires
        p.is_in_line(t),
        p.pool().is_countable(),
        p.stack.len() > 0,
        p.deferred is Some,
        p.top().tracker matches TrackerView::SmartPointer { building_inner, .. } && building_inner,
        p.stored_pointee(t) == Some(i),
        p1.deferred == p.deferred,
        p1 == (PartialView { next_buffer: p1.next_buffer, ..p.with_top(p1.top()) }),
        p1.top().shape() == p.top().shape(),
        p1.top().using_custom_deserialization == p.top().using_custom_deserialization,
    ensures
        p1.pointee_resumed(i).is_in_line(t),
{
    let n = p.stack.len();
    let s = p.pool().stored;
    let q = p1.pointee_resumed(i);
    lemma_resumed_path(p, p1, t, i);
    lemma_steps_len(p.stack, (n - 1) as nat);
    assert forall|k: int| #![trigger q.stack[k]] 0 <= k < n implies is_similar(
        p.stack[k],
        q.stack[k],
    ) by {}
    lemma_taken_back_in_line(t, p.pool(), q.pool(), i, p.storage_path(t));
    let r = q.pool().stored;
    assert forall|k: int|
        #![trigger r[k]]
        0 <= k < r.len() && r[k].frame.using_custom_deserialization implies r[k].path.steps.last() is Proxy by {
        let j = if k < i { k } else { k + 1 };
        assert(s[j] == r[k]);
    }
}

/// What the parents of stored frames are does not change when a stored frame is entered again.
proof fn lemma_resumed_kept(p: Pool, q: Pool, i: int, way: PathView, x: PathView)
    requires
        ascending(p.stored),
        p.is_countable(),
        p.stack.len() > 0,
        0 <= i < p.stored.len(),
        p.stored[i].path.steps.len() == p.stack.len(),
        way.steps.len() == p.stack.len() - 1,
        q.stored == p.stored.remove(i),
        q.stack.len() == p.stack.len() + 1,
        forall|k: int|
            #![trigger q.stack[k]]
            0 <= k < p.stack.len() ==> is_similar(p.stack[k], q.stack[k]),
        is_similar(p.stored[i].frame, q.stack[p.stack.len() as int]),
        is_stored(p.stored, x) || is_on(x, way),
    ensures
        is_kept(p, q, x),
{
    let at = p.stored[i].path;
    let rest = p.without(i);
    lemma_without(p, i);
    lemma_find(p.stored, x);
    lemma_find(rest.stored, x);
    assert(is_stored(rest.stored, x) == (is_stored(p.stored, x) && x != at));
    if is_stored(rest.stored, x) {
        assert(rest.frame_at(x) == p.frame_at(x));
        assert(q.frame_at(x) == rest.frame_at(x));
    } else if x == at {
        assert(p.frame_at(x) == Some(p.stored[i].frame));
        assert(q.frame_at(x) == Some(q.stack[p.stack.len() as int]));
    } else {
        let k = x.steps.len() as int;
        assert(p.frame_at(x) == Some(p.stack[k]));
        assert(q.frame_at(x) == Some(q.stack[k]));
    }
}

/// Making room in the current frame changes no other frame, and lets nothing wait in it.
proof fn lemma_room_made_top(p: PartialView, t: ShapeTable, h: HostView)
    requires
        p.stack.len() > 0,
        !(p.top().tracker is MapOf),
    ensures
        ({
            let p1 = p.room_made(t, h).partial;
            &&& p1.deferred == p.deferred
            &&& p1.pool().stored == p.pool().stored
            &&& p1 == (PartialView { next_buffer: p1.next_buffer, ..p.with_top(p1.top()) })
            &&& p1.top().shape() == p.top().shape()
            &&& p1.top().using_custom_deserialization == p.top().using_custom_deserialization
            &&& !(p1.top().tracker is MapOf)
        }),
{
}

/// Entering a new pointee, or failing to, keeps everything in line.
proof fn lemma_new_pointee_in_line(p: PartialView, plan: TypePlanCore, h: HostView)
    requires
        p.wf(plan),
        p.is_in_line(plan.shapes),
        p.pool().is_countable(),
        p.stored_pointee(plan.shapes) is None || !p.is_enterable(plan.shapes),
    ensures
        p.smart_ptr_begun(plan, h).partial.is_in_line(plan.shapes),
{
    let t = plan.shapes;
    let n = p.stack.len();
    assert(p.stack[n - 1].wf(plan));
    if t.at(p.top().shape()).def is Pointer {
        lemma_room_made_top(p, t, h);
        lemma_pointee_begun_in_line(p, plan, h);
    }
}

/// Entering a new pointee changes the current frame and pushes one, or changes the current frame.
proof fn lemma_pointee_begun_in_line(p: PartialView, plan: TypePlanCore, h: HostView)
    requires
        p.is_in_line(plan.shapes),
        p.pool().is_countable(),
        p.stack.len() > 0,
        !(p.top().tracker is MapOf),
        p.stored_pointee(plan.shapes) is None || !p.is_enterable(plan.shapes),
    ensures
        p.smart_ptr_begun(plan, h).partial.is_in_line(plan.shapes),
{
    let t = plan.shapes;
    let n = p.stack.len();
    lemma_room_made_top(p, t, h);
    let p1 = p.room_made(t, h).partial;
    let q = p.smart_ptr_begun(plan, h).partial;
    assert(q.pool().stored == p.pool().stored);
    assert(q.stack.len() == n || q.stack.len() == n + 1);
    assert forall|k: int| 0 <= k < n - 1 implies q.stack[k] == p.stack[k] by {
        assert(p1.stack[k] == p.stack[k]);
    }
    assert(is_similar(p.top(), q.stack[n - 1]));
    assert forall|k: int| #![trigger q.stack[k]] 0 < k < q.stack.len() implies (navigation(
        q.stack[k - 1],
    ) is Some) != q.stack[k].using_custom_deserialization by {
        if k < n {
            assert((navigation(p.stack[k - 1]) is Some) != p.stack[k].using_custom_deserialization);
        }
    }
    lemma_top_changed(p, q, t);
}

/// Entering what a smart pointer points to keeps everything in line, whether the pointee is new or was
/// set aside and is entered again, and also where it cannot be entered. A pointee that was set aside
/// can be entered again, if the pointer itself was not set aside too.
pub proof fn law_begin_smart_ptr_keeps_frames_in_line(p: PartialView, plan: TypePlanCore, h: HostView)
    requires
        p.wf(plan),
        p.is_in_line(plan.shapes),
        p.pool().is_countable(),
    ensures
        p.smart_ptr_begun(plan, h).partial.is_in_line(plan.shapes),
        !is_stored(p.pool().stored, p.storage_path(plan.shapes)) ==> p.resumable(plan.shapes),
{
    let t = plan.shapes;
    match p.stored_pointee(t) {
        Some(i) if p.is_enterable(t) => {
            let p1 = p.room_made(t, h).partial;
            lemma_room_made_top(p, t, h);
            lemma_resumed_in_line(p, p1, t, i);
            lemma_resumed_path(p, p1, t, i);
            lemma_find(p.pool().stored, p.storage_path(t));
            assert(p.pool().entry_in_line(t, i));
        },
        _ => {
            lemma_new_pointee_in_line(p, plan, h);
        },
    }
}

/// What is stored after one more frame was set aside under a free path.
proof fn lemma_inserted_stored(s: Seq<StoredView>, path: PathView, f: FrameView, x: PathView)
    requires
        ascending(s),
        !is_stored(s, path),
    ensures
        ascending(inserted(s, path, f)),
        inserted(s, path, f).len() == s.len() + 1,
        is_stored(inserted(s, path, f), x) == (is_stored(s, x) || x == path),
        forall|k: int|
            #![trigger inserted(s, path, f)[k]]
            0 <= k <= s.len() ==> inserted(s, path, f)[k] == (StoredView { path, frame: f })
                || exists|j: int| 0 <= j < s.len() && s[j] == inserted(s, path, f)[k],
        find(inserted(s, path, f), x) matches Some(k) ==> (if x == path {
            inserted(s, path, f)[k].frame == f
        } else {
            find(s, x) matches Some(j) && s[j] == inserted(s, path, f)[k]
        }),
        find(inserted(s, path, f), x) is Some == is_stored(inserted(s, path, f), x),
        find(s, x) is Some == is_stored(s, x),
{
    lemma_inserted(s, path, f);
    lemma_find(s, path);
    lemma_find(s, x);
    let r = inserted(s, path, f);
    let i = lower_bound(s, path, 0) as int;
    lemma_lower_bound(s, path, 0);
    assert(r == s.insert(i, StoredView { path, frame: f }));
    lemma_find(r, x);
    lemma_find(r, path);
    assert(r[i].path == path);
    assert forall|k: int| #![trigger r[k]] 0 <= k <= s.len() implies r[k] == (StoredView {
        path,
        frame: f,
    }) || exists|j: int| 0 <= j < s.len() && s[j] == r[k] by {
        if k < i {
            assert(s[k] == r[k]);
        } else if k > i {
            assert(s[k - 1] == r[k]);
        }
    }
    if is_stored(s, x) {
        let j = choose|j: int| 0 <= j < s.len() && (#[trigger] s[j]).path == x;
        let k = if j < i { j } else { j + 1 };
        assert(r[k] == s[j]);
    }
    if is_stored(r, x) && x != path {
        let k = choose|k: int| 0 <= k < r.len() && (#[trigger] r[k]).path == x;
        let j = if k < i { k } else { k - 1 };
        assert(s[j] == r[k]);
    }
}


/// The path of the current frame, and that of its parent once the frame was set aside.
proof fn lemma_put_aside_path(p: PartialView, t: ShapeTable, h: HostView)
    requires
        p.stack.len() >= 2,
        p.deferred is Some,
        has_one_step_each(p.stack),
    ensures
        ({
            let q = p.put_aside(t, h).partial;
            let path = p.storage_path(t);
            &&& path.steps.len() == p.stack.len() - 1
            &&& q.storage_path(t) == path.parent()
            &&& path == child_path(path.parent(), path.steps.last())
            &&& is_on(path.parent(), path)
            &&& has_one_step_each(q.stack)
            &&& q.stack.len() == p.stack.len() - 1
            &&& forall|k: int| 0 <= k < p.stack.len() - 2 ==> q.stack[k] == p.stack[k]
            &&& q.top() == parted(t, p.popped().top(), p.top(), h).parent
            &&& is_similar(p.popped().top(), q.top())
            &&& p.top().using_custom_deserialization ==> path.steps.last() is Proxy
        }),
{
    let q = p.put_aside(t, h).partial;
    let n = (p.stack.len() - 1) as nat;
    let path = p.storage_path(t);
    let below = p.popped().top();
    let a = parted(t, below, p.top(), h);
    assert(q.stack =~= p.stack.drop_last().update(n - 1, a.parent));
    lemma_steps_len(p.stack, n);
    lemma_child_path(path);
    assert(path.parent().steps =~= path.steps.take(n - 1));
    assert(a.parent.using_custom_deserialization == below.using_custom_deserialization);
    assert(is_similar(below, a.parent)) by {
        lemma_parted_similar(t, below, p.top(), h);
    }
    assert forall|k: int| #![trigger q.stack[k]] 0 < k < q.stack.len() implies (navigation(
        q.stack[k - 1],
    ) is Some) != q.stack[k].using_custom_deserialization by {
        assert((navigation(p.stack[k - 1]) is Some) != p.stack[k].using_custom_deserialization);
    }
    lemma_steps_len(p.stack, (n - 1) as nat);
    lemma_same_steps(p.stack, q.stack, (n - 1) as nat);
    assert((navigation(p.stack[n - 1]) is Some) != p.stack[n as int].using_custom_deserialization);
    assert(path.steps.take(n - 1) =~= navigation_steps(p.stack, (n - 1) as nat));
    assert(q.root(t) == p.root(t));
}

/// A parent stays what it is when a child is set aside.
proof fn lemma_parted_similar(t: ShapeTable, below: FrameView, child: FrameView, h: HostView)
    ensures
        is_similar(below, parted(t, below, child, h).parent),
{
}

/// A key or value that is set aside in its turn keeps the entries of its map in line, and anything
/// else keeps those of all maps.
proof fn lemma_entries_joined(
    before: Pool,
    after: Pool,
    map: PathView,
    path: PathView,
    entries: Seq<(PtrUninit, Option<PtrUninit>)>,
)
    requires
        before.entries_in_line(map, entries),
        ascending(before.stored),
        !is_stored(before.stored, path),
        path.steps.len() > 0,
        exists|f: FrameView| after.stored == inserted(before.stored, path, f),
        path.parent() == map ==> match path.steps.last() {
            PathStep::MapKey(i) => i >= entries.len() && forall|j: u32|
                entries.len() <= j < i ==> #[trigger] before.key_stored(map, j),
            PathStep::MapValue(i) => before.key_stored(map, i) || (i < entries.len()
                && entries[i as int].1 is None),
            _ => true,
        },
    ensures
        after.entries_in_line(map, entries),
{
    let f = choose|f: FrameView| after.stored == inserted(before.stored, path, f);
    lemma_child_path(path);
    assert forall|i: u32|
        #![trigger after.key_stored(map, i)]
        #![trigger before.key_stored(map, i)]
        after.key_stored(map, i) == (before.key_stored(map, i) || path == child_path(
            map,
            PathStep::MapKey(i),
        )) by {
        lemma_inserted_stored(before.stored, path, f, child_path(map, PathStep::MapKey(i)));
    }
    assert forall|i: u32|
        #![trigger after.value_stored(map, i)]
        after.value_stored(map, i) == (before.value_stored(map, i) || path == child_path(
            map,
            PathStep::MapValue(i),
        )) by {
        lemma_inserted_stored(before.stored, path, f, child_path(map, PathStep::MapValue(i)));
    }
    let up = path.parent();
    let last = path.steps.last();
    assert forall|i: u32| #[trigger] after.key_stored(map, i) implies i >= entries.len() by {
        lemma_child_paths_differ(up, last, map, PathStep::MapKey(i));
    }
    assert forall|i: u32, j: u32|
        #![trigger after.key_stored(map, i), after.key_stored(map, j)]
        after.key_stored(map, j) && entries.len() <= i < j implies after.key_stored(map, i) by {
        lemma_child_paths_differ(up, last, map, PathStep::MapKey(j));
        if before.key_stored(map, j) {
            assert(before.key_stored(map, i));
        } else {
            assert(before.key_stored(map, i));
        }
    }
    assert forall|i: u32| #[trigger] after.value_stored(map, i) implies after.key_stored(map, i) || (i
        < entries.len() && entries[i as int].1 is None) by {
        lemma_child_paths_differ(up, last, map, PathStep::MapValue(i));
        assert(after.key_stored(map, i) == (before.key_stored(map, i) || path == child_path(
            map,
            PathStep::MapKey(i),
        )));
    }
}

/// What is found at the path of a parent after the current frame was set aside.
proof fn lemma_put_aside_kept(p: PartialView, t: ShapeTable, h: HostView, x: PathView)
    requires
        p.is_in_line(t),
        p.stack.len() >= 2,
        p.deferred is Some,
        p.pool().is_countable(),
        p.is_in_turn(t),
        parted(t, p.popped().top(), p.top(), h).parting is Stored,
        is_stored(p.pool().stored, x) || is_on(x, p.storage_path(t)),
    ensures
        ({
            let after = p.put_aside(t, h).partial.pool();
            let path = p.storage_path(t);
            &&& is_kept(p.pool(), after, x)
            &&& x == path.parent() ==> p.pool().frame_at(x) == Some(p.popped().top())
        }),
{
    let path = p.storage_path(t);
    let s = p.pool().stored;
    let q = p.put_aside(t, h).partial;
    lemma_put_aside_path(p, t, h);
    lemma_find(s, path);
    lemma_inserted_stored(s, path, p.top(), x);
    assert(q.pool().stored == inserted(s, path, p.top()));
    if !is_stored(s, x) && x != path {
        assert(x.steps.len() < path.steps.len()) by {
            if x.steps.len() == path.steps.len() {
                lemma_is_on_itself(path);
                lemma_one_way(x, path, path);
            }
        }
        if x.steps.len() == path.steps.len() - 1 {
            lemma_one_way(x, path.parent(), path);
        }
    }
}

/// Setting a frame aside in its turn keeps everything in line, be it a field, an element, a pointee,
/// or an owned key or value of a map.
proof fn lemma_put_aside_in_line(p: PartialView, plan: TypePlanCore, h: HostView)
    requires
        p.wf(plan),
        p.is_in_line(plan.shapes),
        p.stack.len() >= 2,
        p.deferred is Some,
        p.pool().is_countable(),
        p.is_in_turn(plan.shapes),
        parted(plan.shapes, p.popped().top(), p.top(), h).parting is Stored,
    ensures
        p.put_aside(plan.shapes, h).partial.is_in_line(plan.shapes),
{
    let t = plan.shapes;
    let path = p.storage_path(t);
    let parent = path.parent();
    let s = p.pool().stored;
    let before = p.pool();
    let q = p.put_aside(t, h).partial;
    let after = q.pool();
    let r = after.stored;
    let child = p.top();
    assert(p.field_frame_ok(t, p.stack.len() - 1));
    lemma_put_aside_path(p, t, h);
    lemma_find(s, path);
    lemma_is_on_itself(path);
    lemma_is_on_itself(parent);
    assert(r == inserted(s, path, child));
    lemma_inserted_stored(s, path, child, path);
    assert forall|k: int| #![trigger r[k]] 0 <= k < r.len() implies is_stored(r, r[k].path.parent())
        || is_on(r[k].path.parent(), parent) by {
        let x = r[k].path.parent();
        lemma_inserted_stored(s, path, child, x);
        if r[k].path != path {
            let j = choose|j: int| 0 <= j < s.len() && s[j] == r[k];
            assert(is_stored(s, s[j].path.parent()) || is_on(s[j].path.parent(), path));
            if !is_stored(r, x) {
                assert(x.steps.len() < path.steps.len()) by {
                    if x.steps.len() == path.steps.len() {
                        lemma_one_way(x, path, path);
                    }
                }
                assert(parent.steps.take(x.steps.len() as int) =~= path.steps.take(
                    x.steps.len() as int,
                ));
            }
        }
    }
    assert forall|k: int| #![trigger after.entry_in_line(t, k)] 0 <= k < r.len() implies after.entry_in_line(
        t,
        k,
    ) by {
        let e = r[k];
        let x = e.path.parent();
        lemma_inserted_stored(s, path, child, x);
        if e.path == path {
            lemma_put_aside_kept(p, t, h, parent);
            lemma_find(r, path);
            assert(e.frame == child);
        } else {
            let j = choose|j: int| 0 <= j < s.len() && s[j] == r[k];
            assert(before.entry_in_line(t, j));
            assert(is_stored(s, s[j].path.parent()) || is_on(s[j].path.parent(), path));
            lemma_put_aside_kept(p, t, h, x);
        }
        match before.frame_at(x) {
            Some(f) => match f.tracker {
                TrackerView::MapOf { pending_entries, .. } => {
                    lemma_entries_so_far(before, t, x);
                    if x == parent {
                        lemma_put_aside_kept(p, t, h, parent);
                    }
                    lemma_entries_joined(before, after, x, path, pending_entries);
                },
                _ => {},
            },
            None => {},
        }
    }
    lemma_parents_on_one_way(after, parent);
    assert forall|k: int|
        #![trigger r[k]]
        0 <= k < r.len() && r[k].frame.using_custom_deserialization implies r[k].path.steps.last() is Proxy by {
        if r[k].path == path {
            lemma_find(r, path);
        } else {
            let j = choose|j: int| 0 <= j < s.len() && s[j] == r[k];
            assert(s[j].frame.using_custom_deserialization);
        }
    }
}

/// A map of which no part was set aside has its entries in line.
proof fn lemma_entries_so_far(p: Pool, t: ShapeTable, map: PathView)
    requires
        p.in_line(t),
        p.frame_at(map) matches Some(f) && f.tracker is MapOf,
    ensures
        p.entries_in_line(map, p.frame_at(map)->0.tracker->MapOf_pending_entries),
{
    let s = p.stored;
    if exists|j: int| 0 <= j < s.len() && (#[trigger] s[j]).path.parent() == map {
        let j = choose|j: int| 0 <= j < s.len() && (#[trigger] s[j]).path.parent() == map;
        assert(p.entry_in_line(t, j));
    } else {
        assert forall|i: u32| !#[trigger] p.key_stored(map, i) by {
            let y = child_path(map, PathStep::MapKey(i));
            assert(y.parent().steps =~= map.steps);
        }
        assert forall|i: u32| !#[trigger] p.value_stored(map, i) by {
            let y = child_path(map, PathStep::MapValue(i));
            assert(y.parent().steps =~= map.steps);
        }
    }
}

/// A frame that is dealt with at once, and of which no part was set aside, leaves everything in line.
proof fn lemma_settled_in_line(p: PartialView, t: ShapeTable, h: HostView)
    requires
        p.is_in_line(t),
        p.stack.len() >= 2,
        p.deferred is Some,
        p.pool().is_countable(),
        !p.has_stored_parts(t),
        !(parted(t, p.popped().top(), p.top(), h).parting is Stored),
    ensures
        p.put_aside(t, h).partial.is_in_line(t),
{
    let path = p.storage_path(t);
    let parent = path.parent();
    let s = p.pool().stored;
    let q = p.put_aside(t, h).partial;
    lemma_put_aside_path(p, t, h);
    lemma_is_on_itself(path);
    assert(q.pool().stored == s);
    assert forall|k: int| #![trigger s[k]] 0 <= k < s.len() implies {
        &&& is_stored(s, s[k].path.parent()) || is_on(s[k].path.parent(), parent)
        &&& is_kept(p.pool(), q.pool(), s[k].path.parent())
    } by {
        let x = s[k].path.parent();
        lemma_find(s, x);
        assert(is_stored(s, x) || is_on(x, path));
        if !is_stored(s, x) {
            assert(x.steps.len() < path.steps.len()) by {
                if x.steps.len() == path.steps.len() {
                    lemma_one_way(x, path, path);
                }
            }
            assert(parent.steps.take(x.steps.len() as int) =~= path.steps.take(
                x.steps.len() as int,
            ));
        }
    }
    assert forall|x: PathView, i: u32| #[trigger] q.pool().key_stored(x, i) == p.pool().key_stored(
        x,
        i,
    ) by {}
    assert forall|x: PathView, i: u32| #[trigger] q.pool().value_stored(x, i)
        == p.pool().value_stored(x, i) by {}
    lemma_kept_in_line(t, p.pool(), q.pool(), parent);
}

/// Ending a frame in deferred mode keeps everything in line, if the frame is set aside in its turn: a
/// field, an element, a pointee, or an owned key or value of a map. So does ending a frame that is
/// dealt with at once, if no part of it was set aside, ending the items of a slice, and an end that is
/// refused.
pub proof fn law_setting_aside_keeps_frames_in_line(p: PartialView, plan: TypePlanCore, h: HostView)
    requires
        p.wf(plan),
        p.is_in_line(plan.shapes),
        p.pool().is_countable(),
        p.deferred matches Some(d) && (p.stack.len() > 1 && p.stack.len() > d.start_depth
            && !p.at_slice_end() ==> if parted(plan.shapes, p.popped().top(), p.top(), h).parting is Stored {
            p.is_in_turn(plan.shapes)
        } else {
            !p.has_stored_parts(plan.shapes)
        }),
    ensures
        p.ended(plan, h).partial.is_in_line(plan.shapes),
{
    let t = plan.shapes;
    if p.at_slice_end() {
        let q = p.slice_ended(t, h).partial;
        assert(p.slice_ended(t, h).partial == p.with_top(q.top()));
        law_working_on_a_frame_keeps_frames_in_line(p, t, q.top());
    } else if p.stack.len() > 1 && p.stack.len() > p.deferred->0.start_depth {
        lemma_steps_len(p.stack, (p.stack.len() - 1) as nat);
        if parted(t, p.popped().top(), p.top(), h).parting is Stored {
            lemma_put_aside_in_line(p, plan, h);
        } else {
            lemma_settled_in_line(p, t, h);
        }
    }
}

/// Deferred mode can be left whenever everything is in line.
pub proof fn law_value_in_line_can_be_finished(p: PartialView, t: ShapeTable, h: HostView)
    requires
        p.is_in_line(t),
        p.pool().is_countable(),
    ensures
        p.finishable(t, h),
{
    law_frames_in_line_can_be_finished(p, t, h);
}

} // verus!
