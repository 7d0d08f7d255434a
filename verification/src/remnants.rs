//! What is left of each frame when its turn comes to be given up, and that a value which one frame
//! holds is dropped once.
use vstd::prelude::*;

use crate::cancel::{cancel_stored, PoolHost};
use crate::deferred::parent_clears;
use crate::drops::{
    drops, law_giving_up_drops_what_each_frame_holds, left_below, lemma_cancel_keeps_order,
    lemma_places_stay, next_given_up, stack_drops, stored_drops,
};
use crate::frame::FrameView;
use crate::memory::{Addr, HostView};
use crate::order::{is_stored, lemma_without};
use crate::partial::PartialView;
use crate::path::{PathStep, PathView};
use crate::pool::{Place, Pool};
use crate::shape::{ShapeRef, ShapeTable};
use crate::stored::{ascending, deepest, lemma_deepest, lemma_find, StoredView};
use crate::tracker::TrackerView;

verus! {

/// The field or element that a path leads to.
pub open spec fn part_of(path: PathView) -> Option<int> {
    if path.steps.len() == 0 {
        None
    } else {
        match path.steps.last() {
            PathStep::Field(i) => Some(i as int),
            PathStep::Index(i) => Some(i as int),
            _ => None,
        }
    }
}

/// The fields and elements of what is at `path` whose frames are among `s` and not among `rest`.
pub open spec fn gone_from(s: Seq<StoredView>, rest: Seq<StoredView>, path: PathView) -> Set<int> {
    Set::new(
        |idx: int|
            exists|j: int|
                0 <= j < s.len() && !is_stored(rest, (#[trigger] s[j]).path) && part_of(s[j].path)
                    == Some(idx) && s[j].path.parent() == path,
    )
}

/// The fields and elements of frame `k` of the stack whose frames are among `s` and not among `rest`.
pub open spec fn gone_above(s: Seq<StoredView>, rest: Seq<StoredView>, k: int) -> Set<int> {
    Set::new(
        |idx: int|
            exists|j: int|
                0 <= j < s.len() && !is_stored(rest, (#[trigger] s[j]).path) && part_of(s[j].path)
                    == Some(idx) && s[j].path.steps.len() == k + 1 && !is_stored(
                    s,
                    s[j].path.parent(),
                ),
    )
}

impl FrameView {
    /// The frame without some of its fields or elements.
    pub open spec fn without_parts(self, gone: Set<int>) -> FrameView {
        FrameView {
            tracker: match self.tracker {
                TrackerView::Struct { iset, current_child } => TrackerView::Struct {
                    iset: iset.difference(gone),
                    current_child,
                },
                TrackerView::Enum { variant_idx, data, current_child } => TrackerView::Enum {
                    variant_idx,
                    data: data.difference(gone),
                    current_child,
                },
                TrackerView::Array { iset, current_child } => TrackerView::Array {
                    iset: iset.difference(gone),
                    current_child,
                },
                _ => self.tracker,
            },
            ..self
        }
    }
}

impl Pool {
    /// The stack when all stored frames were given up: each frame without the parts that had frames
    /// of their own among them.
    pub open spec fn stack_left(self) -> Seq<FrameView> {
        Seq::new(
            self.stack.len(),
            |k: int| self.stack[k].without_parts(gone_above(self.stored, Seq::empty(), k)),
        )
    }

    /// The frame at a place in the state in which it is given up: without the parts that have frames
    /// of their own, be they set aside or on the stack.
    pub open spec fn left_at(self, place: Place) -> FrameView {
        match place {
            Place::Stored(i) => {
                let e = self.stored[i as int];
                e.frame.without_parts(gone_from(self.stored, Seq::empty(), e.path))
            },
            Place::Stack(k) => left_below(self.stack_left(), k as int),
            Place::Nowhere => arbitrary(),
        }
    }
}

/// Nothing is taken away if no part is gone.
proof fn lemma_without_no_parts(f: FrameView, gone: Set<int>)
    requires
        gone =~= Set::empty(),
    ensures
        f.without_parts(gone) == f,
{
    match f.tracker {
        TrackerView::Struct { iset, .. } => {
            assert(iset.difference(gone) =~= iset);
        },
        TrackerView::Enum { data, .. } => {
            assert(data.difference(gone) =~= data);
        },
        TrackerView::Array { iset, .. } => {
            assert(iset.difference(gone) =~= iset);
        },
        _ => {},
    }
}

/// One more part is gone.
proof fn lemma_without_one_more(f: FrameView, gone: Set<int>, more: Set<int>, idx: usize)
    requires
        more =~= gone.insert(idx as int),
    ensures
        f.without_parts(gone).without_field(idx) == f.without_parts(more),
{
    match f.tracker {
        TrackerView::Struct { iset, .. } => {
            assert(iset.difference(gone).remove(idx as int) =~= iset.difference(more));
        },
        TrackerView::Enum { data, .. } => {
            assert(data.difference(gone).remove(idx as int) =~= data.difference(more));
        },
        TrackerView::Array { iset, .. } => {
            assert(iset.difference(gone).remove(idx as int) =~= iset.difference(more));
        },
        _ => {},
    }
}

/// The rest of the stored frames after some were given up, the deepest first: each is the frame that
/// it was without the parts whose frames were given up, and none is deeper than those.
pub open spec fn is_rest(p: Pool, q: Pool) -> bool {
    &&& q.stack.len() == p.stack.len()
    &&& forall|k: int|
        #![trigger q.stored[k]]
        0 <= k < q.stored.len() ==> exists|j: int|
            0 <= j < p.stored.len() && (#[trigger] p.stored[j]).path == q.stored[k].path
                && q.stored[k].frame == p.stored[j].frame.without_parts(
                gone_from(p.stored, q.stored, p.stored[j].path),
            )
    &&& forall|k: int|
        #![trigger q.stack[k]]
        0 <= k < q.stack.len() ==> q.stack[k] == p.stack[k].without_parts(
            gone_above(p.stored, q.stored, k),
        )
    &&& forall|j: int, k: int|
        #![trigger p.stored[j], q.stored[k]]
        0 <= j < p.stored.len() && 0 <= k < q.stored.len() && !is_stored(q.stored, p.stored[j].path)
            ==> q.stored[k].path.steps.len() <= p.stored[j].path.steps.len()
}

/// At first nothing is gone.
proof fn lemma_all_is_rest(p: Pool)
    ensures
        is_rest(p, p),
{
    assert forall|k: int| #![trigger p.stored[k]] 0 <= k < p.stored.len() implies is_stored(
        p.stored,
        p.stored[k].path,
    ) by {}
    assert forall|k: int| #![trigger p.stored[k]] 0 <= k < p.stored.len() implies exists|j: int|
        0 <= j < p.stored.len() && (#[trigger] p.stored[j]).path == p.stored[k].path
            && p.stored[k].frame == p.stored[j].frame.without_parts(
            gone_from(p.stored, p.stored, p.stored[j].path),
        ) by {
        lemma_without_no_parts(
            p.stored[k].frame,
            gone_from(p.stored, p.stored, p.stored[k].path),
        );
    }
    assert forall|k: int| #![trigger p.stack[k]] 0 <= k < p.stack.len() implies p.stack[k]
        == p.stack[k].without_parts(gone_above(p.stored, p.stored, k)) by {
        lemma_without_no_parts(p.stack[k], gone_above(p.stored, p.stored, k));
    }
}

/// One more stored frame was given up: if it is on a field or element, that part is gone.
proof fn lemma_gone_step(
    s: Seq<StoredView>,
    rest: Seq<StoredView>,
    less: Seq<StoredView>,
    j0: int,
    path: PathView,
    k: int,
)
    requires
        0 <= j0 < s.len(),
        forall|x: PathView|
            is_stored(less, x) <==> (#[trigger] is_stored(rest, x) && x != s[j0].path),
    ensures
        ({
            let hit = s[j0].path;
            &&& gone_from(s, less, path) =~= if part_of(hit) is Some && hit.parent() == path {
                gone_from(s, rest, path).insert(part_of(hit)->0)
            } else {
                gone_from(s, rest, path)
            }
            &&& gone_above(s, less, k) =~= if part_of(hit) is Some && hit.steps.len() == k + 1
                && !is_stored(s, hit.parent()) {
                gone_above(s, rest, k).insert(part_of(hit)->0)
            } else {
                gone_above(s, rest, k)
            }
        }),
{
    let hit = s[j0].path;
    assert forall|x: PathView| !(#[trigger] is_stored(less, x)) == (!is_stored(rest, x) || x == hit) by {
        assert(is_stored(less, x) <==> (is_stored(rest, x) && x != hit));
    }
    assert forall|idx: int| #[trigger]
        gone_from(s, less, path).contains(idx) == (gone_from(s, rest, path).contains(idx) || (part_of(
            hit,
        ) == Some(idx) && hit.parent() == path)) by {
        if gone_from(s, rest, path).contains(idx) {
            let j = choose|j: int|
                0 <= j < s.len() && !is_stored(rest, (#[trigger] s[j]).path) && part_of(s[j].path)
                    == Some(idx) && s[j].path.parent() == path;
            assert(!is_stored(less, s[j].path));
        }
        if gone_from(s, less, path).contains(idx) {
            let j = choose|j: int|
                0 <= j < s.len() && !is_stored(less, (#[trigger] s[j]).path) && part_of(s[j].path)
                    == Some(idx) && s[j].path.parent() == path;
            assert(!is_stored(rest, s[j].path) || s[j].path == hit);
        }
        assert(!is_stored(less, s[j0].path));
    }
    assert forall|idx: int| #[trigger]
        gone_above(s, less, k).contains(idx) == (gone_above(s, rest, k).contains(idx) || (part_of(
            hit,
        ) == Some(idx) && hit.steps.len() == k + 1 && !is_stored(s, hit.parent()))) by {
        if gone_above(s, rest, k).contains(idx) {
            let j = choose|j: int|
                0 <= j < s.len() && !is_stored(rest, (#[trigger] s[j]).path) && part_of(s[j].path)
                    == Some(idx) && s[j].path.steps.len() == k + 1 && !is_stored(
                    s,
                    s[j].path.parent(),
                );
            assert(!is_stored(less, s[j].path));
        }
        if gone_above(s, less, k).contains(idx) {
            let j = choose|j: int|
                0 <= j < s.len() && !is_stored(less, (#[trigger] s[j]).path) && part_of(s[j].path)
                    == Some(idx) && s[j].path.steps.len() == k + 1 && !is_stored(
                    s,
                    s[j].path.parent(),
                );
            assert(!is_stored(rest, s[j].path) || s[j].path == hit);
        }
        assert(!is_stored(less, s[j0].path));
    }
}

/// The parent of the deepest of the remaining frames is stored if it was.
proof fn lemma_parent_still_stored(p: Pool, q: Pool)
    requires
        is_rest(p, q),
        q.stored.len() > 0,
        q.stored[deepest(q.stored, q.stored.len()) as int].path.steps.len() > 0,
    ensures
        ({
            let up = q.stored[deepest(q.stored, q.stored.len()) as int].path.parent();
            is_stored(q.stored, up) == is_stored(p.stored, up)
        }),
{
    lemma_deepest(q.stored, q.stored.len());
    let d = deepest(q.stored, q.stored.len()) as int;
    let up = q.stored[d].path.parent();
    if is_stored(p.stored, up) && !is_stored(q.stored, up) {
        let j = choose|j: int| 0 <= j < p.stored.len() && (#[trigger] p.stored[j]).path == up;
        assert(q.stored[d].path.steps.len() <= p.stored[j].path.steps.len());
    }
    if is_stored(q.stored, up) {
        let k = choose|k: int| 0 <= k < q.stored.len() && (#[trigger] q.stored[k]).path == up;
        let j = choose|j: int|
            0 <= j < p.stored.len() && (#[trigger] p.stored[j]).path == q.stored[k].path
                && q.stored[k].frame == p.stored[j].frame.without_parts(
                gone_from(p.stored, q.stored, p.stored[j].path),
            );
        assert(p.stored[j].path == up);
    }
}

/// After one more frame was given up, the others are still the rest.
proof fn lemma_rest_step(p: Pool, q: Pool)
    requires
        ascending(p.stored),
        ascending(q.stored),
        p.is_countable(),
        q.is_countable(),
        is_rest(p, q),
        q.stored.len() > 0,
    ensures
        ({
            let d = deepest(q.stored, q.stored.len()) as int;
            is_rest(p, parent_clears(q.without(d), q.stored[d].path))
        }),
{
    let s = p.stored;
    lemma_deepest(q.stored, q.stored.len());
    let d = deepest(q.stored, q.stored.len()) as int;
    let e = q.stored[d];
    let mid = q.without(d);
    let next = parent_clears(mid, e.path);
    let up = e.path.parent();
    lemma_without(q, d);
    lemma_find(mid.stored, up);
    let j0 = choose|j0: int| 0 <= j0 < s.len() && (#[trigger] s[j0]).path == e.path;
    assert(0 <= j0 < s.len() && s[j0].path == e.path);
    if e.path.steps.len() > 0 {
        lemma_parent_still_stored(p, q);
        assert(up.steps.len() < e.path.steps.len());
    }
    let place = mid.place(up);
    assert forall|k: int| #![trigger next.stored[k]] 0 <= k < next.stored.len() implies next.stored[k].path
        == mid.stored[k].path && (next.stored[k].frame == if part_of(e.path) is Some
        && mid.stored[k].path == up {
        mid.stored[k].frame.without_field(part_of(e.path)->0 as usize)
    } else {
        mid.stored[k].frame
    }) by {}
    assert(next.stored.len() == mid.stored.len());
    assert forall|x: PathView|
        is_stored(next.stored, x) <==> (#[trigger] is_stored(q.stored, x) && x != s[j0].path) by {
        assert(is_stored(mid.stored, x) <==> (is_stored(q.stored, x) && x != e.path));
        if is_stored(next.stored, x) {
            let k = choose|k: int| 0 <= k < next.stored.len() && (#[trigger] next.stored[k]).path == x;
            assert(mid.stored[k].path == x);
        }
        if is_stored(mid.stored, x) {
            let k = choose|k: int| 0 <= k < mid.stored.len() && (#[trigger] mid.stored[k]).path == x;
            assert(next.stored[k].path == x);
        }
    }
    assert forall|k: int| #![trigger next.stored[k]] 0 <= k < next.stored.len() implies exists|j: int|
        0 <= j < s.len() && (#[trigger] s[j]).path == next.stored[k].path && next.stored[k].frame
            == s[j].frame.without_parts(gone_from(s, next.stored, s[j].path)) by {
        let k0 = if k < d { k } else { k + 1 };
        assert(mid.stored[k] == q.stored[k0]);
        let j = choose|j: int|
            0 <= j < s.len() && (#[trigger] s[j]).path == q.stored[k0].path && q.stored[k0].frame
                == s[j].frame.without_parts(gone_from(s, q.stored, s[j].path));
        lemma_gone_step(s, q.stored, next.stored, j0, s[j].path, 0);
        if part_of(e.path) is Some && s[j].path == up {
            lemma_without_one_more(
                s[j].frame,
                gone_from(s, q.stored, s[j].path),
                gone_from(s, next.stored, s[j].path),
                part_of(e.path)->0 as usize,
            );
        }
        assert(s[j].path == next.stored[k].path);
    }
    assert forall|k: int| #![trigger next.stack[k]] 0 <= k < next.stack.len() implies next.stack[k]
        == p.stack[k].without_parts(gone_above(s, next.stored, k)) by {
        lemma_gone_step(s, q.stored, next.stored, j0, up, k);
        assert(q.stack[k] == p.stack[k].without_parts(gone_above(s, q.stored, k)));
        if part_of(e.path) is Some && e.path.steps.len() == k + 1 && !is_stored(s, up) {
            lemma_without_one_more(
                p.stack[k],
                gone_above(s, q.stored, k),
                gone_above(s, next.stored, k),
                part_of(e.path)->0 as usize,
            );
        }
    }
    assert forall|j: int, k: int|
        #![trigger s[j], next.stored[k]]
        0 <= j < s.len() && 0 <= k < next.stored.len() && !is_stored(next.stored, s[j].path) implies next.stored[k].path.steps.len()
        <= s[j].path.steps.len() by {
        let k0 = if k < d { k } else { k + 1 };
        assert(mid.stored[k] == q.stored[k0]);
        assert(is_stored(next.stored, s[j].path) <==> (is_stored(q.stored, s[j].path) && s[j].path
            != s[j0].path));
    }
}

/// When some stored frames were given up, the others are the rest.
proof fn lemma_rest(t: ShapeTable, w: PoolHost, n: nat)
    requires
        ascending(w.pool.stored),
        w.pool.is_countable(),
        n <= w.pool.stored.len(),
    ensures
        is_rest(w.pool, cancel_stored(t, w, n).pool),
    decreases n,
{
    if n == 0 {
        lemma_all_is_rest(w.pool);
    } else {
        lemma_rest(t, w, (n - 1) as nat);
        lemma_cancel_keeps_order(t, w, (n - 1) as nat);
        lemma_rest_step(w.pool, cancel_stored(t, w, (n - 1) as nat).pool);
    }
}

/// A stored frame is given up without the parts that had frames of their own: these are gone by then.
proof fn lemma_given_up_state(t: ShapeTable, w: PoolHost, n: nat, i: int)
    requires
        ascending(w.pool.stored),
        w.pool.is_countable(),
        n < w.pool.stored.len(),
        0 <= i < w.pool.stored.len(),
        ({
            let q = cancel_stored(t, w, n).pool;
            q.stored[deepest(q.stored, q.stored.len()) as int].path == w.pool.stored[i].path
        }),
    ensures
        next_given_up(t, w, n) == w.pool.left_at(Place::Stored(i as usize)),
{
    lemma_rest(t, w, n);
    lemma_cancel_keeps_order(t, w, n);
    let q = cancel_stored(t, w, n).pool;
    let s = w.pool.stored;
    lemma_deepest(q.stored, q.stored.len());
    let d = deepest(q.stored, q.stored.len()) as int;
    let e = q.stored[d];
    let j = choose|j: int|
        0 <= j < s.len() && (#[trigger] s[j]).path == e.path && e.frame
            == s[j].frame.without_parts(gone_from(s, q.stored, s[j].path));
    lemma_find(s, e.path);
    assert(j == i);
    assert(gone_from(s, q.stored, e.path) =~= gone_from(s, Seq::empty(), e.path)) by {
        assert forall|idx: int| gone_from(s, Seq::empty(), e.path).contains(idx) implies gone_from(
            s,
            q.stored,
            e.path,
        ).contains(idx) by {
            let j = choose|j: int|
                0 <= j < s.len() && !is_stored(Seq::empty(), (#[trigger] s[j]).path) && part_of(
                    s[j].path,
                ) == Some(idx) && s[j].path.parent() == e.path;
            assert(!is_stored(q.stored, s[j].path)) by {
                if is_stored(q.stored, s[j].path) {
                    let k = choose|k: int|
                        0 <= k < q.stored.len() && (#[trigger] q.stored[k]).path == s[j].path;
                    assert(q.stored[k].path.steps.len() <= e.path.steps.len());
                }
            }
        }
        assert forall|idx: int| gone_from(s, q.stored, e.path).contains(idx) implies gone_from(
            s,
            Seq::empty(),
            e.path,
        ).contains(idx) by {
            let j = choose|j: int|
                0 <= j < s.len() && !is_stored(q.stored, (#[trigger] s[j]).path) && part_of(
                    s[j].path,
                ) == Some(idx) && s[j].path.parent() == e.path;
            assert(!is_stored(Seq::empty(), s[j].path));
        }
    }
}

proof fn lemma_one_frame_drops(
    t: ShapeTable,
    stack: Seq<FrameView>,
    n: nat,
    k: int,
    shape: ShapeRef,
    at: Addr,
)
    requires
        n <= stack.len(),
        forall|j: int|
            0 <= j < n && j != k ==> drops(
                (#[trigger] left_below(stack, j)).cancel_ops(t),
                shape,
                at,
            ) == 0,
    ensures
        stack_drops(t, stack, n, shape, at) == (if 0 <= k < n {
            drops(left_below(stack, k).cancel_ops(t), shape, at)
        } else {
            0
        }),
    decreases n,
{
    if n > 0 {
        lemma_one_frame_drops(t, stack, (n - 1) as nat, k, shape, at);
        assert(n - 1 != k ==> drops(left_below(stack, n - 1).cancel_ops(t), shape, at) == 0);
    }
}

/// How often the stored frames drop a value that one frame holds: once, if it is a stored frame that
/// was given up.
proof fn lemma_stored_frame_drops(
    t: ShapeTable,
    w: PoolHost,
    n: nat,
    place: Place,
    shape: ShapeRef,
    at: Addr,
)
    requires
        ascending(w.pool.stored),
        w.pool.is_countable(),
        n <= w.pool.stored.len(),
        place is Stored ==> w.pool.has(place),
        forall|other: Place| #[trigger]
            w.pool.has(other) ==> drops(w.pool.left_at(other).cancel_ops(t), shape, at) == (if other
                == place {
                1nat
            } else {
                0nat
            }),
    ensures
        stored_drops(t, w, n, shape, at) == (if place matches Place::Stored(i) && !is_stored(
            cancel_stored(t, w, n).pool.stored,
            w.pool.stored[i as int].path,
        ) {
            1nat
        } else {
            0nat
        }),
    decreases n,
{
    let s = w.pool.stored;
    if n == 0 {
        match place {
            Place::Stored(i) => {
                assert(s[i as int].path == s[i as int].path);
            },
            _ => {},
        }
    } else {
        let m = (n - 1) as nat;
        lemma_stored_frame_drops(t, w, m, place, shape, at);
        lemma_rest(t, w, m);
        lemma_cancel_keeps_order(t, w, m);
        let q = cancel_stored(t, w, m).pool;
        lemma_deepest(q.stored, q.stored.len());
        let d = deepest(q.stored, q.stored.len()) as int;
        let e = q.stored[d];
        let j = choose|j: int| 0 <= j < s.len() && (#[trigger] s[j]).path == e.path;
        assert(0 <= j < s.len() && s[j].path == e.path);
        lemma_given_up_state(t, w, m, j);
        assert(w.pool.has(Place::Stored(j as usize)));
        match place {
            Place::Stored(i) => {
                lemma_find(s, e.path);
                lemma_given_up_is_not_stored(t, w, m, s[i as int].path);
                assert(is_stored(q.stored, e.path));
                assert((s[i as int].path == e.path) == (i == j));
            },
            _ => {},
        }
    }
}

/// Giving up the deepest frame takes it, and no other, out of the stored ones.
proof fn lemma_given_up_is_not_stored(t: ShapeTable, w: PoolHost, n: nat, x: PathView)
    requires
        ascending(w.pool.stored),
        w.pool.is_countable(),
        n < w.pool.stored.len(),
    ensures
        ({
            let q = cancel_stored(t, w, n).pool;
            let d = deepest(q.stored, q.stored.len()) as int;
            is_stored(cancel_stored(t, w, n + 1).pool.stored, x) == (is_stored(q.stored, x) && x
                != q.stored[d].path)
        }),
{
    lemma_cancel_keeps_order(t, w, n);
    let q = cancel_stored(t, w, n).pool;
    lemma_deepest(q.stored, q.stored.len());
    let d = deepest(q.stored, q.stored.len()) as int;
    let e = q.stored[d];
    lemma_without(q, d);
    let rest = q.without(d);
    let place = rest.place(e.path.parent());
    lemma_find(rest.stored, e.path.parent());
    assert(is_stored(rest.stored, x) <==> (is_stored(q.stored, x) && x != e.path));
    assert((n + 1 - 1) as nat == n);
    if e.path.steps.len() > 0 && !(place is Nowhere) {
        let f = rest.at(place);
        match e.path.steps.last() {
            PathStep::Field(i) => {
                lemma_places_stay(rest, place, f.without_field(i as usize), x);
            },
            PathStep::Index(i) => {
                lemma_places_stay(rest, place, f.without_field(i as usize), x);
            },
            _ => {},
        }
    }
}

/// When all stored frames were given up, the frames of the stack are left without the parts that had
/// frames among them.
proof fn lemma_stack_left(t: ShapeTable, w: PoolHost)
    requires
        ascending(w.pool.stored),
        w.pool.is_countable(),
    ensures
        cancel_stored(t, w, w.pool.stored.len()).pool.stack == w.pool.stack_left(),
        cancel_stored(t, w, w.pool.stored.len()).pool.stored == Seq::<StoredView>::empty(),
{
    let n = w.pool.stored.len();
    lemma_rest(t, w, n);
    lemma_cancel_keeps_order(t, w, n);
    let q = cancel_stored(t, w, n).pool;
    assert(q.stored =~= Seq::empty());
    assert(q.stack =~= w.pool.stack_left());
}

/// A value that one frame holds, and no other, is dropped exactly once when everything is given up, be
/// the frame set aside or on the stack. What a frame holds is counted without the parts that have
/// frames of their own: these are left to those frames.
pub proof fn law_value_of_one_frame_is_dropped_once(
    p: PartialView,
    t: ShapeTable,
    h: HostView,
    place: Place,
    shape: ShapeRef,
    at: Addr,
)
    requires
        ascending(p.pool().stored),
        p.pool().is_countable(),
        p.pool().has(place),
        forall|other: Place| #[trigger]
            p.pool().has(other) ==> drops(p.pool().left_at(other).cancel_ops(t), shape, at) == (
            if other == place {
                1nat
            } else {
                0nat
            }),
    ensures
        drops(p.cancelled(t, h).trace, shape, at) == drops(h.trace, shape, at) + 1,
{
    let w = PoolHost { pool: p.pool(), host: h };
    let n = w.pool.stored.len();
    let stack = w.pool.stack_left();
    law_giving_up_drops_what_each_frame_holds(p, t, h, shape, at);
    lemma_stack_left(t, w);
    lemma_stored_frame_drops(t, w, n, place, shape, at);
    let k: int = match place {
        Place::Stack(k) => k as int,
        _ => -1,
    };
    assert forall|j: int| 0 <= j < stack.len() && j != k implies drops(
        (#[trigger] left_below(stack, j)).cancel_ops(t),
        shape,
        at,
    ) == 0 by {
        assert(w.pool.has(Place::Stack(j as usize)));
    }
    lemma_one_frame_drops(t, stack, stack.len(), k, shape, at);
}

} // verus!
