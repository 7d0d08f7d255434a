//! Frames that were set aside in deferred mode, each under the path that leads to it.
use vstd::prelude::*;

use crate::frame::{Frame, FrameView};
use crate::path::{lemma_path_order_total, lemma_path_order_transitive, Path, PathView};
use crate::plan::TypePlanCore;

verus! {

/// A frame and the path that leads to it.
#[derive(Debug)]
pub struct StoredFrame {
    pub path: Path,
    pub frame: Frame,
}

/// The frames that were set aside, in the order of their paths. No path occurs twice.
#[derive(Debug)]
pub struct StoredFrames {
    pub entries: Vec<StoredFrame>,
}

/// A stored frame as the contracts see it.
#[verifier::ext_equal]
pub struct StoredView {
    pub path: PathView,
    pub frame: FrameView,
}

impl View for StoredFrame {
    type V = StoredView;

    open spec fn view(&self) -> StoredView {
        StoredView { path: self.path@, frame: self.frame@ }
    }
}

/// Stored frames as the contracts see them.
pub open spec fn stored_views(entries: Seq<StoredFrame>) -> Seq<StoredView> {
    Seq::new(entries.len(), |i: int| entries[i]@)
}

impl View for StoredFrames {
    type V = Seq<StoredView>;

    open spec fn view(&self) -> Seq<StoredView> {
        stored_views(self.entries@)
    }
}

/// The paths ascend.
pub open spec fn ascending(s: Seq<StoredView>) -> bool {
    forall|i: int, j: int|
        #![trigger s[i], s[j]]
        0 <= i < j < s.len() ==> s[i].path.before(s[j].path)
}

/// All frames fit the plan.
pub open spec fn all_fit(s: Seq<StoredView>, plan: TypePlanCore) -> bool {
    forall|i: int| #![trigger s[i]] 0 <= i < s.len() ==> s[i].frame.wf(plan)
}

/// The first position from `i` on whose path does not come before `path`.
pub open spec fn lower_bound(s: Seq<StoredView>, path: PathView, i: nat) -> nat
    decreases s.len() - i,
{
    if i >= s.len() {
        s.len()
    } else if s[i as int].path.before(path) {
        lower_bound(s, path, i + 1)
    } else {
        i
    }
}

/// Where the frame of a path is, if it was set aside.
pub open spec fn find(s: Seq<StoredView>, path: PathView) -> Option<int> {
    let i = lower_bound(s, path, 0);
    if i < s.len() && s[i as int].path == path {
        Some(i as int)
    } else {
        None
    }
}

/// The stored frames with one more; a frame that was there under the same path is replaced.
pub open spec fn inserted(s: Seq<StoredView>, path: PathView, frame: FrameView) -> Seq<StoredView> {
    let i = lower_bound(s, path, 0);
    if i < s.len() && s[i as int].path == path {
        s.update(i as int, StoredView { path, frame })
    } else {
        s.insert(i as int, StoredView { path, frame })
    }
}

/// Of the first `n` stored frames the first among those with the longest path.
pub open spec fn deepest(s: Seq<StoredView>, n: nat) -> nat
    decreases n,
{
    if n <= 1 {
        0
    } else {
        let best = deepest(s, (n - 1) as nat);
        if s[n - 1].path.steps.len() > s[best as int].path.steps.len() {
            (n - 1) as nat
        } else {
            best
        }
    }
}

/// Everything before the lower bound comes before the path, and nothing after it does.
pub proof fn lemma_lower_bound(s: Seq<StoredView>, path: PathView, i: nat)
    requires
        ascending(s),
        i <= s.len(),
        forall|j: int| 0 <= j < i ==> (#[trigger] s[j]).path.before(path),
    ensures
        i <= lower_bound(s, path, i) <= s.len(),
        forall|j: int|
            0 <= j < lower_bound(s, path, i) ==> (#[trigger] s[j]).path.before(path),
        forall|j: int|
            lower_bound(s, path, i) <= j < s.len() ==> !(#[trigger] s[j]).path.before(path),
    decreases s.len() - i,
{
    if i < s.len() {
        if s[i as int].path.before(path) {
            lemma_lower_bound(s, path, i + 1);
        } else {
            assert forall|j: int| i <= j < s.len() implies !(#[trigger] s[j]).path.before(path) by {
                if j > i && s[j].path.before(path) {
                    lemma_path_order_transitive(s[i as int].path, s[j].path, path);
                }
            }
        }
    }
}

/// A path is found exactly where it is.
pub proof fn lemma_find(s: Seq<StoredView>, path: PathView)
    requires
        ascending(s),
    ensures
        find(s, path) matches Some(i) ==> 0 <= i < s.len() && s[i].path == path,
        forall|i: int| 0 <= i < s.len() && (#[trigger] s[i]).path == path ==> find(s, path) == Some(i),
{
    lemma_lower_bound(s, path, 0);
    assert forall|i: int| 0 <= i < s.len() && (#[trigger] s[i]).path == path implies find(s, path)
        == Some(i) by {
        let b = lower_bound(s, path, 0) as int;
        lemma_path_order_total(path, path);
        if b < i {
            assert(s[b].path.before(s[i].path));
        }
    }
}

/// Setting a frame aside keeps the paths ascending.
pub proof fn lemma_inserted(s: Seq<StoredView>, path: PathView, frame: FrameView)
    requires
        ascending(s),
    ensures
        ascending(inserted(s, path, frame)),
        find(inserted(s, path, frame), path) matches Some(i) && inserted(s, path, frame)[i].frame
            == frame,
        forall|i: int|
            0 <= i < inserted(s, path, frame).len() ==> {
                let e = #[trigger] inserted(s, path, frame)[i];
                e == (StoredView { path, frame }) || s.contains(e)
            },
{
    let r = inserted(s, path, frame);
    let b = lower_bound(s, path, 0) as int;
    lemma_lower_bound(s, path, 0);
    lemma_path_order_total(path, path);
    if b < s.len() && s[b].path == path {
        assert forall|i: int, j: int|
            #![trigger r[i], r[j]]
            0 <= i < j < r.len() implies r[i].path.before(r[j].path) by {
            assert(s[i].path.before(s[j].path));
        }
    } else {
        assert forall|i: int, j: int|
            #![trigger r[i], r[j]]
            0 <= i < j < r.len() implies r[i].path.before(r[j].path) by {
            if i < b && j > b {
                assert(s[i].path.before(s[j - 1].path));
            } else if i < b && j < b {
                assert(s[i].path.before(s[j].path));
            } else if i == b {
                lemma_path_order_total(path, s[j - 1].path);
                if b < j - 1 {
                    assert(s[b].path.before(s[j - 1].path));
                }
            } else if i > b {
                assert(s[i - 1].path.before(s[j - 1].path));
            }
        }
    }
    assert(r[b] == (StoredView { path, frame }));
    lemma_find(r, path);
    assert forall|i: int| 0 <= i < r.len() implies {
        let e = #[trigger] r[i];
        e == (StoredView { path, frame }) || s.contains(e)
    } by {
        if i < b {
            assert(s[i] == r[i]);
        } else if i > b {
            if b < s.len() && s[b].path == path {
                assert(s[i] == r[i]);
            } else {
                assert(s[i - 1] == r[i]);
            }
        }
    }
}

/// The deepest of the first `n` is one of them; none of them is deeper, none before it as deep.
pub proof fn lemma_deepest(s: Seq<StoredView>, n: nat)
    requires
        0 < n <= s.len(),
    ensures
        deepest(s, n) < n,
        forall|j: int|
            0 <= j < n ==> (#[trigger] s[j]).path.steps.len() <= s[deepest(
                s,
                n,
            ) as int].path.steps.len(),
        forall|j: int|
            0 <= j < deepest(s, n) ==> (#[trigger] s[j]).path.steps.len() < s[deepest(
                s,
                n,
            ) as int].path.steps.len(),
    decreases n,
{
    if n > 1 {
        lemma_deepest(s, (n - 1) as nat);
    }
}

impl StoredFrames {
    /// No frames.
    pub fn new() -> (r: StoredFrames)
        ensures
            r@ == Seq::<StoredView>::empty(),
    {
        StoredFrames { entries: Vec::new() }
    }

    /// Number of stored frames.
    pub fn len(&self) -> (n: usize)
        ensures
            n == self@.len(),
    {
        self.entries.len()
    }

    fn lower_bound(&self, path: &Path) -> (i: usize)
        ensures
            i == lower_bound(self@, path@, 0),
            i <= self@.len(),
    {
        let mut i: usize = 0;
        while i < self.entries.len() && self.entries[i].path.is_before(path)
            invariant
                i <= self@.len(),
                lower_bound(self@, path@, 0) == lower_bound(self@, path@, i as nat),
            decreases self@.len() - i,
        {
            i = i + 1;
        }
        i
    }

    /// Where the frame of a path is.
    pub fn find(&self, path: &Path) -> (r: Option<usize>)
        ensures
            r is Some == find(self@, path@) is Some,
            r matches Some(i) ==> find(self@, path@) == Some(i as int) && i < self@.len(),
    {
        let i: usize = self.lower_bound(path);
        if i < self.entries.len() && self.entries[i].path.same(path) {
            Some(i)
        } else {
            None
        }
    }

    /// Sets a frame aside. A frame that was there under the same path is handed back.
    pub fn insert(&mut self, path: Path, frame: Frame) -> (r: Option<Frame>)
        ensures
            final(self)@ == inserted(old(self)@, path@, frame@),
            match find(old(self)@, path@) {
                Some(i) => r matches Some(f) && f@ == old(self)@[i].frame,
                None => r is None,
            },
    {
        let ghost before = self@;
        let i: usize = self.lower_bound(&path);
        if i < self.entries.len() && self.entries[i].path.same(&path) {
            assert(self.entries@[i as int]@ == before[i as int]);
            let replaced = self.entries.remove(i);
            self.entries.insert(i, StoredFrame { path, frame });
            assert(self@ =~= inserted(before, path@, frame@));
            Some(replaced.frame)
        } else {
            self.entries.insert(i, StoredFrame { path, frame });
            None
        }
    }

    /// Takes the frame at a position out.
    pub fn remove_at(&mut self, i: usize) -> (r: StoredFrame)
        requires
            i < old(self)@.len(),
        ensures
            r@ == old(self)@[i as int],
            final(self)@ == old(self)@.remove(i as int),
    {
        self.entries.remove(i)
    }

    /// The first of the frames with the longest path.
    pub fn deepest(&self) -> (i: usize)
        requires
            self@.len() > 0,
        ensures
            i == deepest(self@, self@.len()),
            i < self@.len(),
    {
        let mut best: usize = 0;
        let mut i: usize = 1;
        while i < self.entries.len()
            invariant
                1 <= i <= self@.len(),
                best < i,
                best == deepest(self@, i as nat),
            decreases self@.len() - i,
        {
            assert(self.entries@[i as int]@ == self@[i as int]);
            assert(self.entries@[best as int]@ == self@[best as int]);
            if self.entries[i].path.len() > self.entries[best].path.len() {
                best = i;
            }
            i = i + 1;
        }
        best
    }
}

} // verus!
