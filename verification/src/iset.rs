//! Sets of field indices.
use vstd::prelude::*;

verus! {

/// Keeps track of which fields or elements are initialized.
#[derive(Debug)]
pub struct ISet {
    bits: Vec<bool>,
}

impl View for ISet {
    type V = Set<int>;

    closed spec fn view(&self) -> Set<int> {
        Set::new(|i: int| 0 <= i < self.bits@.len() && self.bits@[i])
    }
}

/// All indices below `n` are in the set.
pub open spec fn has_all(s: Set<int>, n: int) -> bool {
    forall|i: int| #![trigger s.contains(i)] 0 <= i < n ==> s.contains(i)
}

/// No index below `n` is in the set.
pub open spec fn has_none(s: Set<int>, n: int) -> bool {
    forall|i: int| #![trigger s.contains(i)] 0 <= i < n ==> !s.contains(i)
}

/// The set of all indices below `n`.
pub open spec fn all_below(n: int) -> Set<int> {
    Set::new(|i: int| 0 <= i < n)
}

/// The least index below `n` that is not in the set, if there is one.
pub open spec fn first_missing(s: Set<int>, n: nat) -> Option<int>
    decreases n,
{
    if n == 0 {
        None
    } else {
        match first_missing(s, (n - 1) as nat) {
            Some(i) => Some(i),
            None => if s.contains(n - 1) {
                None
            } else {
                Some(n - 1)
            },
        }
    }
}

/// There is no missing index exactly when all are there, and the one found is the least.
pub proof fn lemma_first_missing(s: Set<int>, n: nat)
    ensures
        first_missing(s, n) is None <==> has_all(s, n as int),
        first_missing(s, n) matches Some(i) ==> 0 <= i < n && !s.contains(i) && has_all(s, i),
    decreases n,
{
    if n > 0 {
        lemma_first_missing(s, (n - 1) as nat);
        if first_missing(s, n) is None {
            assert(has_all(s, n as int));
        }
    }
}

impl ISet {
    /// The empty set.
    pub fn new() -> (r: ISet)
        ensures
            r@ == Set::<int>::empty(),
    {
        let r = ISet { bits: Vec::new() };
        assert(r@ =~= Set::<int>::empty());
        r
    }

    /// Whether the index is in the set.
    pub fn get(&self, idx: usize) -> (r: bool)
        ensures
            r == self@.contains(idx as int),
    {
        idx < self.bits.len() && self.bits[idx]
    }

    /// Puts the index into the set.
    pub fn set(&mut self, idx: usize)
        ensures
            final(self)@ == old(self)@.insert(idx as int),
    {
        while self.bits.len() <= idx
            invariant
                self@ == old(self)@,
            decreases idx + 1 - self.bits@.len(),
        {
            let ghost before = self@;
            self.bits.push(false);
            assert(self@ =~= before);
        }
        let ghost before = self@;
        self.bits.set(idx, true);
        assert(self@ =~= before.insert(idx as int));
    }

    /// Takes the index out of the set.
    pub fn unset(&mut self, idx: usize)
        ensures
            final(self)@ == old(self)@.remove(idx as int),
    {
        let ghost before = self@;
        if idx < self.bits.len() {
            self.bits.set(idx, false);
        }
        assert(self@ =~= before.remove(idx as int));
    }

    /// Makes the set hold exactly the indices below `n`.
    pub fn set_all(&mut self, n: usize)
        ensures
            final(self)@ == all_below(n as int),
    {
        self.bits.clear();
        let mut i: usize = 0;
        while i < n
            invariant
                i <= n,
                self.bits@.len() == i,
                forall|j: int| 0 <= j < i ==> self.bits@[j],
            decreases n - i,
        {
            self.bits.push(true);
            i = i + 1;
        }
        assert(self@ =~= all_below(n as int));
    }

    /// Whether all indices below `n` are in the set.
    pub fn all_set(&self, n: usize) -> (r: bool)
        ensures
            r == has_all(self@, n as int),
    {
        let mut i: usize = 0;
        while i < n
            invariant
                i <= n,
                has_all(self@, i as int),
            decreases n - i,
        {
            if !self.get(i) {
                return false;
            }
            i = i + 1;
        }
        true
    }

    /// Whether no index below `n` is in the set.
    pub fn none_set(&self, n: usize) -> (r: bool)
        ensures
            r == has_none(self@, n as int),
    {
        let mut i: usize = 0;
        while i < n
            invariant
                i <= n,
                has_none(self@, i as int),
            decreases n - i,
        {
            if self.get(i) {
                return false;
            }
            i = i + 1;
        }
        true
    }

    /// The least index below `n` that is not in the set.
    pub fn first_unset(&self, n: usize) -> (r: Option<usize>)
        ensures
            r is Some == first_missing(self@, n as nat) is Some,
            r matches Some(i) ==> i < n && first_missing(self@, n as nat) == Some(i as int),
    {
        let mut i: usize = 0;
        while i < n
            invariant
                i <= n,
                first_missing(self@, i as nat) is None,
            decreases n - i,
        {
            if !self.get(i) {
                proof {
                    lemma_first_missing_stays(self@, (i + 1) as nat, n as nat);
                }
                return Some(i);
            }
            i = i + 1;
        }
        None
    }

    /// The same set.
    pub fn duplicate(&self) -> (r: ISet)
        ensures
            r@ == self@,
    {
        let mut bits: Vec<bool> = Vec::new();
        let mut i: usize = 0;
        while i < self.bits.len()
            invariant
                i <= self.bits@.len(),
                bits@ == self.bits@.subrange(0, i as int),
            decreases self.bits@.len() - i,
        {
            bits.push(self.bits[i]);
            i = i + 1;
            assert(bits@ =~= self.bits@.subrange(0, i as int));
        }
        assert(bits@ =~= self.bits@);
        let r = ISet { bits };
        assert(r@ =~= self@);
        r
    }
}

/// Once found, the least missing index does not change with the bound.
proof fn lemma_first_missing_stays(s: Set<int>, m: nat, n: nat)
    requires
        m <= n,
        first_missing(s, m) is Some,
    ensures
        first_missing(s, n) == first_missing(s, m),
    decreases n,
{
    if m < n {
        lemma_first_missing_stays(s, m, (n - 1) as nat);
    }
}

} // verus!
