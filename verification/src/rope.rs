//! Stable storage for list elements that are still being built.
use vstd::prelude::*;

use crate::memory::{Host, MemOp, PtrUninit};

verus! {

/// Slots for list elements. A slot never moves; the first `initialized` slots hold finished
/// elements, in the order in which they will enter the list.
#[derive(Debug)]
pub struct ListRope {
    /// Number under which the host keeps the chunks of this rope.
    pub id: u64,
    pub slots: Vec<PtrUninit>,
    pub initialized: usize,
}

/// A rope as the contracts see it.
#[verifier::ext_equal]
pub struct RopeView {
    pub id: u64,
    pub slots: Seq<PtrUninit>,
    pub initialized: usize,
}

impl View for ListRope {
    type V = RopeView;

    open spec fn view(&self) -> RopeView {
        RopeView { id: self.id, slots: self.slots@, initialized: self.initialized }
    }
}

impl RopeView {
    /// There are no more finished elements than slots.
    pub open spec fn wf(self) -> bool {
        self.initialized <= self.slots.len()
    }

    /// The rope after the next slot was finished; a full rope stays as it is.
    pub open spec fn marked(self) -> RopeView {
        if self.initialized < self.slots.len() {
            RopeView { initialized: (self.initialized + 1) as usize, ..self }
        } else {
            self
        }
    }
}

impl ListRope {
    /// Number of finished elements.
    pub fn initialized_count(&self) -> (n: usize)
        ensures
            n == self@.initialized,
    {
        self.initialized
    }

    /// Counts the next slot as finished.
    pub fn mark_last_initialized(&mut self)
        ensures
            final(self)@ == old(self)@.marked(),
            old(self)@.wf() ==> final(self)@.wf(),
    {
        if self.initialized < self.slots.len() {
            self.initialized = self.initialized + 1;
        }
    }

    /// Releases the memory of the slots. What they held has been moved out or dropped before.
    pub fn free<H: Host>(self, host: &mut H)
        ensures
            final(host).view() == old(host).view().after(MemOp::FreeRope { rope: self@.id }),
    {
        host.act(MemOp::FreeRope { rope: self.id });
    }
}

} // verus!
