//! How often buffers and ropes are made and released.
use vstd::prelude::*;

use crate::memory::{Addr, MemOp};

verus! {

/// Something that operations make, release or use up.
pub enum Resource {
    /// A buffer, by its number.
    Buffer(u64),
    /// The chunks of a list rope, by the rope's number.
    Rope(u64),
    /// The number of a buffer, which is used up when a buffer is made under it.
    Number(u64),
}

/// One if the resource is the buffer that the address lies in, else zero.
pub open spec fn in_buffer(at: Addr, b: Resource) -> int {
    same_buffer(at.buf, b)
}

/// One if the resource is that buffer, else zero.
pub open spec fn same_buffer(buf: u64, b: Resource) -> int {
    if b == Resource::Buffer(buf) {
        1
    } else {
        0
    }
}

/// One if the resource is that rope, else zero.
pub open spec fn same_rope(rope: u64, b: Resource) -> int {
    if b == Resource::Rope(rope) {
        1
    } else {
        0
    }
}

/// What making a buffer does to a resource: the buffer is there, and its number is used up.
pub open spec fn making(buf: u64, b: Resource) -> int {
    match b {
        Resource::Buffer(n) if n == buf => -1,
        Resource::Number(n) if n == buf => 1,
        _ => 0,
    }
}

/// By how much an operation releases a resource, or uses it up, more often than it makes it.
pub open spec fn net_of(op: MemOp, b: Resource) -> int {
    match op {
        MemOp::Alloc { buf, .. } => making(buf, b),
        MemOp::SliceNew { buf, .. } => making(buf, b),
        MemOp::SliceConvert { builder, buf, .. } => in_buffer(builder, b) + making(buf, b),
        MemOp::SliceFree { builder, .. } => in_buffer(builder, b),
        MemOp::Dealloc { at, .. } => in_buffer(at, b),
        MemOp::FreeRope { rope } => same_rope(rope, b),
        _ => 0,
    }
}

/// By how much operations release a resource, or use it up, more often than they make it.
pub open spec fn net(ops: Seq<MemOp>, b: Resource) -> int
    decreases ops.len(),
{
    if ops.len() == 0 {
        0
    } else {
        net(ops.drop_last(), b) + net_of(ops.last(), b)
    }
}

/// No operations release nothing.
pub broadcast proof fn lemma_net_empty(b: Resource)
    ensures
        #[trigger] net(Seq::<MemOp>::empty(), b) == 0,
{
}

/// One more operation adds what it releases.
pub broadcast proof fn lemma_net_push(a: Seq<MemOp>, op: MemOp, b: Resource)
    ensures
        #[trigger] net(a.push(op), b) == net(a, b) + net_of(op, b),
{
    assert(a.push(op).drop_last() =~= a);
}

/// What two runs of operations release adds up.
pub broadcast proof fn lemma_net_add(a: Seq<MemOp>, c: Seq<MemOp>, b: Resource)
    ensures
        #[trigger] net(a + c, b) == net(a, b) + net(c, b),
    decreases c.len(),
{
    if c.len() == 0 {
        assert(a + c =~= a);
    } else {
        lemma_net_add(a, c.drop_last(), b);
        assert((a + c).drop_last() =~= a + c.drop_last());
        assert((a + c).last() == c.last());
    }
}

/// A buffer is not made more often than a number is used up for it.
pub proof fn lemma_made_by_number(ops: Seq<MemOp>, n: u64)
    ensures
        net(ops, Resource::Buffer(n)) + net(ops, Resource::Number(n)) >= 0,
        net(ops, Resource::Number(n)) >= 0,
        net(ops, Resource::Rope(n)) >= 0,
    decreases ops.len(),
{
    if ops.len() > 0 {
        lemma_made_by_number(ops.drop_last(), n);
    }
}

pub broadcast group group_net {
    lemma_net_empty,
    lemma_net_push,
    lemma_net_add,
}

} // verus!
