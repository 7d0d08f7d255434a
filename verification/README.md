# partial_build

Incremental construction of values whose types are only known through reflection: fields are set
one by one, in any order, and the value is handed out when it is complete, or cleaned up if it is
given up half-way. The library is written in Rust and verified with Verus.

The library never touches memory. It decides which operation comes next (allocate, release, run a
destructor, move a value into a pointer, a list, a map), and hands it to a `Host`. Contracts state
the exact sequence of operations, and the laws show that every buffer is released by exactly one
authority: a frame, or a slot of its parent in which a finished value waits. So is the rope in which
a list stages its elements. The one exception is a conversion hook that does not say what became of
its source: that source is not touched again.

## Layout

- `src/memory.rs`, `src/shape.rs`, `src/pointer.rs`, `src/plan.rs`: addresses and operations, the
  description of types and pointers, and the plan for a root type.
- `src/iset.rs`, `src/rope.rs`, `src/tracker.rs`, `src/frame.rs`: what is initialized of one value,
  and how it is dropped.
- `src/fill.rs`, `src/finish.rs`: defaults, and completing a value.
- `src/absorb.rs`, `src/attach.rs`: how a parent takes over a finished child, at the end of deferred
  mode and in strict mode.
- `src/path.rs`, `src/stored.rs`, `src/pool.rs`, `src/partial.rs`: a whole value under construction,
  with the frames that were set aside.
- `src/fields.rs`, `src/smart_ptr.rs`, `src/end.rs`, `src/deferred.rs`, `src/cancel.rs`,
  `src/inspect.rs`: the operations on it.
- `src/cow.rs`: `Cow<T>`.
- `src/laws.rs`, `src/balance.rs`, `src/drops.rs`, `src/remnants.rs`, `src/order.rs`,
  `src/reentry.rs`: the laws. `src/net.rs`, `src/authority.rs` and `src/accounting.rs` count the
  claims to buffers and ropes.
- `app/`: a host on the real heap, with functions for `Cow<T>` and guards that clean up.
- `tests/`: scenarios on simulated memory, and single steps with their exact operations.
