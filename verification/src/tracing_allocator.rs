//! The allocator shim and the per-thread state it reads: whether the thread
//! is traced, and the label of the program phase it is in.

use vstd::prelude::*;
use crate::ring_buffer::{after_push, AllocatorEvent, RingBuffer};

verus! {

/// The label of a thread that has entered no scope.
pub const DEFAULT_CONTEXT: &'static str = "static";

/// What the tracer keeps for each thread. Every thread has a record of its
/// own, and nothing in it is shared.
#[derive(Clone, Copy, Debug, PartialEq, Eq)]
pub struct ThreadState {
    /// Whether allocations and frees made by this thread are published.
    pub tracing_enabled: bool,
    /// The label of the innermost scope that this thread is in.
    pub context: &'static str,
}

impl ThreadState {
    /// The record of a thread that has just started: traced, and in no scope.
    pub fn new() -> (thread: Self)
        ensures
            thread.tracing_enabled,
            thread.context == DEFAULT_CONTEXT,
    {
        ThreadState { tracing_enabled: true, context: DEFAULT_CONTEXT }
    }
}

/// The thread's record once it has entered a scope labelled `name`.
pub open spec fn entered(thread: ThreadState, name: &'static str) -> ThreadState {
    ThreadState { tracing_enabled: thread.tracing_enabled, context: name }
}

/// The handle of one scope. It remembers the single label that was current
/// when the scope was entered; nested scopes need no other stack than the
/// nesting of their handles.
pub struct TracingContext {
    previous: &'static str,
}

impl TracingContext {
    /// The label that this scope replaced.
    pub closed spec fn previous(self) -> &'static str {
        self.previous
    }

    /// The handle that entering a scope on `thread` gives.
    pub closed spec fn opened_on(thread: ThreadState) -> TracingContext {
        TracingContext { previous: thread.context }
    }

    /// The thread's record once this scope has been left.
    pub open spec fn exited(self, thread: ThreadState) -> ThreadState {
        ThreadState { tracing_enabled: thread.tracing_enabled, context: self.previous() }
    }

    /// Enters a scope: `name` becomes the thread's label, and the handle
    /// keeps the label that it replaces.
    pub fn enter(thread: &mut ThreadState, name: &'static str) -> (scope: Self)
        ensures
            scope == Self::opened_on(*old(thread)),
            scope.previous() == old(thread).context,
            *final(thread) == entered(*old(thread), name),
    {
        let previous = thread.context;
        thread.context = name;
        TracingContext { previous }
    }

    /// Leaves the scope: the label that it replaced is current again.
    pub fn exit(&self, thread: &mut ThreadState)
        ensures
            *final(thread) == self.exited(*old(thread)),
    {
        thread.context = self.previous;
    }
}

/// One step of a thread through its scopes.
pub enum ScopeOp {
    /// A scope with this label is entered.
    Enter(&'static str),
    /// The innermost open scope is left.
    Exit,
}

/// The thread's record after `ops`, and the handles of the scopes that are
/// still open, innermost last. Leaving a scope when none is open changes
/// nothing.
pub open spec fn nesting_after(thread: ThreadState, ops: Seq<ScopeOp>) -> (
    ThreadState,
    Seq<TracingContext>,
)
    decreases ops.len(),
{
    if ops.len() == 0 {
        (thread, Seq::empty())
    } else {
        let (before, open) = nesting_after(thread, ops.drop_last());
        match ops.last() {
            ScopeOp::Enter(name) => (
                entered(before, name),
                open.push(TracingContext::opened_on(before)),
            ),
            ScopeOp::Exit => if open.len() == 0 {
                (before, open)
            } else {
                (open.last().exited(before), open.drop_last())
            },
        }
    }
}

/// The labels that an explicit stack would hold after `ops`: `initial` at the
/// bottom, and above it the label of each scope that is still open.
pub open spec fn label_stack(initial: &'static str, ops: Seq<ScopeOp>) -> Seq<&'static str>
    decreases ops.len(),
{
    if ops.len() == 0 {
        seq![initial]
    } else {
        let below = label_stack(initial, ops.drop_last());
        match ops.last() {
            ScopeOp::Enter(name) => below.push(name),
            ScopeOp::Exit => if below.len() <= 1 {
                below
            } else {
                below.drop_last()
            },
        }
    }
}

/// Scopes nest to any depth. After any series of enters and exits the
/// thread's label is the top of the explicit stack of labels: the label of
/// the innermost scope still open, or the label from before the series when
/// none is. So each exit brings back exactly the label that was current when
/// its scope was entered. Each open handle holds the label below its own, and
/// the tracing switch is never touched.
pub proof fn lemma_exits_restore_labels(thread: ThreadState, ops: Seq<ScopeOp>)
    ensures
        nesting_after(thread, ops).0.context == label_stack(thread.context, ops).last(),
        nesting_after(thread, ops).0.tracing_enabled == thread.tracing_enabled,
        nesting_after(thread, ops).1.len() + 1 == label_stack(thread.context, ops).len(),
        forall|i: int|
            0 <= i < nesting_after(thread, ops).1.len() ==> (#[trigger] nesting_after(
                thread,
                ops,
            ).1[i]).previous() == label_stack(thread.context, ops)[i],
    decreases ops.len(),
{
    if ops.len() > 0 {
        lemma_exits_restore_labels(thread, ops.drop_last());
    }
}

/// The event that an allocation request gives rise to, if any: a request
/// that failed (the address is null) or that a thread with tracing switched
/// off made leaves no trace. The size plays no part: a request for no bytes
/// that was given an address is published like any other.
pub open spec fn allocation_event(thread: ThreadState, size: usize, address: usize) -> Option<
    AllocatorEvent,
> {
    if address != 0 && thread.tracing_enabled {
        Some(AllocatorEvent::Allocate { size, ptr_address: address, context: thread.context })
    } else {
        None
    }
}

/// The event that giving memory back gives rise to, if any.
pub open spec fn deallocation_event(thread: ThreadState, address: usize, size: usize) -> Option<
    AllocatorEvent,
> {
    if thread.tracing_enabled {
        Some(AllocatorEvent::Free { size, ptr_address: address })
    } else {
        None
    }
}

/// What a queue of `capacity` slots holds after `event`, if there is one, is
/// offered to it.
pub open spec fn after_publishing(
    pending: Seq<AllocatorEvent>,
    capacity: nat,
    event: Option<AllocatorEvent>,
) -> Seq<AllocatorEvent> {
    match event {
        Some(event) => after_push(pending, capacity, event),
        None => pending,
    }
}

/// The allocator shim: it owns the event queue and publishes into it what
/// the underlying allocator did. Its view is the queue's: the events that
/// wait, oldest first.
pub struct TracingAllocator<const N: usize> {
    ring: RingBuffer<N>,
}

impl<const N: usize> View for TracingAllocator<N> {
    type V = Seq<AllocatorEvent>;

    closed spec fn view(&self) -> Seq<AllocatorEvent> {
        self.ring@
    }
}

impl<const N: usize> TracingAllocator<N> {
    /// A shim that publishes into `ring`.
    pub fn new(ring: RingBuffer<N>) -> (allocator: Self)
        ensures
            allocator@ == ring@,
    {
        TracingAllocator { ring }
    }

    /// The queue that this shim publishes into.
    pub fn ring(&self) -> (ring: &RingBuffer<N>)
        ensures
            ring@ == self@,
    {
        &self.ring
    }

    /// The queue, for its consumer to take events from.
    pub fn ring_mut(&mut self) -> (ring: &mut RingBuffer<N>)
        ensures
            ring@ == old(self)@,
            final(self)@ == final(ring)@,
    {
        &mut self.ring
    }

    /// Switches tracing on for the thread that `thread` belongs to.
    pub fn enable_for_this_thread(&self, thread: &mut ThreadState)
        ensures
            final(thread).tracing_enabled,
            final(thread).context == old(thread).context,
    {
        thread.tracing_enabled = true;
    }

    /// Switches tracing off for the thread that `thread` belongs to. A thread
    /// that drains the queue or prints does this before anything else, since
    /// its own allocations would otherwise come back to it as events.
    pub fn disable_for_this_thread(&self, thread: &mut ThreadState)
        ensures
            !final(thread).tracing_enabled,
            final(thread).context == old(thread).context,
    {
        thread.tracing_enabled = false;
    }

    /// Publishes the outcome of a request for `size` bytes that the
    /// underlying allocator answered with `address`, null when it failed.
    pub fn allocate(&mut self, thread: &ThreadState, size: usize, address: usize)
        ensures
            final(self)@ == after_publishing(
                old(self)@,
                N as nat,
                allocation_event(*thread, size, address),
            ),
    {
        if address != 0 && thread.tracing_enabled {
            self.ring.push(
                AllocatorEvent::Allocate { size, ptr_address: address, context: thread.context },
            );
        }
    }

    /// Publishes that the `size` bytes at `address` went back to the
    /// underlying allocator.
    pub fn deallocate(&mut self, thread: &ThreadState, address: usize, size: usize)
        ensures
            final(self)@ == after_publishing(
                old(self)@,
                N as nat,
                deallocation_event(*thread, address, size),
            ),
    {
        if thread.tracing_enabled {
            self.ring.push(AllocatorEvent::Free { size, ptr_address: address });
        }
    }
}

} // verus!
