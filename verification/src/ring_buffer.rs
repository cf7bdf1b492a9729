//! The event queue: a circular array of fixed capacity that never grows and
//! never allocates.

use vstd::prelude::*;
use vstd::arithmetic::div_mod::{lemma_mod_self_0, lemma_small_mod};

verus! {

/// The capacity of the process-wide event queue.
pub const BUFFER_CAPACITY: usize = 4096;

/// One allocation or deallocation, as the allocator saw it.
#[derive(Clone, Copy, Debug, PartialEq, Eq)]
pub enum AllocatorEvent {
    /// `size` bytes were handed out at `ptr_address` while `context` was the
    /// allocating thread's label.
    Allocate { size: usize, ptr_address: usize, context: &'static str },
    /// The `size` bytes at `ptr_address` were given back.
    Free { size: usize, ptr_address: usize },
}

/// What a queue of `capacity` slots holds after `event` is offered to it:
/// the event joins the end while fewer than `capacity - 1` events wait, and
/// is dropped otherwise.
pub open spec fn after_push(
    pending: Seq<AllocatorEvent>,
    capacity: nat,
    event: AllocatorEvent,
) -> Seq<AllocatorEvent> {
    if pending.len() + 1 < capacity {
        pending.push(event)
    } else {
        pending
    }
}

/// What a pop hands out: the oldest waiting event, if there is one.
pub open spec fn popped(pending: Seq<AllocatorEvent>) -> Option<AllocatorEvent> {
    if pending.len() == 0 {
        None
    } else {
        Some(pending[0])
    }
}

/// What a queue holds after a pop.
pub open spec fn after_pop(pending: Seq<AllocatorEvent>) -> Seq<AllocatorEvent> {
    if pending.len() == 0 {
        pending
    } else {
        pending.drop_first()
    }
}

/// One use of a queue: an event is offered, or the oldest one is asked for.
pub enum QueueOp {
    Push(AllocatorEvent),
    Pop,
}

/// What a queue of `capacity` slots that held `start` holds after `ops`.
pub open spec fn pending_after(
    start: Seq<AllocatorEvent>,
    capacity: nat,
    ops: Seq<QueueOp>,
) -> Seq<AllocatorEvent>
    decreases ops.len(),
{
    if ops.len() == 0 {
        start
    } else {
        let before = pending_after(start, capacity, ops.drop_last());
        match ops.last() {
            QueueOp::Push(event) => after_push(before, capacity, event),
            QueueOp::Pop => after_pop(before),
        }
    }
}

/// The events that the pops among `ops` handed out, in the order of the pops.
pub open spec fn delivered(
    start: Seq<AllocatorEvent>,
    capacity: nat,
    ops: Seq<QueueOp>,
) -> Seq<AllocatorEvent>
    decreases ops.len(),
{
    if ops.len() == 0 {
        Seq::empty()
    } else {
        let earlier = delivered(start, capacity, ops.drop_last());
        let before = pending_after(start, capacity, ops.drop_last());
        match ops.last() {
            QueueOp::Push(_) => earlier,
            QueueOp::Pop => match popped(before) {
                Some(event) => earlier.push(event),
                None => earlier,
            },
        }
    }
}

/// The events that the pushes among `ops` offered, in the order of the pushes.
pub open spec fn offered(ops: Seq<QueueOp>) -> Seq<AllocatorEvent>
    decreases ops.len(),
{
    if ops.len() == 0 {
        Seq::empty()
    } else {
        match ops.last() {
            QueueOp::Push(event) => offered(ops.drop_last()).push(event),
            QueueOp::Pop => offered(ops.drop_last()),
        }
    }
}

/// The offered events that found a free slot, in the order of the pushes.
pub open spec fn accepted(
    start: Seq<AllocatorEvent>,
    capacity: nat,
    ops: Seq<QueueOp>,
) -> Seq<AllocatorEvent>
    decreases ops.len(),
{
    if ops.len() == 0 {
        Seq::empty()
    } else {
        let earlier = accepted(start, capacity, ops.drop_last());
        let before = pending_after(start, capacity, ops.drop_last());
        match ops.last() {
            QueueOp::Push(event) => if before.len() + 1 < capacity {
                earlier.push(event)
            } else {
                earlier
            },
            QueueOp::Pop => earlier,
        }
    }
}

/// Whether every push among `ops` comes at a moment when fewer than
/// `capacity - 1` events wait.
pub open spec fn room_for_every_push(
    start: Seq<AllocatorEvent>,
    capacity: nat,
    ops: Seq<QueueOp>,
) -> bool {
    forall|k: int|
        0 <= k < ops.len() && ops[k] is Push ==> (#[trigger] pending_after(
            start,
            capacity,
            ops.take(k),
        )).len() + 1 < capacity
}

/// Overflow loses the newest event only. Whatever is pushed and popped, the
/// events handed out so far followed by the events still waiting are the
/// events that waited at the start followed by the accepted ones, each once
/// and in the order of arrival. A push that finds the queue full changes
/// nothing in it.
pub proof fn lemma_overflow_drops_only_the_newest(
    start: Seq<AllocatorEvent>,
    capacity: nat,
    ops: Seq<QueueOp>,
)
    ensures
        delivered(start, capacity, ops) + pending_after(start, capacity, ops) == start + accepted(
            start,
            capacity,
            ops,
        ),
        forall|event: AllocatorEvent|
            pending_after(start, capacity, ops).len() + 1 >= capacity ==> #[trigger] after_push(
                pending_after(start, capacity, ops),
                capacity,
                event,
            ) == pending_after(start, capacity, ops),
    decreases ops.len(),
{
    if ops.len() > 0 {
        lemma_overflow_drops_only_the_newest(start, capacity, ops.drop_last());
        let before = pending_after(start, capacity, ops.drop_last());
        let earlier = delivered(start, capacity, ops.drop_last());
        let taken = accepted(start, capacity, ops.drop_last());
        assert(earlier + before == start + taken);
        match ops.last() {
            QueueOp::Push(event) => {
                if before.len() + 1 < capacity {
                    assert(earlier + before.push(event) =~= (earlier + before).push(event));
                    assert(start + taken.push(event) =~= (start + taken).push(event));
                }
            },
            QueueOp::Pop => {
                if before.len() > 0 {
                    assert(earlier.push(before[0]) + before.drop_first() =~= earlier + before);
                }
            },
        }
    } else {
        assert(Seq::<AllocatorEvent>::empty() + start =~= start + Seq::<AllocatorEvent>::empty());
    }
}

/// While no push finds the queue full, nothing is lost and nothing changes
/// place: the events handed out so far followed by the events still waiting
/// are the events that waited at the start followed by all that were pushed,
/// in the order of the pushes.
pub proof fn lemma_pops_follow_push_order(
    start: Seq<AllocatorEvent>,
    capacity: nat,
    ops: Seq<QueueOp>,
)
    requires
        room_for_every_push(start, capacity, ops),
    ensures
        accepted(start, capacity, ops) == offered(ops),
        delivered(start, capacity, ops) + pending_after(start, capacity, ops) == start + offered(
            ops,
        ),
    decreases ops.len(),
{
    lemma_overflow_drops_only_the_newest(start, capacity, ops);
    if ops.len() > 0 {
        let shorter = ops.drop_last();
        assert forall|k: int| 0 <= k < shorter.len() && shorter[k] is Push implies (
        #[trigger] pending_after(start, capacity, shorter.take(k))).len() + 1 < capacity by {
            assert(shorter.take(k) =~= ops.take(k));
            assert(ops[k] is Push);
        }
        lemma_pops_follow_push_order(start, capacity, shorter);
        if ops.last() is Push {
            assert(ops.take(ops.len() - 1) =~= shorter);
            assert(ops[ops.len() - 1] is Push);
        }
    }
}

/// A queue never holds more than `capacity - 1` events, if it did not at the
/// start.
pub proof fn lemma_one_slot_stays_unused(
    start: Seq<AllocatorEvent>,
    capacity: nat,
    ops: Seq<QueueOp>,
)
    requires
        start.len() + 1 <= capacity,
    ensures
        pending_after(start, capacity, ops).len() + 1 <= capacity,
    decreases ops.len(),
{
    if ops.len() > 0 {
        lemma_one_slot_stays_unused(start, capacity, ops.drop_last());
    }
}

/// A circular array of `N` slots with a write cursor and a read cursor. One
/// slot always stays unused, so that an empty queue (the cursors meet) and a
/// full one (the write cursor is one step behind the read cursor) can be told
/// apart: at most `N - 1` events wait at any time.
///
/// Its view is the sequence of waiting events, oldest first.
pub struct RingBuffer<const N: usize> {
    buffer: [AllocatorEvent; N],
    write_index: usize,
    read_index: usize,
}

impl<const N: usize> View for RingBuffer<N> {
    type V = Seq<AllocatorEvent>;

    closed spec fn view(&self) -> Seq<AllocatorEvent> {
        Seq::new(self.occupied(), |i: int| self.buffer@[self.slot(i)])
    }
}

impl<const N: usize> RingBuffer<N> {
    #[verifier::type_invariant]
    spec fn cursors_in_range(self) -> bool {
        N > 0 ==> self.write_index < N && self.read_index < N
    }

    /// The number of slots between the read cursor and the write cursor.
    spec fn occupied(self) -> nat {
        if N == 0 {
            0
        } else if self.write_index >= self.read_index {
            (self.write_index - self.read_index) as nat
        } else {
            (self.write_index + N - self.read_index) as nat
        }
    }

    /// The slot of the `i`-th waiting event.
    spec fn slot(self, i: int) -> int {
        if self.read_index + i < N {
            self.read_index + i
        } else {
            self.read_index + i - N
        }
    }

    /// An empty queue.
    pub fn new() -> (ring: Self)
        ensures
            ring@ == Seq::<AllocatorEvent>::empty(),
    {
        RingBuffer {
            buffer: [AllocatorEvent::Free { size: 0, ptr_address: 0 }; N],
            write_index: 0,
            read_index: 0,
        }
    }

    /// The number of slots, one more than the events that can wait at once.
    pub fn capacity(&self) -> (capacity: usize)
        ensures
            capacity == N,
    {
        N
    }

    /// The number of waiting events.
    pub fn len(&self) -> (len: usize)
        ensures
            len == self@.len(),
            N > 0 ==> len < N,
    {
        proof {
            use_type_invariant(self);
        }
        if N == 0 {
            0
        } else if self.write_index >= self.read_index {
            self.write_index - self.read_index
        } else {
            N - self.read_index + self.write_index
        }
    }

    /// Offers `event` to the queue. A full queue drops it: nothing is
    /// reported, nothing waits, and what was accepted before stays in place.
    pub fn push(&mut self, event: AllocatorEvent)
        ensures
            final(self)@ == after_push(old(self)@, N as nat, event),
    {
        proof {
            use_type_invariant(&*self);
        }
        if N == 0 {
            return;
        }
        let write: usize = self.write_index;
        proof {
            if write + 1 < N {
                lemma_small_mod((write + 1) as nat, N as nat);
            } else {
                lemma_mod_self_0(N as int);
            }
        }
        let next: usize = (write + 1) % N;
        if next == self.read_index {
            return;
        }
        self.buffer[write] = event;
        self.write_index = next;
        assert(self@ =~= old(self)@.push(event));
    }

    /// Takes the oldest waiting event out of the queue, or reports that none
    /// waits.
    pub fn pop(&mut self) -> (event: Option<AllocatorEvent>)
        ensures
            event == popped(old(self)@),
            final(self)@ == after_pop(old(self)@),
    {
        proof {
            use_type_invariant(&*self);
        }
        if N == 0 {
            return None;
        }
        let read: usize = self.read_index;
        if read == self.write_index {
            return None;
        }
        let event = self.buffer[read];
        proof {
            if read + 1 < N {
                lemma_small_mod((read + 1) as nat, N as nat);
            } else {
                lemma_mod_self_0(N as int);
            }
        }
        let next: usize = (read + 1) % N;
        self.read_index = next;
        assert(self@ =~= old(self)@.drop_first());
        Some(event)
    }
}

} // verus!
