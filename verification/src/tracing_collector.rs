//! The collector: it takes the events out of the queue and folds them into
//! an append-only store of allocations and an index of the addresses that
//! are live.

use vstd::prelude::*;
use std::collections::BTreeMap;
use vstd::std_specs::btree::increasing_seq;
use vstd::std_specs::cmp::OrdSpec;
use vstd::std_specs::iter::IteratorSpec;
use crate::ring_buffer::{AllocatorEvent, RingBuffer};
use crate::tracing_allocator::ThreadState;

verus! {

/// The position of a record in the store.
pub type AllocationId = usize;

/// The milliseconds that the background task sleeps between two polls.
pub const POLL_INTERVAL_MILLIS: u64 = 100;

/// One recorded allocation: the bytes from `start_address` up to
/// `end_exclusive`.
#[derive(Debug, Clone, Copy, PartialEq, Eq, Structural)]
pub struct AllocatedInterval {
    pub id: AllocationId,
    pub start_address: usize,
    pub size: usize,
    pub end_exclusive: usize,
}

/// The address just past `size` bytes at `start`, or the highest address
/// where the bytes would run past it.
pub open spec fn end_of(start: usize, size: usize) -> usize {
    if start + size > usize::MAX {
        usize::MAX
    } else {
        (start + size) as usize
    }
}

impl AllocatedInterval {
    /// The record of `size` bytes at `start`, stored at position `id`.
    pub open spec fn recorded(id: AllocationId, start: usize, size: usize) -> AllocatedInterval {
        AllocatedInterval { id, start_address: start, size, end_exclusive: end_of(start, size) }
    }

    /// The record of `size` bytes at `start`, stored at position `id`.
    pub fn new(id: AllocationId, start: usize, size: usize) -> (interval: Self)
        ensures
            interval == Self::recorded(id, start, size),
    {
        AllocatedInterval {
            id,
            start_address: start,
            size,
            end_exclusive: start.saturating_add(size),
        }
    }
}

/// Whether each of `records` sits at the position that its id names and ends
/// where its start and size say.
pub open spec fn numbered_in_order(records: Seq<AllocatedInterval>) -> bool {
    forall|i: int|
        0 <= i < records.len() ==> #[trigger] records[i] == AllocatedInterval::recorded(
            i as usize,
            records[i].start_address,
            records[i].size,
        )
}

/// An append-only store of all recorded allocations. Its view is the
/// sequence of records; a record's id is its position.
pub struct AllocationStore(Vec<AllocatedInterval>);

impl View for AllocationStore {
    type V = Seq<AllocatedInterval>;

    closed spec fn view(&self) -> Seq<AllocatedInterval> {
        self.0@
    }
}

impl AllocationStore {
    #[verifier::type_invariant]
    spec fn well_formed(self) -> bool {
        numbered_in_order(self.0@)
    }

    /// An empty store.
    pub fn new() -> (store: Self)
        ensures
            store@ == Seq::<AllocatedInterval>::empty(),
    {
        AllocationStore(Vec::new())
    }

    /// The number of records.
    pub fn len(&self) -> (len: usize)
        ensures
            len == self@.len(),
            numbered_in_order(self@),
    {
        proof {
            use_type_invariant(self);
        }
        self.0.len()
    }

    /// The record with this id, if there is one.
    pub fn get(&self, id: AllocationId) -> (record: Option<&AllocatedInterval>)
        ensures
            id < self@.len() ==> record == Some(&self@[id as int]),
            id >= self@.len() ==> record is None,
            numbered_in_order(self@),
    {
        proof {
            use_type_invariant(self);
        }
        if id < self.0.len() {
            Some(&self.0[id])
        } else {
            None
        }
    }

    /// Appends the record of `size` bytes at `ptr_address` and returns its
    /// id, the next in sequence.
    pub fn push(&mut self, size: usize, ptr_address: usize) -> (id: AllocationId)
        ensures
            id == old(self)@.len(),
            final(self)@ == old(self)@.push(AllocatedInterval::recorded(id, ptr_address, size)),
    {
        proof {
            use_type_invariant(&*self);
        }
        // The store stays well formed at every step: the records are taken
        // out, extended, and put back.
        let mut records: Vec<AllocatedInterval> = Vec::new();
        std::mem::swap(&mut records, &mut self.0);
        let this_id: usize = records.len();
        records.push(AllocatedInterval::new(this_id, ptr_address, size));
        self.0 = records;
        this_id
    }
}

/// What the collector has gathered: every allocation that it was told of,
/// and for each address that is live the id of the record that describes it.
pub struct CollectorModel {
    pub records: Seq<AllocatedInterval>,
    pub index: Map<usize, AllocationId>,
}

/// What the collector has gathered before it has seen any event.
pub open spec fn nothing_gathered() -> CollectorModel {
    CollectorModel { records: Seq::empty(), index: Map::empty() }
}

/// What the collector has gathered once an allocation of `size` bytes at
/// `ptr_address` is applied: the allocation is appended to the records under
/// the next id, and its address points to that record from then on, whether
/// or not the address was indexed before.
pub open spec fn after_allocation(
    state: CollectorModel,
    size: usize,
    ptr_address: usize,
) -> CollectorModel {
    CollectorModel {
        records: state.records.push(
            AllocatedInterval::recorded(state.records.len() as usize, ptr_address, size),
        ),
        index: state.index.insert(ptr_address, state.records.len() as usize),
    }
}

/// What the collector has gathered once a free of the bytes at `ptr_address`
/// is applied: the address is no longer indexed. Where it was not indexed
/// before, nothing changes. No record ever leaves the store.
pub open spec fn after_free(state: CollectorModel, ptr_address: usize) -> CollectorModel {
    CollectorModel { records: state.records, index: state.index.remove(ptr_address) }
}

/// What the collector has gathered once `event` is applied.
pub open spec fn after_event(state: CollectorModel, event: AllocatorEvent) -> CollectorModel {
    match event {
        AllocatorEvent::Allocate { size, ptr_address, .. } => after_allocation(
            state,
            size,
            ptr_address,
        ),
        AllocatorEvent::Free { ptr_address, .. } => after_free(state, ptr_address),
    }
}

/// What the collector has gathered once `events` are applied, first to last.
pub open spec fn after_events(state: CollectorModel, events: Seq<AllocatorEvent>) -> CollectorModel
    decreases events.len(),
{
    if events.len() == 0 {
        state
    } else {
        after_event(after_events(state, events.drop_last()), events.last())
    }
}

/// Whether every indexed address names a record that starts at that address.
pub open spec fn index_names_records(state: CollectorModel) -> bool {
    forall|address: usize| #[trigger]
        state.index.contains_key(address) ==> state.index[address] < state.records.len()
            && state.records[state.index[address] as int].start_address == address
}

/// Whether `snapshot` is the live view of `state`: the records that the
/// index points to, one for each indexed address, by ascending address.
pub open spec fn is_live_snapshot(state: CollectorModel, snapshot: Seq<AllocatedInterval>) -> bool {
    &&& forall|i: int|
        0 <= i < snapshot.len() ==> state.index.contains_key(#[trigger] snapshot[i].start_address)
            && snapshot[i] == state.records[state.index[snapshot[i].start_address] as int]
    &&& forall|i: int, j: int|
        0 <= i < j < snapshot.len() ==> (#[trigger] snapshot[i]).start_address < (
        #[trigger] snapshot[j]).start_address
    &&& forall|address: usize| #[trigger]
        state.index.contains_key(address) ==> exists|i: int|
            0 <= i < snapshot.len() && (#[trigger] snapshot[i]).start_address == address
}

/// Whether `event` is an allocation at `address`.
pub open spec fn allocates(event: AllocatorEvent, address: usize) -> bool {
    event matches AllocatorEvent::Allocate { ptr_address, .. } && ptr_address == address
}

/// Whether `event` is a free of `address`.
pub open spec fn frees(event: AllocatorEvent, address: usize) -> bool {
    event matches AllocatorEvent::Free { ptr_address, .. } && ptr_address == address
}

/// Whether `events` allocate `address` and do not free it afterwards.
pub open spec fn allocated_and_not_freed(events: Seq<AllocatorEvent>, address: usize) -> bool {
    exists|i: int|
        0 <= i < events.len() && allocates(#[trigger] events[i], address) && forall|j: int|
            i < j < events.len() ==> !frees(#[trigger] events[j], address)
}

/// Whether none of `events` frees `address`.
pub open spec fn never_freed(events: Seq<AllocatorEvent>, address: usize) -> bool {
    forall|j: int| 0 <= j < events.len() ==> !frees(#[trigger] events[j], address)
}

/// The index is the addresses allocated less the addresses freed afterwards,
/// over the events that were delivered. After any events are applied, an
/// address is indexed exactly if the events allocate it and do not free it
/// afterwards, or if it was indexed before and no event frees it.
pub proof fn lemma_index_is_allocated_less_freed(
    state: CollectorModel,
    events: Seq<AllocatorEvent>,
    address: usize,
)
    ensures
        after_events(state, events).index.contains_key(address) <==> allocated_and_not_freed(
            events,
            address,
        ) || (state.index.contains_key(address) && never_freed(events, address)),
    decreases events.len(),
{
    if events.len() > 0 {
        let earlier = events.drop_last();
        let newest = events.last();
        let last = events.len() - 1;
        lemma_index_is_allocated_less_freed(state, earlier, address);
        assert(forall|j: int| 0 <= j < earlier.len() ==> earlier[j] == events[j]);
        if allocates(newest, address) {
            assert(allocates(events[last], address));
        } else if frees(newest, address) {
            assert(frees(events[last], address));
            if allocated_and_not_freed(events, address) {
                let i = choose|i: int|
                    0 <= i < events.len() && allocates(#[trigger] events[i], address) && forall|
                        j: int,
                    |
                        i < j < events.len() ==> !frees(#[trigger] events[j], address);
                assert(i < last);
            }
        } else {
            if allocated_and_not_freed(earlier, address) {
                let i = choose|i: int|
                    0 <= i < earlier.len() && allocates(#[trigger] earlier[i], address) && forall|
                        j: int,
                    |
                        i < j < earlier.len() ==> !frees(#[trigger] earlier[j], address);
                assert(allocates(events[i], address));
                assert forall|j: int| i < j < events.len() implies !frees(
                    #[trigger] events[j],
                    address,
                ) by {
                    if j < last {
                        assert(!frees(earlier[j], address));
                    }
                }
            }
            if allocated_and_not_freed(events, address) {
                let i = choose|i: int|
                    0 <= i < events.len() && allocates(#[trigger] events[i], address) && forall|
                        j: int,
                    |
                        i < j < events.len() ==> !frees(#[trigger] events[j], address);
                assert(i < last);
                assert(allocates(earlier[i], address));
                assert forall|j: int| i < j < earlier.len() implies !frees(
                    #[trigger] earlier[j],
                    address,
                ) by {
                    assert(!frees(events[j], address));
                }
            }
            if never_freed(earlier, address) {
                assert forall|j: int| 0 <= j < events.len() implies !frees(
                    #[trigger] events[j],
                    address,
                ) by {
                    if j < last {
                        assert(!frees(earlier[j], address));
                    }
                }
            }
            if never_freed(events, address) {
                assert forall|j: int| 0 <= j < earlier.len() implies !frees(
                    #[trigger] earlier[j],
                    address,
                ) by {
                    assert(!frees(events[j], address));
                }
            }
        }
    }
}

/// From nothing, the index holds exactly the addresses that the delivered
/// events allocate and do not free afterwards.
pub proof fn lemma_index_from_nothing(events: Seq<AllocatorEvent>)
    ensures
        after_events(nothing_gathered(), events).index.dom() == Set::new(
            |address: usize| allocated_and_not_freed(events, address),
        ),
{
    assert forall|address: usize|
        after_events(nothing_gathered(), events).index.dom().contains(address)
            <==> allocated_and_not_freed(events, address) by {
        lemma_index_is_allocated_less_freed(nothing_gathered(), events, address);
    }
    assert(after_events(nothing_gathered(), events).index.dom() =~= Set::new(
        |address: usize| allocated_and_not_freed(events, address),
    ));
}

/// The records only grow, and the index stays sound: where each indexed
/// address names a record that starts at it and each record sits at the
/// position of its id, the same holds after any events that the ids have
/// room for, and every record that was there is still in its place.
pub proof fn lemma_events_keep_index_sound(state: CollectorModel, events: Seq<AllocatorEvent>)
    requires
        index_names_records(state),
        numbered_in_order(state.records),
        state.records.len() + events.len() <= usize::MAX,
    ensures
        index_names_records(after_events(state, events)),
        numbered_in_order(after_events(state, events).records),
        state.records.len() <= after_events(state, events).records.len() <= state.records.len()
            + events.len(),
        forall|i: int|
            0 <= i < state.records.len() ==> after_events(state, events).records[i]
                == state.records[i],
    decreases events.len(),
{
    if events.len() > 0 {
        lemma_events_keep_index_sound(state, events.drop_last());
        let before = after_events(state, events.drop_last());
        assert(index_names_records(before));
        assert(index_names_records(after_event(before, events.last())));
    }
}

/// A state has one live view only.
pub proof fn lemma_live_snapshot_is_unique(
    state: CollectorModel,
    first: Seq<AllocatedInterval>,
    second: Seq<AllocatedInterval>,
)
    requires
        is_live_snapshot(state, first),
        is_live_snapshot(state, second),
    ensures
        first == second,
{
    lemma_ascending_lists_agree(state, first, second, first.len() as int);
    lemma_ascending_lists_agree(state, second, first, second.len() as int);
    assert(first =~= second);
}

/// Two live views of one state agree on the first `n` places of the first.
proof fn lemma_ascending_lists_agree(
    state: CollectorModel,
    first: Seq<AllocatedInterval>,
    second: Seq<AllocatedInterval>,
    n: int,
)
    requires
        is_live_snapshot(state, first),
        is_live_snapshot(state, second),
        0 <= n <= first.len(),
    ensures
        n <= second.len(),
        forall|i: int| 0 <= i < n ==> first[i] == second[i],
    decreases n,
{
    if n > 0 {
        lemma_ascending_lists_agree(state, first, second, n - 1);
        let address = first[n - 1].start_address;
        assert(state.index.contains_key(address));
        let k = choose|k: int| 0 <= k < second.len() && (#[trigger] second[k]).start_address == address;
        // The place of `address` in `second` is `n - 1`: an earlier place
        // holds what `first` holds there, a smaller address; and were it a
        // later place, the address at place `n - 1` of `second` would be
        // smaller than every address of `first` from place `n - 1` on, and
        // equal to one of the earlier ones, which are smaller still.
        if k < n - 1 {
            assert(first[k] == second[k]);
            assert(first[k].start_address < first[n - 1].start_address);
        } else if k > n - 1 {
            let other = second[n - 1].start_address;
            assert(second[n - 1].start_address < second[k].start_address);
            assert(state.index.contains_key(other));
            let m = choose|m: int| 0 <= m < first.len() && (#[trigger] first[m]).start_address == other;
            if m < n - 1 {
                assert(first[m] == second[m]);
                assert(second[m].start_address < second[n - 1].start_address);
            } else if m > n - 1 {
                assert(first[n - 1].start_address < first[m].start_address);
            }
        }
        assert(k == n - 1);
    }
}

/// The state behind a collector: the store, the index, and the flag that
/// asks the background task to end.
pub struct TracingCollectorInner {
    allocation_store: AllocationStore,
    index_by_ptr: BTreeMap<usize, AllocationId>,
    stop_flag: bool,
}

impl View for TracingCollectorInner {
    type V = CollectorModel;

    closed spec fn view(&self) -> CollectorModel {
        CollectorModel { records: self.allocation_store@, index: self.index_by_ptr@ }
    }
}

impl TracingCollectorInner {
    #[verifier::type_invariant]
    spec fn well_formed(self) -> bool {
        index_names_records(self@)
    }

    /// Whether the background task has been asked to end.
    pub closed spec fn stop_requested(self) -> bool {
        self.stop_flag
    }

    /// A state with nothing gathered and no request to end.
    pub fn new() -> (inner: Self)
        ensures
            inner@ == nothing_gathered(),
            !inner.stop_requested(),
    {
        TracingCollectorInner {
            allocation_store: AllocationStore::new(),
            index_by_ptr: BTreeMap::new(),
            stop_flag: false,
        }
    }
}

/// A copy of all that a collector holds, for a reader to inspect: every
/// record of the store, and the index as pairs of an address and the id that
/// it points to.
#[derive(Debug)]
pub struct CollectorContents {
    pub allocation_store: Vec<AllocatedInterval>,
    pub index_by_ptr: Vec<(usize, AllocationId)>,
}

/// Whether `entries` are the pairs of `index`, one for each address, by
/// ascending address.
pub open spec fn lists_index(
    index: Map<usize, AllocationId>,
    entries: Seq<(usize, AllocationId)>,
) -> bool {
    &&& forall|i: int|
        0 <= i < entries.len() ==> index.contains_key((#[trigger] entries[i]).0)
            && index[entries[i].0] == entries[i].1
    &&& forall|i: int, j: int|
        0 <= i < j < entries.len() ==> (#[trigger] entries[i]).0 < (#[trigger] entries[j]).0
    &&& forall|address: usize| #[trigger]
        index.contains_key(address) ==> exists|i: int|
            0 <= i < entries.len() && (#[trigger] entries[i]).0 == address
}

/// What the background task does after a poll.
#[derive(Debug, Clone, Copy, PartialEq, Eq, Structural)]
pub enum CollectorStep {
    /// Sleep for this many milliseconds without holding the collector, then
    /// poll again.
    Sleep { millis: u64 },
    /// End: a stop was requested. Events that still wait stay in the queue.
    Exit,
}

/// The collector. Its view is what it has gathered.
pub struct TracingCollector {
    inner: TracingCollectorInner,
}

impl View for TracingCollector {
    type V = CollectorModel;

    closed spec fn view(&self) -> CollectorModel {
        self.inner@
    }
}

impl TracingCollector {
    /// Whether the background task has been asked to end.
    pub closed spec fn stop_requested(self) -> bool {
        self.inner.stop_requested()
    }

    /// A collector that has gathered nothing.
    pub fn new() -> (collector: Self)
        ensures
            collector@ == nothing_gathered(),
            !collector.stop_requested(),
    {
        TracingCollector { inner: TracingCollectorInner::new() }
    }

    /// Lets the background task run: a request to end, if one was made, is
    /// withdrawn. What was gathered stays.
    pub fn start(&mut self)
        ensures
            !final(self).stop_requested(),
            final(self)@ == old(self)@,
    {
        proof {
            use_type_invariant(&self.inner);
        }
        self.inner.stop_flag = false;
    }

    /// Asks the background task to end. It does so at its next poll; what
    /// was gathered stays, and events that still wait are left in the queue.
    pub fn stop(&mut self)
        ensures
            final(self).stop_requested(),
            final(self)@ == old(self)@,
    {
        proof {
            use_type_invariant(&self.inner);
        }
        self.inner.stop_flag = true;
    }

    /// One cycle of the background task. Where a stop was requested the task
    /// ends and nothing is touched. Otherwise every waiting event is taken
    /// out of `ring` and applied, and the task sleeps before its next cycle.
    ///
    /// The thread that polls has tracing switched off: what it allocates
    /// while it gathers must not come back to it as events.
    pub fn poll<const N: usize>(
        &mut self,
        ring: &mut RingBuffer<N>,
        thread: &ThreadState,
    ) -> (step: CollectorStep)
        requires
            !thread.tracing_enabled,
        ensures
            final(self).stop_requested() == old(self).stop_requested(),
            old(self).stop_requested() ==> {
                &&& step == CollectorStep::Exit
                &&& final(self)@ == old(self)@
                &&& final(ring)@ == old(ring)@
            },
            !old(self).stop_requested() ==> {
                &&& step == (CollectorStep::Sleep { millis: POLL_INTERVAL_MILLIS })
                &&& final(self)@ == after_events(old(self)@, old(ring)@)
                &&& final(ring)@ == Seq::<AllocatorEvent>::empty()
            },
    {
        if self.inner.stop_flag {
            return CollectorStep::Exit;
        }
        Self::poll_ring_buffer(&mut self.inner, ring);
        CollectorStep::Sleep { millis: POLL_INTERVAL_MILLIS }
    }

    /// A copy of the store and of the index, for a diagnostic dump. Nothing
    /// in the collector changes.
    pub fn print_contents(&self) -> (contents: CollectorContents)
        ensures
            contents.allocation_store@ == self@.records,
            lists_index(self@.index, contents.index_by_ptr@),
    {
        Self::print_contents_inner(&self.inner)
    }

    /// A copy of the record of every live allocation, by ascending address:
    /// one view of a single moment.
    pub fn get_allocated_intervals(&self) -> (memory_intervals: Vec<AllocatedInterval>)
        ensures
            is_live_snapshot(self@, memory_intervals@),
            index_names_records(self@),
            numbered_in_order(self@.records),
    {
        Self::get_allocated_intervals_inner(&self.inner)
    }

    /// Applies an allocation of `size` bytes at `ptr_address`: a new record
    /// under the next id, to which the address points from now on. An address
    /// that was indexed already (its free was lost, or the allocator used it
    /// again) is pointed at the new record; its old record stays in the store.
    pub fn record_allocation(inner: &mut TracingCollectorInner, size: usize, ptr_address: usize)
        ensures
            final(inner)@ == after_allocation(old(inner)@, size, ptr_address),
            final(inner).stop_requested() == old(inner).stop_requested(),
    {
        proof {
            use_type_invariant(&*inner);
        }
        // The index is taken out first and put back last, so that the state
        // is well formed at every step in between.
        let mut index: BTreeMap<usize, AllocationId> = BTreeMap::new();
        std::mem::swap(&mut index, &mut inner.index_by_ptr);
        let mut store = AllocationStore::new();
        std::mem::swap(&mut store, &mut inner.allocation_store);
        let ghost before = CollectorModel { records: store@, index: index@ };
        let allocation_id: AllocationId = store.push(size, ptr_address);
        index.insert(ptr_address, allocation_id);
        assert(index_names_records(after_allocation(before, size, ptr_address))) by {
            assert(index_names_records(before));
        }
        inner.allocation_store = store;
        inner.index_by_ptr = index;
    }

    /// Applies a free of the bytes at `ptr_address`: the address leaves the
    /// index. A free of an address that is not indexed (its allocation was
    /// lost, or came before the tracer) changes nothing.
    pub fn record_free(inner: &mut TracingCollectorInner, _size: usize, ptr_address: usize)
        ensures
            final(inner)@ == after_free(old(inner)@, ptr_address),
            final(inner).stop_requested() == old(inner).stop_requested(),
    {
        proof {
            use_type_invariant(&*inner);
        }
        let mut index: BTreeMap<usize, AllocationId> = BTreeMap::new();
        std::mem::swap(&mut index, &mut inner.index_by_ptr);
        let ghost before = CollectorModel { records: inner.allocation_store@, index: index@ };
        let _allocation_id = index.remove(&ptr_address);
        assert(index_names_records(after_free(before, ptr_address))) by {
            assert(index_names_records(before));
        }
        inner.index_by_ptr = index;
    }

    /// Takes every waiting event out of `ring`, oldest first, and applies
    /// each one.
    pub fn poll_ring_buffer<const N: usize>(
        inner: &mut TracingCollectorInner,
        ring: &mut RingBuffer<N>,
    )
        ensures
            final(ring)@ == Seq::<AllocatorEvent>::empty(),
            final(inner)@ == after_events(old(inner)@, old(ring)@),
            final(inner).stop_requested() == old(inner).stop_requested(),
    {
        let ghost start = inner@;
        let ghost events = ring@;
        let ghost stop = inner.stop_requested();
        let ghost mut applied: int = 0;
        loop
            invariant
                0 <= applied <= events.len(),
                ring@ == events.skip(applied),
                inner@ == after_events(start, events.take(applied)),
                inner.stop_requested() == stop,
            ensures
                ring@ == Seq::<AllocatorEvent>::empty(),
                inner@ == after_events(start, events),
                inner.stop_requested() == stop,
            decreases events.len() - applied,
        {
            match ring.pop() {
                Some(event) => {
                    proof {
                        assert(event == events[applied]);
                        assert(events.take(applied + 1).drop_last() == events.take(applied));
                        assert(events.take(applied + 1).last() == event);
                        assert(ring@ == events.skip(applied + 1));
                        applied = applied + 1;
                    }
                    match event {
                        AllocatorEvent::Allocate { size, ptr_address, .. } => {
                            Self::record_allocation(inner, size, ptr_address)
                        },
                        AllocatorEvent::Free { size, ptr_address } => {
                            Self::record_free(inner, size, ptr_address)
                        },
                    }
                },
                None => {
                    proof {
                        assert(events.take(applied) == events);
                    }
                    break ;
                },
            }
        }
    }

    /// A copy of the record of every live allocation, by ascending address.
    pub fn get_allocated_intervals_inner(inner: &TracingCollectorInner) -> (memory_intervals: Vec<
        AllocatedInterval,
    >)
        ensures
            is_live_snapshot(inner@, memory_intervals@),
            index_names_records(inner@),
            numbered_in_order(inner@.records),
    {
        proof {
            use_type_invariant(inner);
            use_type_invariant(&inner.allocation_store);
        }
        let mut memory_intervals: Vec<AllocatedInterval> = Vec::new();
        let values = inner.index_by_ptr.values();
        let ghost index = inner.index_by_ptr@;
        let ghost records = inner.allocation_store@;
        let ghost addresses = choose|addresses: Seq<usize>|
            {
                &&& increasing_seq(addresses)
                &&& addresses.to_set() == index.dom()
                &&& values.remaining() == addresses.map(|i: int, address: usize| &index[address])
            };
        for alloc_id in ids: values
            invariant
                ids.seq() == addresses.map(|i: int, address: usize| &index[address]),
                addresses.to_set() == index.dom(),
                index == inner.index_by_ptr@,
                records == inner.allocation_store@,
                index_names_records(inner@),
                memory_intervals@.len() == ids.index(),
                forall|i: int|
                    0 <= i < memory_intervals@.len() ==> #[trigger] memory_intervals@[i]
                        == records[index[addresses[i]] as int],
        {
            proof {
                let address = addresses[ids.index()];
                assert(addresses.to_set().contains(address));
                assert(index.contains_key(address));
                assert(*alloc_id == index[address]);
                assert(inner@.index.contains_key(address));
                assert(index[address] < records.len());
            }
            match inner.allocation_store.get(*alloc_id) {
                Some(allocation) => {
                    memory_intervals.push(allocation.clone());
                },
                None => {},
            }
        }
        proof {
            assert(memory_intervals@.len() == addresses.len());
            lemma_addresses_ascend(addresses);
            assert forall|i: int| 0 <= i < memory_intervals@.len() implies index.contains_key(
                #[trigger] memory_intervals@[i].start_address,
            ) && memory_intervals@[i] == records[index[memory_intervals@[i].start_address] as int]
                && memory_intervals@[i].start_address == addresses[i] by {
                assert(addresses.to_set().contains(addresses[i]));
                assert(inner@.index.contains_key(addresses[i]));
            }
            assert forall|address: usize| #[trigger] index.contains_key(address) implies exists|
                i: int,
            |
                0 <= i < memory_intervals@.len() && (
                #[trigger] memory_intervals@[i]).start_address == address by {
                assert(addresses.to_set().contains(address));
                let i = choose|i: int| 0 <= i < addresses.len() && addresses[i] == address;
                assert(memory_intervals@[i].start_address == address);
            }
        }
        memory_intervals
    }

    /// A copy of the store and of the index, for a diagnostic dump. Nothing
    /// in the collector changes.
    pub fn print_contents_inner(inner: &TracingCollectorInner) -> (contents: CollectorContents)
        ensures
            contents.allocation_store@ == inner@.records,
            lists_index(inner@.index, contents.index_by_ptr@),
    {
        let mut allocation_store: Vec<AllocatedInterval> = Vec::new();
        let mut id: usize = 0;
        while id < inner.allocation_store.len()
            invariant
                id <= inner.allocation_store@.len(),
                allocation_store@ == inner.allocation_store@.take(id as int),
            decreases inner.allocation_store@.len() - id,
        {
            match inner.allocation_store.get(id) {
                Some(allocation) => {
                    allocation_store.push(allocation.clone());
                },
                None => {},
            }
            id = id + 1;
            assert(allocation_store@ == inner.allocation_store@.take(id as int));
        }
        assert(allocation_store@ == inner.allocation_store@);
        let mut index_by_ptr: Vec<(usize, AllocationId)> = Vec::new();
        let ghost index = inner.index_by_ptr@;
        for entry in entries: inner.index_by_ptr.iter()
            invariant
                index == inner.index_by_ptr@,
                index_by_ptr@.len() == entries.index(),
                forall|i: int|
                    0 <= i < index_by_ptr@.len() ==> #[trigger] index_by_ptr@[i] == (
                        *entries.seq()[i].0,
                        *entries.seq()[i].1,
                    ),
        {
            index_by_ptr.push((*entry.0, *entry.1));
        }
        proof {
            let listed = inner.index_by_ptr.iter().remaining();
            assert(index_by_ptr@.len() == listed.len());
            let addresses = listed.map_values(|kv: (&usize, &AllocationId)| *kv.0);
            lemma_addresses_ascend(addresses);
            assert forall|i: int, j: int| 0 <= i < j < index_by_ptr@.len() implies (
            #[trigger] index_by_ptr@[i]).0 < (#[trigger] index_by_ptr@[j]).0 by {
                assert(addresses[i] < addresses[j]);
            }
            assert forall|address: usize| #[trigger] index.contains_key(address) implies exists|
                i: int,
            |
                0 <= i < index_by_ptr@.len() && (#[trigger] index_by_ptr@[i]).0 == address by {
                assert(listed.contains((&address, &index[address])));
                let i = choose|i: int|
                    0 <= i < listed.len() && listed[i] == (&address, &index[address]);
                assert(index_by_ptr@[i].0 == address);
            }
        }
        CollectorContents { allocation_store, index_by_ptr }
    }
}

/// Addresses that a tree map hands out in its own order ascend.
proof fn lemma_addresses_ascend(addresses: Seq<usize>)
    requires
        increasing_seq(addresses),
    ensures
        forall|i: int, j: int| 0 <= i < j < addresses.len() ==> addresses[i] < addresses[j],
{
    assert forall|i: int, j: int| 0 <= i < j < addresses.len() implies addresses[i]
        < addresses[j] by {
        assert(addresses[i].cmp_spec(&addresses[j]) is Less);
    }
}

} // verus!
