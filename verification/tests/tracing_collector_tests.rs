use memory_tracer::ring_buffer::{AllocatorEvent, RingBuffer};
use memory_tracer::tracing_allocator::{ThreadState, TracingAllocator};
use memory_tracer::tracing_collector::{
    AllocatedInterval, AllocationStore, CollectorStep, TracingCollector, TracingCollectorInner,
    POLL_INTERVAL_MILLIS,
};

fn quiet_thread() -> ThreadState {
    ThreadState { tracing_enabled: false, context: "collector" }
}

fn interval(id: usize, start: usize, size: usize, end: usize) -> AllocatedInterval {
    AllocatedInterval { id, start_address: start, size, end_exclusive: end }
}

fn allocate(address: usize, size: usize) -> AllocatorEvent {
    AllocatorEvent::Allocate { size, ptr_address: address, context: "test" }
}

fn free(address: usize, size: usize) -> AllocatorEvent {
    AllocatorEvent::Free { size, ptr_address: address }
}

#[test]
fn interval_ends_where_start_and_size_say() {
    assert_eq!(AllocatedInterval::new(0, 100, 10), interval(0, 100, 10, 110));
    assert_eq!(AllocatedInterval::new(7, 300, 5), interval(7, 300, 5, 305));
    assert_eq!(AllocatedInterval::new(1, 4096, 0), interval(1, 4096, 0, 4096));
}

#[test]
fn interval_is_clipped_at_the_highest_address() {
    assert_eq!(
        AllocatedInterval::new(0, usize::MAX - 4, 10),
        interval(0, usize::MAX - 4, 10, usize::MAX)
    );
    assert_eq!(
        AllocatedInterval::new(0, usize::MAX - 10, 10),
        interval(0, usize::MAX - 10, 10, usize::MAX)
    );
}

#[test]
fn store_numbers_records_in_sequence() {
    let mut store = AllocationStore::new();
    assert_eq!(store.len(), 0);
    assert_eq!(store.get(0), None);
    assert_eq!(store.push(10, 100), 0);
    assert_eq!(store.push(20, 200), 1);
    assert_eq!(store.push(5, 100), 2);
    assert_eq!(store.len(), 3);
    assert_eq!(store.get(0), Some(&interval(0, 100, 10, 110)));
    assert_eq!(store.get(1), Some(&interval(1, 200, 20, 220)));
    assert_eq!(store.get(2), Some(&interval(2, 100, 5, 105)));
    assert_eq!(store.get(3), None);
}

#[test]
fn three_allocations_give_three_live_intervals() {
    let mut ring = RingBuffer::<16>::new();
    ring.push(allocate(100, 10));
    ring.push(allocate(200, 20));
    ring.push(allocate(300, 5));
    let mut collector = TracingCollector::new();
    collector.start();
    let step = collector.poll(&mut ring, &quiet_thread());
    assert_eq!(step, CollectorStep::Sleep { millis: 100 });
    assert_eq!(
        collector.get_allocated_intervals(),
        vec![interval(0, 100, 10, 110), interval(1, 200, 20, 220), interval(2, 300, 5, 305)]
    );
    assert_eq!(ring.len(), 0);
}

#[test]
fn draining_a_full_ring_yields_the_first_three() {
    let mut ring = RingBuffer::<4>::new();
    ring.push(allocate(10, 1));
    ring.push(allocate(20, 2));
    ring.push(allocate(30, 3));
    ring.push(allocate(40, 4));
    let mut inner = TracingCollectorInner::new();
    TracingCollector::poll_ring_buffer(&mut inner, &mut ring);
    assert_eq!(
        TracingCollector::get_allocated_intervals_inner(&inner),
        vec![interval(0, 10, 1, 11), interval(1, 20, 2, 22), interval(2, 30, 3, 33)]
    );
}

#[test]
fn allocation_then_free_leaves_nothing_live() {
    let mut ring = RingBuffer::<16>::new();
    ring.push(allocate(500, 8));
    ring.push(free(500, 8));
    let mut collector = TracingCollector::new();
    collector.poll(&mut ring, &quiet_thread());
    assert_eq!(collector.get_allocated_intervals(), vec![]);
    let contents = collector.print_contents();
    assert_eq!(contents.allocation_store, vec![interval(0, 500, 8, 508)]);
    assert_eq!(contents.index_by_ptr, vec![]);
}

#[test]
fn free_of_unknown_address_changes_nothing() {
    let mut ring = RingBuffer::<16>::new();
    ring.push(allocate(100, 10));
    let mut collector = TracingCollector::new();
    collector.poll(&mut ring, &quiet_thread());
    let before = collector.print_contents();
    ring.push(free(999, 4));
    collector.poll(&mut ring, &quiet_thread());
    let after = collector.print_contents();
    assert_eq!(after.allocation_store, before.allocation_store);
    assert_eq!(after.index_by_ptr, before.index_by_ptr);
    assert_eq!(after.index_by_ptr, vec![(100, 0)]);
    assert_eq!(collector.get_allocated_intervals(), vec![interval(0, 100, 10, 110)]);
}

#[test]
fn free_of_unknown_address_on_empty_collector() {
    let mut inner = TracingCollectorInner::new();
    TracingCollector::record_free(&mut inner, 4, 999);
    assert_eq!(TracingCollector::get_allocated_intervals_inner(&inner), vec![]);
    let contents = TracingCollector::print_contents_inner(&inner);
    assert_eq!(contents.allocation_store, vec![]);
    assert_eq!(contents.index_by_ptr, vec![]);
}

#[test]
fn five_events_are_live_after_two_poll_intervals() {
    let mut allocator = TracingAllocator::new(RingBuffer::<64>::new());
    let producer = ThreadState::new();
    let mut collector_thread = ThreadState::new();
    allocator.disable_for_this_thread(&mut collector_thread);
    let mut collector = TracingCollector::new();
    collector.start();
    assert_eq!(POLL_INTERVAL_MILLIS, 100);
    let mut slept: u64 = 0;
    let first = collector.poll(allocator.ring_mut(), &collector_thread);
    assert_eq!(first, CollectorStep::Sleep { millis: 100 });
    for k in 0..5 {
        allocator.allocate(&producer, 16, 1000 + 100 * k);
    }
    while slept < 200 {
        match collector.poll(allocator.ring_mut(), &collector_thread) {
            CollectorStep::Sleep { millis } => slept += millis,
            CollectorStep::Exit => panic!("the collector was not stopped"),
        }
    }
    assert_eq!(
        collector.get_allocated_intervals(),
        vec![
            interval(0, 1000, 16, 1016),
            interval(1, 1100, 16, 1116),
            interval(2, 1200, 16, 1216),
            interval(3, 1300, 16, 1316),
            interval(4, 1400, 16, 1416),
        ]
    );
}

#[test]
fn live_intervals_come_by_ascending_address() {
    let mut inner = TracingCollectorInner::new();
    TracingCollector::record_allocation(&mut inner, 3, 300);
    TracingCollector::record_allocation(&mut inner, 1, 100);
    TracingCollector::record_allocation(&mut inner, 2, 200);
    assert_eq!(
        TracingCollector::get_allocated_intervals_inner(&inner),
        vec![interval(1, 100, 1, 101), interval(2, 200, 2, 202), interval(0, 300, 3, 303)]
    );
    let contents = TracingCollector::print_contents_inner(&inner);
    assert_eq!(contents.index_by_ptr, vec![(100, 1), (200, 2), (300, 0)]);
    assert_eq!(
        contents.allocation_store,
        vec![interval(0, 300, 3, 303), interval(1, 100, 1, 101), interval(2, 200, 2, 202)]
    );
}

#[test]
fn allocation_at_an_indexed_address_overwrites_the_index() {
    let mut inner = TracingCollectorInner::new();
    TracingCollector::record_allocation(&mut inner, 8, 500);
    TracingCollector::record_allocation(&mut inner, 32, 500);
    assert_eq!(
        TracingCollector::get_allocated_intervals_inner(&inner),
        vec![interval(1, 500, 32, 532)]
    );
    let contents = TracingCollector::print_contents_inner(&inner);
    assert_eq!(
        contents.allocation_store,
        vec![interval(0, 500, 8, 508), interval(1, 500, 32, 532)]
    );
    assert_eq!(contents.index_by_ptr, vec![(500, 1)]);
    TracingCollector::record_free(&mut inner, 32, 500);
    assert_eq!(TracingCollector::get_allocated_intervals_inner(&inner), vec![]);
}

#[test]
fn index_is_allocated_less_freed() {
    let mut ring = RingBuffer::<32>::new();
    let events = vec![
        allocate(10, 1),
        allocate(20, 2),
        free(10, 1),
        allocate(30, 3),
        free(40, 4),
        allocate(10, 5),
        free(20, 2),
        allocate(50, 6),
        free(50, 6),
    ];
    for event in events.iter() {
        ring.push(*event);
    }
    let mut collector = TracingCollector::new();
    collector.poll(&mut ring, &quiet_thread());
    let live: Vec<usize> =
        collector.get_allocated_intervals().iter().map(|i| i.start_address).collect();
    assert_eq!(live, vec![10, 30]);
    assert_eq!(
        collector.get_allocated_intervals(),
        vec![interval(3, 10, 5, 15), interval(2, 30, 3, 33)]
    );
    assert_eq!(collector.print_contents().allocation_store.len(), 5);
}

#[test]
fn stopped_collector_leaves_events_in_the_queue() {
    let mut ring = RingBuffer::<16>::new();
    let mut collector = TracingCollector::new();
    collector.start();
    ring.push(allocate(100, 10));
    assert_eq!(
        collector.poll(&mut ring, &quiet_thread()),
        CollectorStep::Sleep { millis: POLL_INTERVAL_MILLIS }
    );
    collector.stop();
    ring.push(allocate(200, 20));
    assert_eq!(collector.poll(&mut ring, &quiet_thread()), CollectorStep::Exit);
    assert_eq!(ring.len(), 1);
    assert_eq!(collector.get_allocated_intervals(), vec![interval(0, 100, 10, 110)]);
    collector.start();
    assert_eq!(
        collector.poll(&mut ring, &quiet_thread()),
        CollectorStep::Sleep { millis: POLL_INTERVAL_MILLIS }
    );
    assert_eq!(ring.len(), 0);
    assert_eq!(
        collector.get_allocated_intervals(),
        vec![interval(0, 100, 10, 110), interval(1, 200, 20, 220)]
    );
}

#[test]
fn reading_the_collector_changes_nothing() {
    let mut inner = TracingCollectorInner::new();
    TracingCollector::record_allocation(&mut inner, 8, 500);
    let first = TracingCollector::print_contents_inner(&inner);
    let snapshot = TracingCollector::get_allocated_intervals_inner(&inner);
    let second = TracingCollector::print_contents_inner(&inner);
    assert_eq!(first.allocation_store, second.allocation_store);
    assert_eq!(first.index_by_ptr, second.index_by_ptr);
    assert_eq!(snapshot, TracingCollector::get_allocated_intervals_inner(&inner));
}
