use memory_tracer::ring_buffer::{AllocatorEvent, RingBuffer, BUFFER_CAPACITY};

fn allocate(address: usize, size: usize) -> AllocatorEvent {
    AllocatorEvent::Allocate { size, ptr_address: address, context: "test" }
}

fn free(address: usize, size: usize) -> AllocatorEvent {
    AllocatorEvent::Free { size, ptr_address: address }
}

#[test]
fn new_ring_is_empty() {
    let mut ring = RingBuffer::<8>::new();
    assert_eq!(ring.len(), 0);
    assert_eq!(ring.capacity(), 8);
    assert_eq!(ring.pop(), None);
    assert_eq!(ring.len(), 0);
}

#[test]
fn pops_return_events_in_push_order() {
    let mut ring = RingBuffer::<8>::new();
    let events = vec![
        allocate(100, 10),
        free(100, 10),
        allocate(200, 20),
        allocate(300, 5),
        free(300, 5),
        free(200, 20),
        allocate(400, 1),
    ];
    for event in events.iter() {
        ring.push(*event);
    }
    assert_eq!(ring.len(), 7);
    for event in events.iter() {
        assert_eq!(ring.pop(), Some(*event));
    }
    assert_eq!(ring.pop(), None);
}

#[test]
fn fourth_push_into_four_slots_is_dropped() {
    let mut ring = RingBuffer::<4>::new();
    ring.push(allocate(1, 1));
    ring.push(allocate(2, 2));
    ring.push(allocate(3, 3));
    ring.push(allocate(4, 4));
    assert_eq!(ring.len(), 3);
    assert_eq!(ring.pop(), Some(allocate(1, 1)));
    assert_eq!(ring.pop(), Some(allocate(2, 2)));
    assert_eq!(ring.pop(), Some(allocate(3, 3)));
    assert_eq!(ring.pop(), None);
}

#[test]
fn overflow_leaves_accepted_events_in_place() {
    let mut ring = RingBuffer::<4>::new();
    ring.push(free(10, 1));
    ring.push(free(20, 2));
    ring.push(free(30, 3));
    for address in 0..10 {
        ring.push(allocate(1000 + address, 1));
        assert_eq!(ring.len(), 3);
    }
    assert_eq!(ring.pop(), Some(free(10, 1)));
    ring.push(allocate(40, 4));
    ring.push(allocate(50, 5));
    assert_eq!(ring.pop(), Some(free(20, 2)));
    assert_eq!(ring.pop(), Some(free(30, 3)));
    assert_eq!(ring.pop(), Some(allocate(40, 4)));
    assert_eq!(ring.pop(), None);
}

#[test]
fn cursors_wrap_around_the_array() {
    let mut ring = RingBuffer::<3>::new();
    for round in 0..20 {
        ring.push(allocate(round, 1));
        ring.push(free(round, 1));
        assert_eq!(ring.len(), 2);
        ring.push(allocate(9999, 1));
        assert_eq!(ring.len(), 2);
        assert_eq!(ring.pop(), Some(allocate(round, 1)));
        assert_eq!(ring.pop(), Some(free(round, 1)));
        assert_eq!(ring.pop(), None);
        assert_eq!(ring.len(), 0);
    }
}

#[test]
fn interleaved_pushes_and_pops_keep_order() {
    let mut ring = RingBuffer::<4>::new();
    let mut next_in = 0;
    let mut next_out = 0;
    for step in 0..50 {
        if step % 3 != 2 && ring.len() < 3 {
            ring.push(allocate(next_in, 1));
            next_in += 1;
        } else {
            assert_eq!(ring.pop(), Some(allocate(next_out, 1)));
            next_out += 1;
        }
    }
    while let Some(event) = ring.pop() {
        assert_eq!(event, allocate(next_out, 1));
        next_out += 1;
    }
    assert_eq!(next_in, next_out);
}

#[test]
fn ring_of_one_slot_holds_nothing() {
    let mut ring = RingBuffer::<1>::new();
    ring.push(allocate(1, 1));
    assert_eq!(ring.len(), 0);
    assert_eq!(ring.pop(), None);
}

#[test]
fn ring_of_no_slots_holds_nothing() {
    let mut ring = RingBuffer::<0>::new();
    ring.push(allocate(1, 1));
    assert_eq!(ring.len(), 0);
    assert_eq!(ring.pop(), None);
}

#[test]
fn process_wide_ring_holds_one_less_than_its_capacity() {
    let mut ring = RingBuffer::<BUFFER_CAPACITY>::new();
    assert_eq!(BUFFER_CAPACITY, 4096);
    for address in 0..5000 {
        ring.push(allocate(address, 1));
    }
    assert_eq!(ring.len(), 4095);
    for address in 0..4095 {
        assert_eq!(ring.pop(), Some(allocate(address, 1)));
    }
    assert_eq!(ring.pop(), None);
}
