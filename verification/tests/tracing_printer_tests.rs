use memory_tracer::ring_buffer::{AllocatorEvent, RingBuffer};
use memory_tracer::tracing_printer::{EventReport, TracingPrinter};

#[test]
fn drain_reports_each_event_in_order() {
    let mut ring = RingBuffer::<8>::new();
    ring.push(AllocatorEvent::Allocate { size: 10, ptr_address: 100, context: "main" });
    ring.push(AllocatorEvent::Free { size: 10, ptr_address: 100 });
    ring.push(AllocatorEvent::Allocate { size: 0, ptr_address: 200, context: "static" });
    let printer = TracingPrinter::new();
    assert_eq!(
        printer.drain_ring(&mut ring),
        vec![
            EventReport { event_type: "allocated", size: 10, ptr_address: 100 },
            EventReport { event_type: "freed", size: 10, ptr_address: 100 },
            EventReport { event_type: "allocated", size: 0, ptr_address: 200 },
        ]
    );
    assert_eq!(ring.len(), 0);
    assert_eq!(printer.drain_ring(&mut ring), vec![]);
}
