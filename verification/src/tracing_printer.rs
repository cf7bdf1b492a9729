//! A consumer of the queue that reports each event as it comes, in place of
//! gathering them.

use vstd::prelude::*;
use crate::ring_buffer::{AllocatorEvent, RingBuffer};

verus! {

/// What is reported of one event: what happened, how many bytes, and where.
#[derive(Debug, Clone, Copy, PartialEq, Eq)]
pub struct EventReport {
    pub event_type: &'static str,
    pub size: usize,
    pub ptr_address: usize,
}

/// The report of `event`.
pub open spec fn report_of(event: AllocatorEvent) -> EventReport {
    match event {
        AllocatorEvent::Allocate { size, ptr_address, .. } => EventReport {
            event_type: "allocated",
            size,
            ptr_address,
        },
        AllocatorEvent::Free { size, ptr_address } => EventReport {
            event_type: "freed",
            size,
            ptr_address,
        },
    }
}

/// The printer. It holds nothing: the queue is lent to it for each drain.
pub struct TracingPrinter {}

impl TracingPrinter {
    pub fn new() -> Self {
        TracingPrinter {  }
    }

    /// Takes every waiting event out of `ring` and returns their reports,
    /// oldest first.
    pub fn drain_ring<const N: usize>(&self, ring: &mut RingBuffer<N>) -> (reports: Vec<
        EventReport,
    >)
        ensures
            final(ring)@ == Seq::<AllocatorEvent>::empty(),
            reports@ == old(ring)@.map_values(|event: AllocatorEvent| report_of(event)),
    {
        let ghost events = ring@;
        let mut reports: Vec<EventReport> = Vec::new();
        loop
            invariant
                reports@.len() <= events.len(),
                ring@ == events.skip(reports@.len() as int),
                reports@ == events.take(reports@.len() as int).map_values(
                    |event: AllocatorEvent| report_of(event),
                ),
            ensures
                ring@ == Seq::<AllocatorEvent>::empty(),
                reports@ == events.map_values(|event: AllocatorEvent| report_of(event)),
            decreases events.len() - reports@.len(),
        {
            let ghost done = reports@.len() as int;
            match ring.pop() {
                Some(event) => {
                    let report = match event {
                        AllocatorEvent::Allocate { size, ptr_address, context: _ } => EventReport {
                            event_type: "allocated",
                            size,
                            ptr_address,
                        },
                        AllocatorEvent::Free { size, ptr_address } => EventReport {
                            event_type: "freed",
                            size,
                            ptr_address,
                        },
                    };
                    reports.push(report);
                    proof {
                        assert(event == events[done]);
                        assert(ring@ == events.skip(done + 1));
                        assert(reports@ == events.take(done + 1).map_values(
                            |event: AllocatorEvent| report_of(event),
                        ));
                    }
                },
                None => {
                    proof {
                        assert(events.take(done) == events);
                    }
                    break ;
                },
            }
        }
        reports
    }
}

} // verus!
