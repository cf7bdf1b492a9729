//! An in-process tracer of heap allocations: a bounded queue of allocation
//! events, the allocator shim that publishes them, and the collector that
//! folds them into an index of live memory intervals.

pub mod ring_buffer;
pub mod tracing_allocator;
pub mod tracing_collector;
pub mod tracing_printer;
