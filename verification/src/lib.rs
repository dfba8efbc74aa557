//! Core of a minimal preemptive multitasking kernel for a single-core
//! microcontroller: a free-list heap allocator, an ownable doubly-linked
//! list used as the run queue, thread control blocks, a round-robin
//! scheduler, the initial stack-frame builder, and the context-switch
//! logic driven by the preemption trap.
//!
//! Raw memory is modelled as plain values: an address is a `usize`, a
//! thread stack is a sequence of 32-bit words, and a byte range is a
//! `(start, size)` pair. The surrounding firmware owns the real memory
//! and the trap trampolines; everything it must decide or compute is
//! verified here.

pub mod allocator;
pub mod frame;
pub mod list;
pub mod sched;
pub mod switch;
pub mod syscall;
