//! Core of a minimal x86-64 kernel and its boot loader: typed address
//! arithmetic, a four-level page-table manager, bit-exact descriptor-table
//! construction, interrupt dispatch decisions, and a round-robin task
//! scheduler, together with the boot-time helpers (bump allocator, memory-map
//! collection, kernel-image load planning) that feed them.
//!
//! Hardware side effects (privileged instructions, port I/O, firmware calls)
//! are not performed here; this crate computes the values and decisions that
//! the surrounding runtime carries out.

pub mod allocator;
pub mod gdt;
pub mod idt;
pub mod interrupt;
pub mod loader;
pub mod log;
pub mod memlayout;
pub mod memory;
pub mod paging;
pub mod qemu;
pub mod spin;
pub mod task;
pub mod timer;
pub mod uart;
pub mod wasm;
