//! The verified core of a small preemptive kernel for AArch64 boards:
//! a size-class heap allocator, two-level translation tables, a round-robin
//! scheduler with trap-frame save and restore, and the exception and
//! system-call dispatcher that ties them together.

pub mod allocator;
pub mod atags;
pub mod fat32;
pub mod fib;
pub mod interrupt;
pub mod ioerr;
pub mod kernel;
pub mod kernel_api;
pub mod param;
pub mod process;
pub mod shell;
pub mod traps;
pub mod vm;
