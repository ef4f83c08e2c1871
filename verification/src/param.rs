//! Fixed parameters of the memory layout and of the scheduler.

use vstd::prelude::*;

verus! {

/// Size of a page in bytes (64 KiB).
pub const PAGE_SIZE: u64 = 0x1_0000;

/// Mask that keeps the page number of an address and clears the offset.
pub const PAGE_MASK: u64 = 0xffff_ffff_ffff_0000;

/// Lowest virtual address of the user window.
pub const USER_IMG_BASE: u64 = 0xffff_ffff_c000_0000;

/// Mask that keeps the offset of an address inside the 1 GiB user window.
pub const USER_IMG_MASK: u64 = 0x3fff_ffff;

/// Size of the virtual window one translation table covers (1 GiB).
pub const USER_MAX_VM_SIZE: u64 = 0x4000_0000;

/// Top of the user stack: the highest page-aligned address.
pub const USER_STACK_TOP: u64 = 0xffff_ffff_ffff_0000;

/// Size of the user stack in bytes (1 MiB).
pub const USER_STACK_SIZE: u64 = 0x10_0000;

/// Lowest address of the user stack.
pub const USER_STACK_BASE: u64 = 0xffff_ffff_ffef_0000;

/// Base of the kernel stack.
pub const KERN_STACK_BASE: u64 = 0x8_0000;

/// First address of the memory-mapped peripherals.
pub const IO_BASE: u64 = 0x3f00_0000;

/// First address past the memory-mapped peripherals.
pub const IO_BASE_END: u64 = 0x4000_0000;

/// Length of a scheduling quantum in microseconds.
pub const TICK: u64 = 10_000;

} // verus!
