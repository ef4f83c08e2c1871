//! The kernel heap.

pub mod bin;
pub mod util;
