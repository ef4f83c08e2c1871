//! Processes and their scheduling.

pub mod process;
pub mod scheduler;
pub mod state;
