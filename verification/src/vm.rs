//! Virtual memory: addresses, translation table entries and the tables.

pub mod address;
pub mod entry;
pub mod pagetable;
