//! Reading a FAT32 file system from a block device.

pub mod bytes;
pub mod cache;
pub mod dir;
pub mod ebpb;
pub mod entry;
pub mod error;
pub mod fat;
pub mod file;
pub mod mbr;
pub mod metadata;
pub mod name;
pub mod text;
pub mod traits;
pub mod vfat;
