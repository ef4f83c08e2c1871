//! The BIOS parameter block: the first sector of a FAT32 partition, which
//! tells how the partition is laid out.

use vstd::prelude::*;
use crate::fat32::bytes::{le_u16, le_u32, read_u16, read_u32};
use crate::fat32::error::Error;
use crate::fat32::traits::{BlockDevice, read_outcome};
use crate::ioerr::ErrorKind;

verus! {

/// Size of the parameter block in bytes.
pub const EBPB_SIZE: usize = 512;

/// The parameters of a FAT32 partition that the file system works with.
#[derive(Debug, Copy, Clone, PartialEq, Eq, Structural)]
pub struct BiosParameterBlock {
    pub bytes_per_sector: u16,
    pub sectors_per_cluster: u8,
    pub reserved_sectors: u16,
    pub num_fats: u8,
    pub max_dir_entries: u16,
    pub logical_sectors_1: u16,
    pub media_descriptor: u8,
    pub sectors_per_track: u16,
    pub storage_heads: u16,
    pub hidden_sectors: u32,
    pub logical_sectors_2: u32,
    pub sectors_per_fat: u32,
    pub flags: u16,
    pub fat_version_number: u16,
    pub root_cluster: u32,
    pub fsinfo_sector: u16,
    pub backup_boot_sector: u16,
    pub drive_number: u8,
    pub nt_flags: u8,
    pub signature: u8,
    pub volumeid_serial: u32,
}

/// The parameters that the 512 bytes of a parameter block hold.
pub open spec fn block_of(bytes: Seq<u8>) -> BiosParameterBlock {
    BiosParameterBlock {
        bytes_per_sector: le_u16(bytes, 11),
        sectors_per_cluster: bytes[13],
        reserved_sectors: le_u16(bytes, 14),
        num_fats: bytes[16],
        max_dir_entries: le_u16(bytes, 17),
        logical_sectors_1: le_u16(bytes, 19),
        media_descriptor: bytes[21],
        sectors_per_track: le_u16(bytes, 24),
        storage_heads: le_u16(bytes, 26),
        hidden_sectors: le_u32(bytes, 28),
        logical_sectors_2: le_u32(bytes, 32),
        sectors_per_fat: le_u32(bytes, 36),
        flags: le_u16(bytes, 40),
        fat_version_number: le_u16(bytes, 42),
        root_cluster: le_u32(bytes, 44),
        fsinfo_sector: le_u16(bytes, 48),
        backup_boot_sector: le_u16(bytes, 50),
        drive_number: bytes[64],
        nt_flags: bytes[65],
        signature: bytes[66],
        volumeid_serial: le_u32(bytes, 67),
    }
}

/// What reading the 512 bytes of a parameter block gives: the parameters,
/// or `BadSignature` if the bytes do not end in 0x55 and 0xAA.
pub open spec fn parsed(bytes: Seq<u8>) -> Result<BiosParameterBlock, Error> {
    if bytes[510] == 0x55 && bytes[511] == 0xAA {
        Ok(block_of(bytes))
    } else {
        Err(Error::BadSignature)
    }
}

/// What `BiosParameterBlock::from` makes of one read of the sector:
/// `Io(kind)` if the read failed with `kind`, `Io(UnexpectedEof)` if it
/// handed back anything but 512 bytes, and otherwise what the bytes hold.
pub open spec fn received(outcome: Result<Seq<u8>, ErrorKind>) -> Result<BiosParameterBlock, Error> {
    match outcome {
        Err(kind) => Err(Error::Io(kind)),
        Ok(bytes) => if bytes.len() != EBPB_SIZE {
            Err(Error::Io(ErrorKind::UnexpectedEof))
        } else {
            parsed(bytes)
        },
    }
}

impl BiosParameterBlock {
    /// Reads the parameters from the 512 bytes of a sector.
    pub fn parse(bytes: &[u8]) -> (r: Result<BiosParameterBlock, Error>)
        requires
            bytes@.len() == EBPB_SIZE,
        ensures
            r == parsed(bytes@),
    {
        if bytes[510] != 0x55 || bytes[511] != 0xAA {
            return Err(Error::BadSignature);
        }
        Ok(
            BiosParameterBlock {
                bytes_per_sector: read_u16(bytes, 11),
                sectors_per_cluster: bytes[13],
                reserved_sectors: read_u16(bytes, 14),
                num_fats: bytes[16],
                max_dir_entries: read_u16(bytes, 17),
                logical_sectors_1: read_u16(bytes, 19),
                media_descriptor: bytes[21],
                sectors_per_track: read_u16(bytes, 24),
                storage_heads: read_u16(bytes, 26),
                hidden_sectors: read_u32(bytes, 28),
                logical_sectors_2: read_u32(bytes, 32),
                sectors_per_fat: read_u32(bytes, 36),
                flags: read_u16(bytes, 40),
                fat_version_number: read_u16(bytes, 42),
                root_cluster: read_u32(bytes, 44),
                fsinfo_sector: read_u16(bytes, 48),
                backup_boot_sector: read_u16(bytes, 50),
                drive_number: bytes[64],
                nt_flags: bytes[65],
                signature: bytes[66],
                volumeid_serial: read_u32(bytes, 67),
            },
        )
    }

    /// Reads the parameters from sector `sector` of `device`, with one read.
    ///
    /// The result is `Io(kind)` if reading fails with `kind`, and
    /// `Io(UnexpectedEof)` if the device hands back anything but 512 bytes;
    /// otherwise it is what `parse` makes of the bytes.
    pub fn from<T: BlockDevice>(device: &mut T, sector: u64) -> (r: Result<
        BiosParameterBlock,
        Error,
    >)
        ensures
            exists|outcome: Result<Seq<u8>, ErrorKind>| #[trigger]
                old(device).reads(sector, *final(device), outcome) && r == received(outcome),
            r matches Err(e) ==> e is Io || e is BadSignature,
    {
        let mut buf: Vec<u8> = Vec::new();
        let read = device.read_sector(sector, &mut buf);
        let ghost outcome = read_outcome(Seq::empty(), buf@, read);
        proof {
            assert(buf@.subrange(0, buf@.len() as int) =~= buf@);
            assert(old(device).reads(sector, *device, outcome));
        }
        match read {
            Err(kind) => Err(Error::from(kind)),
            Ok(n) => {
                if n != EBPB_SIZE {
                    return Err(Error::Io(ErrorKind::UnexpectedEof));
                }
                BiosParameterBlock::parse(buf.as_slice())
            },
        }
    }

    /// The number of sectors of the partition: the 16-bit count if it is
    /// not zero, and the 32-bit count otherwise.
    pub fn logical_sectors(&self) -> (r: u32)
        ensures
            r == (if self.logical_sectors_1 > 0 {
                self.logical_sectors_1 as u32
            } else {
                self.logical_sectors_2
            }),
    {
        if self.logical_sectors_1 > 0 {
            self.logical_sectors_1 as u32
        } else {
            self.logical_sectors_2
        }
    }
}

} // verus!
