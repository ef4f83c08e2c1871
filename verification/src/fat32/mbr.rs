//! The master boot record: the first sector of a disk, which holds the
//! table of its partitions.

use vstd::prelude::*;
use crate::fat32::bytes::{le_u32, read_u32};
use crate::fat32::traits::{BlockDevice, read_outcome};
use crate::ioerr::ErrorKind;

verus! {

/// Size of the master boot record in bytes.
pub const MBR_SIZE: usize = 512;

/// Offset of the partition table in the master boot record.
pub const PARTITIONS_AT: usize = 446;

/// Size of an entry of the partition table in bytes.
pub const PARTITION_SIZE: usize = 16;

/// An address on disk as cylinder, head and sector.
#[derive(Debug, Copy, Clone, PartialEq, Eq, Structural)]
pub struct CHS {
    pub head: u8,
    pub sector_and_cylinder_higher: u8,
    pub cylinder_lower: u8,
}

impl CHS {
    /// The sector: the low six bits of the second byte.
    pub fn sector(&self) -> (r: u8)
        ensures
            r == self.sector_and_cylinder_higher % 64,
    {
        let b = self.sector_and_cylinder_higher;
        assert(b & 0b11_1111 == b % 64) by (bit_vector);
        b & 0b11_1111
    }
}

/// An entry of the partition table.
#[derive(Debug, Copy, Clone, PartialEq, Eq, Structural)]
pub struct PartitionEntry {
    pub boot_indicator: u8,
    pub starting_chs: CHS,
    pub partition_type: u8,
    pub ending_chs: CHS,
    pub sector_offset: u32,
    pub num_sectors: u32,
}

/// The entry of the partition table that stands at `at` in `bytes`.
pub open spec fn partition_at(bytes: Seq<u8>, at: int) -> PartitionEntry {
    PartitionEntry {
        boot_indicator: bytes[at],
        starting_chs: CHS {
            head: bytes[at + 1],
            sector_and_cylinder_higher: bytes[at + 2],
            cylinder_lower: bytes[at + 3],
        },
        partition_type: bytes[at + 4],
        ending_chs: CHS {
            head: bytes[at + 5],
            sector_and_cylinder_higher: bytes[at + 6],
            cylinder_lower: bytes[at + 7],
        },
        sector_offset: le_u32(bytes, at + 8),
        num_sectors: le_u32(bytes, at + 12),
    }
}

impl PartitionEntry {
    /// The boot indicator of a partition that can be booted from.
    pub const BOOTABLE: u8 = 0x80;

    /// The partition holds a FAT32 file system.
    pub open spec fn is_fat32(self) -> bool {
        self.partition_type == 0xB || self.partition_type == 0xC
    }

    /// The boot indicator is one of the two that are defined.
    pub open spec fn indicator_known(self) -> bool {
        self.boot_indicator == 0 || self.boot_indicator == 0x80
    }

    /// The first sector of the partition.
    pub fn starting_sector(&self) -> (r: u32)
        ensures
            r == self.sector_offset,
    {
        self.sector_offset
    }

    /// Reads the entry that stands at `at` in `bytes`.
    fn read(bytes: &[u8], at: usize) -> (r: PartitionEntry)
        requires
            at + PARTITION_SIZE <= bytes@.len(),
        ensures
            r == partition_at(bytes@, at as int),
    {
        PartitionEntry {
            boot_indicator: bytes[at],
            starting_chs: CHS {
                head: bytes[at + 1],
                sector_and_cylinder_higher: bytes[at + 2],
                cylinder_lower: bytes[at + 3],
            },
            partition_type: bytes[at + 4],
            ending_chs: CHS {
                head: bytes[at + 5],
                sector_and_cylinder_higher: bytes[at + 6],
                cylinder_lower: bytes[at + 7],
            },
            sector_offset: read_u32(bytes, at + 8),
            num_sectors: read_u32(bytes, at + 12),
        }
    }
}

/// The master boot record.
#[derive(Debug, Copy, Clone, PartialEq, Eq)]
pub struct MasterBootRecord {
    pub bootstrap: [u8; 436],
    pub disk_id: [u8; 10],
    pub partitions: [PartitionEntry; 4],
    pub magic: [u8; 2],
}

/// Why a master boot record could not be read.
#[derive(Debug, Copy, Clone, PartialEq, Eq, Structural)]
pub enum Error {
    /// Reading the sector failed.
    Io(ErrorKind),
    /// The partition with this number has a boot indicator that is not
    /// defined.
    UnknownBootIndicator(u8),
    /// The sector does not end in the signature of a boot record.
    BadSignature,
}

/// The sector ends in the signature of a boot record.
pub open spec fn has_signature(bytes: Seq<u8>) -> bool {
    bytes[510] == 0x55 && bytes[511] == 0xAA
}

/// The number of the first of the first `n` partitions in `bytes` whose
/// boot indicator is not defined, or `n` if there is none.
pub open spec fn first_unknown_indicator(bytes: Seq<u8>, n: int) -> int
    decreases n,
{
    if n <= 0 {
        0
    } else {
        let before = first_unknown_indicator(bytes, n - 1);
        if before < n - 1 {
            before
        } else if partition_at(bytes, PARTITIONS_AT + (n - 1) * PARTITION_SIZE).indicator_known() {
            n
        } else {
            n - 1
        }
    }
}

/// What reading the 512 bytes of a boot sector gives: the record, or the
/// first reason against it.
pub open spec fn parsed(bytes: Seq<u8>) -> Result<MasterBootRecordView, Error> {
    if !has_signature(bytes) {
        Err(Error::BadSignature)
    } else if first_unknown_indicator(bytes, 4) < 4 {
        Err(Error::UnknownBootIndicator(first_unknown_indicator(bytes, 4) as u8))
    } else {
        Ok(
            MasterBootRecordView {
                bootstrap: bytes.subrange(0, 436),
                disk_id: bytes.subrange(436, 446),
                partitions: Seq::new(
                    4,
                    |i: int| partition_at(bytes, PARTITIONS_AT + i * PARTITION_SIZE),
                ),
                magic: bytes.subrange(510, 512),
            },
        )
    }
}

/// What `MasterBootRecord::from` makes of one read of the first sector:
/// `Io(kind)` if the read failed with `kind`, `Io(UnexpectedEof)` if it
/// handed back anything but 512 bytes, and otherwise what the bytes hold.
pub open spec fn received(outcome: Result<Seq<u8>, ErrorKind>) -> Result<
    MasterBootRecordView,
    Error,
> {
    match outcome {
        Err(kind) => Err(Error::Io(kind)),
        Ok(bytes) => if bytes.len() != MBR_SIZE {
            Err(Error::Io(ErrorKind::UnexpectedEof))
        } else {
            parsed(bytes)
        },
    }
}

/// The record `r` is the one with the contents `expected`, or the same
/// error.
pub open spec fn agrees(
    r: Result<MasterBootRecord, Error>,
    expected: Result<MasterBootRecordView, Error>,
) -> bool {
    match expected {
        Ok(view) => r matches Ok(mbr) && mbr@ == view && mbr@.valid(),
        Err(e) => r == Err::<MasterBootRecord, Error>(e),
    }
}

/// The contents of a master boot record.
pub struct MasterBootRecordView {
    pub bootstrap: Seq<u8>,
    pub disk_id: Seq<u8>,
    pub partitions: Seq<PartitionEntry>,
    pub magic: Seq<u8>,
}

impl MasterBootRecordView {
    /// The record ends in the signature, and every partition has a boot
    /// indicator that is defined.
    pub open spec fn valid(self) -> bool {
        &&& self.magic == seq![0x55u8, 0xAAu8]
        &&& self.partitions.len() == 4
        &&& forall|i: int| 0 <= i < 4 ==> (#[trigger] self.partitions[i]).indicator_known()
    }

    /// The first partition that holds a FAT32 file system, if there is one.
    pub open spec fn first_fat32(self) -> Option<PartitionEntry> {
        if self.partitions[0].is_fat32() {
            Some(self.partitions[0])
        } else if self.partitions[1].is_fat32() {
            Some(self.partitions[1])
        } else if self.partitions[2].is_fat32() {
            Some(self.partitions[2])
        } else if self.partitions[3].is_fat32() {
            Some(self.partitions[3])
        } else {
            None
        }
    }
}

impl View for MasterBootRecord {
    type V = MasterBootRecordView;

    open spec fn view(&self) -> MasterBootRecordView {
        MasterBootRecordView {
            bootstrap: self.bootstrap@,
            disk_id: self.disk_id@,
            partitions: self.partitions@,
            magic: self.magic@,
        }
    }
}

impl MasterBootRecord {
    /// Reads a master boot record from the 512 bytes of a sector.
    ///
    /// The result is `BadSignature` if the sector does not end in the bytes
    /// 0x55 and 0xAA; otherwise `UnknownBootIndicator(n)` if partition `n`
    /// is the first whose boot indicator is neither 0 nor 0x80.
    pub fn parse(bytes: &[u8]) -> (r: Result<MasterBootRecord, Error>)
        requires
            bytes@.len() == MBR_SIZE,
        ensures
            match parsed(bytes@) {
                Ok(view) => r matches Ok(mbr) && mbr@ == view && mbr@.valid(),
                Err(e) => r == Err::<MasterBootRecord, Error>(e),
            },
    {
        if bytes[510] != 0x55 || bytes[511] != 0xAA {
            return Err(Error::BadSignature);
        }
        let mut partitions = [PartitionEntry::read(bytes, 446); 4];
        let mut i: usize = 0;
        while i < 4
            invariant
                i <= 4,
                bytes@.len() == MBR_SIZE,
                has_signature(bytes@),
                first_unknown_indicator(bytes@, i as int) == i,
                forall|j: int|
                    0 <= j < i ==> #[trigger] partitions[j] == partition_at(
                        bytes@,
                        PARTITIONS_AT + j * PARTITION_SIZE,
                    ) && partitions[j].indicator_known(),
            decreases 4 - i,
        {
            let entry = PartitionEntry::read(bytes, PARTITIONS_AT + i * PARTITION_SIZE);
            if entry.boot_indicator != 0 && entry.boot_indicator != PartitionEntry::BOOTABLE {
                proof {
                    assert(first_unknown_indicator(bytes@, i as int + 1) == i);
                    lemma_first_unknown_stays(bytes@, i as int + 1, 4);
                }
                return Err(Error::UnknownBootIndicator(i as u8));
            }
            partitions[i] = entry;
            i = i + 1;
        }
        let mut bootstrap = [0u8; 436];
        let mut k: usize = 0;
        while k < 436
            invariant
                k <= 436,
                bytes@.len() == MBR_SIZE,
                forall|j: int| 0 <= j < k ==> #[trigger] bootstrap[j] == bytes@[j],
            decreases 436 - k,
        {
            bootstrap[k] = bytes[k];
            k = k + 1;
        }
        let mut disk_id = [0u8; 10];
        let mut k: usize = 0;
        while k < 10
            invariant
                k <= 10,
                bytes@.len() == MBR_SIZE,
                forall|j: int| 0 <= j < k ==> #[trigger] disk_id[j] == bytes@[436 + j],
            decreases 10 - k,
        {
            disk_id[k] = bytes[436 + k];
            k = k + 1;
        }
        let mbr = MasterBootRecord { bootstrap, disk_id, partitions, magic: [bytes[510], bytes[511]] };
        proof {
            let view = parsed(bytes@)->Ok_0;
            assert(mbr@.bootstrap =~= view.bootstrap);
            assert(mbr@.disk_id =~= view.disk_id);
            assert(mbr@.partitions =~= view.partitions);
            assert(mbr@.magic =~= view.magic);
            assert(mbr@.magic =~= seq![0x55u8, 0xAAu8]);
        }
        Ok(mbr)
    }

    /// Reads the master boot record from the first sector of `device`, with
    /// one read.
    ///
    /// The result is `Io(kind)` if reading fails with `kind`, and
    /// `Io(UnexpectedEof)` if the device hands back anything but 512 bytes;
    /// otherwise it is what `parse` makes of the bytes.
    pub fn from<T: BlockDevice>(device: &mut T) -> (r: Result<MasterBootRecord, Error>)
        ensures
            exists|outcome: Result<Seq<u8>, ErrorKind>| #[trigger]
                old(device).reads(0, *final(device), outcome) && agrees(r, received(outcome)),
            r matches Ok(mbr) ==> mbr@.valid(),
    {
        let mut buf: Vec<u8> = Vec::new();
        let read = device.read_sector(0, &mut buf);
        let ghost outcome = read_outcome(Seq::empty(), buf@, read);
        proof {
            assert(buf@.subrange(0, buf@.len() as int) =~= buf@);
            assert(old(device).reads(0, *device, outcome));
        }
        match read {
            Err(kind) => Err(Error::Io(kind)),
            Ok(n) => {
                if n != MBR_SIZE {
                    return Err(Error::Io(ErrorKind::UnexpectedEof));
                }
                MasterBootRecord::parse(buf.as_slice())
            },
        }
    }

    /// The first partition that holds a FAT32 file system, if there is one.
    pub fn fat32_partition(&self) -> (r: Option<&PartitionEntry>)
        ensures
            match r {
                Some(entry) => self@.first_fat32() == Some(*entry),
                None => self@.first_fat32() is None,
            },
            match r {
                Some(entry) => exists|i: int|
                    0 <= i < 4 && *entry == #[trigger] self.partitions[i] && entry.is_fat32()
                        && forall|j: int| 0 <= j < i ==> !(#[trigger] self.partitions[j]).is_fat32(),
                None => forall|j: int| 0 <= j < 4 ==> !(#[trigger] self.partitions[j]).is_fat32(),
            },
    {
        let mut i: usize = 0;
        while i < 4
            invariant
                i <= 4,
                forall|j: int| 0 <= j < i ==> !(#[trigger] self.partitions[j]).is_fat32(),
            decreases 4 - i,
        {
            if self.partitions[i].partition_type == 0xB || self.partitions[i].partition_type == 0xC {
                return Some(&self.partitions[i]);
            }
            i = i + 1;
        }
        None
    }
}

/// Once a partition with an undefined boot indicator was found, it stays
/// the first one.
proof fn lemma_first_unknown_stays(bytes: Seq<u8>, m: int, n: int)
    requires
        1 <= m <= n,
        first_unknown_indicator(bytes, m) == m - 1,
    ensures
        first_unknown_indicator(bytes, n) == m - 1,
    decreases n - m,
{
    if m < n {
        lemma_first_unknown_stays(bytes, m, n - 1);
    }
}

} // verus!
