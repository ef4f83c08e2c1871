use rustos::fat32::bytes::{read_u16, read_u32};
use rustos::fat32::cache::{CachedPartition, Partition};
use rustos::fat32::dir::{
    is_space, Dir, Iter, VFatLfnDirEntry, VFatRegularDirEntry, VFatUnknownDirEntry,
};
use rustos::fat32::ebpb::BiosParameterBlock;
use rustos::fat32::entry::Entry;
use rustos::fat32::error::Error;
use rustos::fat32::fat::{Cluster, FatEntry, Status};
use rustos::fat32::file::{File, SeekFrom};
use rustos::fat32::mbr::{MasterBootRecord, PartitionEntry, CHS};
use rustos::fat32::metadata::{Attributes, Date, Metadata, Time, Timestamp};
use rustos::fat32::name::{make_name, sort_parts};
use rustos::fat32::text::{push_decimal, push_padded};
use rustos::fat32::traits::BlockDevice;
use rustos::fat32::vfat::VFat;
use rustos::ioerr::ErrorKind;
use std::cell::Cell;
use std::rc::Rc;

struct Disk {
    sectors: Vec<Vec<u8>>,
    reads: Vec<u64>,
    fail_at: Option<u64>,
    unplugged: Rc<Cell<bool>>,
}

impl Disk {
    fn new(sectors: Vec<Vec<u8>>) -> Disk {
        Disk { sectors, reads: Vec::new(), fail_at: None, unplugged: Rc::new(Cell::new(false)) }
    }
}

impl BlockDevice for Disk {
    fn sector_size(&self) -> u64 {
        512
    }

    fn read_sector(&mut self, n: u64, buf: &mut Vec<u8>) -> Result<usize, ErrorKind> {
        self.reads.push(n);
        if self.fail_at == Some(n) || self.unplugged.get() {
            return Err(ErrorKind::TimedOut);
        }
        match self.sectors.get(n as usize) {
            None => Err(ErrorKind::UnexpectedEof),
            Some(sector) => {
                buf.extend_from_slice(sector);
                Ok(sector.len())
            }
        }
    }

    fn write_sector(&mut self, n: u64, buf: &Vec<u8>) -> Result<usize, ErrorKind> {
        match self.sectors.get_mut(n as usize) {
            None => Err(ErrorKind::UnexpectedEof),
            Some(sector) => {
                *sector = buf.clone();
                Ok(buf.len())
            }
        }
    }
}

fn put16(sector: &mut [u8], at: usize, v: u16) {
    sector[at..at + 2].copy_from_slice(&v.to_le_bytes());
}

fn put32(sector: &mut [u8], at: usize, v: u32) {
    sector[at..at + 4].copy_from_slice(&v.to_le_bytes());
}

fn mbr_sector(kind: u8, start: u32) -> Vec<u8> {
    let mut s = vec![0u8; 512];
    for i in 0..436 {
        s[i] = (i % 251) as u8;
    }
    for i in 0..10 {
        s[436 + i] = 0xd0 + i as u8;
    }
    s[446] = 0x80;
    s[447] = 1;
    s[448] = 0xc2;
    s[449] = 3;
    s[450] = 0x83;
    s[454 + 8 - 8] = 0;
    put32(&mut s, 454, 0x800);
    put32(&mut s, 458, 0x1000);
    let second = 446 + 16;
    s[second] = 0x00;
    s[second + 4] = kind;
    put32(&mut s, second + 8, start);
    put32(&mut s, second + 12, 64);
    s[510] = 0x55;
    s[511] = 0xAA;
    s
}

fn bpb_sector(sectors_per_cluster: u8) -> Vec<u8> {
    let mut s = vec![0u8; 512];
    put16(&mut s, 11, 512);
    s[13] = sectors_per_cluster;
    put16(&mut s, 14, 2);
    s[16] = 2;
    put16(&mut s, 19, 0);
    put32(&mut s, 32, 64);
    put32(&mut s, 36, 1);
    put32(&mut s, 44, 2);
    s[66] = 0x29;
    put32(&mut s, 67, 0xdead_beef);
    s[510] = 0x55;
    s[511] = 0xAA;
    s
}

fn short_entry(name: &[u8; 8], ext: &[u8; 3], attr: u8, cluster: u32, size: u32) -> Vec<u8> {
    let mut e = vec![0u8; 32];
    e[0..8].copy_from_slice(name);
    e[8..11].copy_from_slice(ext);
    e[11] = attr;
    e[13] = 100;
    put16(&mut e, 14, (13 << 11) | (37 << 5) | 21);
    put16(&mut e, 16, (39 << 9) | (10 << 5) | 28);
    put16(&mut e, 18, (40 << 9) | (1 << 5) | 2);
    put16(&mut e, 20, (cluster >> 16) as u16);
    put16(&mut e, 22, (1 << 11) | (2 << 5) | 3);
    put16(&mut e, 24, (41 << 9) | (12 << 5) | 31);
    put16(&mut e, 26, cluster as u16);
    put32(&mut e, 28, size);
    e
}

fn long_entry(seq: u8, text: &str) -> Vec<u8> {
    let mut units: Vec<u16> = text.encode_utf16().collect();
    assert!(units.len() <= 13);
    if units.len() < 13 {
        units.push(0);
    }
    while units.len() < 13 {
        units.push(0xFFFF);
    }
    let mut e = vec![0u8; 32];
    e[0] = seq;
    e[11] = 0x0F;
    e[13] = 0x5a;
    let offsets = [1, 3, 5, 7, 9, 14, 16, 18, 20, 22, 24, 28, 30];
    for (unit, at) in units.iter().zip(offsets) {
        put16(&mut e, at, *unit);
    }
    e
}

fn sector_of(entries: &[Vec<u8>]) -> Vec<u8> {
    let mut s: Vec<u8> = entries.concat();
    assert!(s.len() <= 512);
    s.resize(512, 0);
    s
}

fn content(len: usize) -> Vec<u8> {
    (0..len).map(|i| (i * 7 % 253) as u8).collect()
}

/// A disk with one FAT32 partition at sector 8, with clusters of one
/// sector: the root directory in cluster 2, the directory `docs` in cluster
/// 3, and a file of 1300 bytes in clusters 5, 7 and 6.
fn disk() -> Disk {
    let mut sectors = vec![vec![0u8; 512]; 64];
    sectors[0] = mbr_sector(0x0C, 8);
    sectors[8] = bpb_sector(1);
    let mut fat = vec![0u8; 512];
    put32(&mut fat, 0, 0x0FFF_FFF8);
    put32(&mut fat, 4, 0x0FFF_FFFF);
    put32(&mut fat, 8, 0x0FFF_FFFF);
    put32(&mut fat, 12, 0x0FFF_FFF8);
    put32(&mut fat, 16, 0);
    put32(&mut fat, 20, 0xF000_0007);
    put32(&mut fat, 24, 0x0FFF_FFFF);
    put32(&mut fat, 28, 6);
    put32(&mut fat, 32, 0x0FFF_FFF7);
    put32(&mut fat, 36, 10);
    put32(&mut fat, 40, 9);
    sectors[8 + 2] = fat.clone();
    sectors[8 + 3] = fat;
    let data = 8 + 4;
    sectors[data] = sector_of(&[
        short_entry(b"KERNEL  ", b"BIN", 0x20, 5, 1300),
        {
            let mut deleted = short_entry(b"GONE    ", b"TXT", 0x20, 4, 5);
            deleted[0] = 0xE5;
            deleted
        },
        long_entry(0x42, "e.txt"),
        long_entry(0x01, "a long file n"),
        short_entry(b"ALONGF~1", b"TXT", 0x21, 8, 9),
        short_entry(b"DOCS    ", b"   ", 0x10, 3, 0),
        short_entry(b"NOEXT   ", b"   ", 0x22, 0x12_0009, 0),
    ]);
    sectors[data + 1] = sector_of(&[
        short_entry(b".       ", b"   ", 0x10, 3, 0),
        short_entry(b"..      ", b"   ", 0x10, 0, 0),
        short_entry(b"README  ", b"MD ", 0x20, 5, 700),
    ]);
    let bytes = content(1300);
    sectors[data + 3] = bytes[0..512].to_vec();
    sectors[data + 5] = bytes[512..1024].to_vec();
    let mut last = bytes[1024..].to_vec();
    last.resize(512, 0xEE);
    sectors[data + 4] = last;
    Disk::new(sectors)
}

fn names(vfat: &mut VFat<Disk>, dir: &Dir) -> Vec<String> {
    let mut iter = dir.entries(vfat).unwrap();
    let mut out = Vec::new();
    while let Some(entry) = iter.next() {
        out.push(entry.name().to_string());
    }
    out
}

#[test]
fn little_endian_numbers_are_read() {
    let bytes = [0x34, 0x12, 0x78, 0x56, 0xff, 0xff, 0xff, 0xff];
    assert_eq!(read_u16(&bytes, 0), 0x1234);
    assert_eq!(read_u16(&bytes, 1), 0x7812);
    assert_eq!(read_u32(&bytes, 0), 0x5678_1234);
    assert_eq!(read_u32(&bytes, 4), 0xffff_ffff);
    assert_eq!(read_u16(&bytes, 6), 0xffff);
}

#[test]
fn boot_record_is_read_from_a_sector() {
    let sector = mbr_sector(0x0B, 0x1234_5678);
    let mbr = MasterBootRecord::parse(&sector).unwrap();
    assert_eq!(&mbr.bootstrap[..], &sector[0..436]);
    assert_eq!(&mbr.disk_id[..], &sector[436..446]);
    assert_eq!(mbr.magic, [0x55, 0xAA]);
    assert_eq!(
        mbr.partitions[0],
        PartitionEntry {
            boot_indicator: 0x80,
            starting_chs: CHS { head: 1, sector_and_cylinder_higher: 0xc2, cylinder_lower: 3 },
            partition_type: 0x83,
            ending_chs: CHS { head: 0, sector_and_cylinder_higher: 0, cylinder_lower: 0 },
            sector_offset: 0x800,
            num_sectors: 0x1000,
        }
    );
    assert_eq!(mbr.partitions[0].starting_chs.sector(), 2);
    assert_eq!(mbr.partitions[1].partition_type, 0x0B);
    assert_eq!(mbr.partitions[1].starting_sector(), 0x1234_5678);
    assert_eq!(mbr.partitions[1].num_sectors, 64);
    assert_eq!(mbr.partitions[2].boot_indicator, 0);
    assert_eq!(mbr.fat32_partition(), Some(&mbr.partitions[1]));
}

#[test]
fn boot_record_without_signature_is_refused() {
    let mut sector = mbr_sector(0x0C, 8);
    sector[511] = 0xAB;
    assert_eq!(MasterBootRecord::parse(&sector), Err(rustos::fat32::mbr::Error::BadSignature));
    sector[511] = 0xAA;
    sector[510] = 0;
    sector[446] = 0x33;
    assert_eq!(MasterBootRecord::parse(&sector), Err(rustos::fat32::mbr::Error::BadSignature));
}

#[test]
fn boot_record_with_unknown_boot_indicator_is_refused() {
    let mut sector = mbr_sector(0x0C, 8);
    sector[446 + 32] = 0x81;
    sector[446 + 48] = 0x01;
    assert_eq!(
        MasterBootRecord::parse(&sector),
        Err(rustos::fat32::mbr::Error::UnknownBootIndicator(2))
    );
    sector[446] = 0x7f;
    assert_eq!(
        MasterBootRecord::parse(&sector),
        Err(rustos::fat32::mbr::Error::UnknownBootIndicator(0))
    );
    let mut sector = mbr_sector(0x0C, 8);
    sector[446 + 48] = 0xff;
    assert_eq!(
        MasterBootRecord::parse(&sector),
        Err(rustos::fat32::mbr::Error::UnknownBootIndicator(3))
    );
}

#[test]
fn boot_record_is_read_from_the_first_sector_of_a_device() {
    let mut device = disk();
    let mbr = MasterBootRecord::from(&mut device).unwrap();
    assert_eq!(device.reads, vec![0]);
    assert_eq!(mbr.partitions[1].starting_sector(), 8);
    let mut short = Disk::new(vec![vec![0x55; 100]]);
    assert_eq!(
        MasterBootRecord::from(&mut short),
        Err(rustos::fat32::mbr::Error::Io(ErrorKind::UnexpectedEof))
    );
    let mut failing = disk();
    failing.fail_at = Some(0);
    assert_eq!(
        MasterBootRecord::from(&mut failing),
        Err(rustos::fat32::mbr::Error::Io(ErrorKind::TimedOut))
    );
}

#[test]
fn first_fat32_partition_is_found() {
    let mut mbr = MasterBootRecord::parse(&mbr_sector(0x07, 8)).unwrap();
    assert_eq!(mbr.fat32_partition(), None);
    mbr.partitions[3].partition_type = 0x0C;
    mbr.partitions[3].sector_offset = 3;
    mbr.partitions[2].partition_type = 0x0B;
    mbr.partitions[2].sector_offset = 2;
    assert_eq!(mbr.fat32_partition().unwrap().starting_sector(), 2);
    mbr.partitions[2].partition_type = 0x0D;
    assert_eq!(mbr.fat32_partition().unwrap().starting_sector(), 3);
}

#[test]
fn parameter_block_is_read_from_a_sector() {
    let mut sector = bpb_sector(4);
    put16(&mut sector, 17, 0x0102);
    sector[21] = 0xf8;
    put16(&mut sector, 24, 63);
    put16(&mut sector, 26, 255);
    put32(&mut sector, 28, 0x800);
    put16(&mut sector, 40, 0x8001);
    put16(&mut sector, 42, 0x0100);
    put16(&mut sector, 48, 1);
    put16(&mut sector, 50, 6);
    sector[64] = 0x80;
    sector[65] = 1;
    let block = BiosParameterBlock::parse(&sector).unwrap();
    assert_eq!(
        block,
        BiosParameterBlock {
            bytes_per_sector: 512,
            sectors_per_cluster: 4,
            reserved_sectors: 2,
            num_fats: 2,
            max_dir_entries: 0x0102,
            logical_sectors_1: 0,
            media_descriptor: 0xf8,
            sectors_per_track: 63,
            storage_heads: 255,
            hidden_sectors: 0x800,
            logical_sectors_2: 64,
            sectors_per_fat: 1,
            flags: 0x8001,
            fat_version_number: 0x0100,
            root_cluster: 2,
            fsinfo_sector: 1,
            backup_boot_sector: 6,
            drive_number: 0x80,
            nt_flags: 1,
            signature: 0x29,
            volumeid_serial: 0xdead_beef,
        }
    );
    assert_eq!(block.logical_sectors(), 64);
    put16(&mut sector, 19, 77);
    assert_eq!(BiosParameterBlock::parse(&sector).unwrap().logical_sectors(), 77);
    sector[510] = 0x54;
    assert_eq!(BiosParameterBlock::parse(&sector), Err(Error::BadSignature));
}

#[test]
fn parameter_block_is_read_from_a_sector_of_a_device() {
    let mut device = disk();
    let block = BiosParameterBlock::from(&mut device, 8).unwrap();
    assert_eq!(device.reads, vec![8]);
    assert_eq!(block.sectors_per_cluster, 1);
    assert_eq!(BiosParameterBlock::from(&mut device, 9), Err(Error::BadSignature));
    assert_eq!(
        BiosParameterBlock::from(&mut device, 1000),
        Err(Error::Io(ErrorKind::UnexpectedEof))
    );
}

#[test]
fn errors_wrap_their_causes() {
    assert_eq!(Error::from(ErrorKind::TimedOut), Error::Io(ErrorKind::TimedOut));
    assert_eq!(
        Error::from(rustos::fat32::mbr::Error::BadSignature),
        Error::Mbr(rustos::fat32::mbr::Error::BadSignature)
    );
}

#[test]
fn dates_and_times_are_unpacked() {
    let date = Date((39 << 9) | (10 << 5) | 28);
    assert_eq!((date.year(), date.month(), date.day()), (2019, 10, 28));
    let date = Date(0xffff);
    assert_eq!((date.year(), date.month(), date.day()), (2107, 15, 31));
    assert_eq!((Date(0).year(), Date(0).month(), Date(0).day()), (1980, 0, 0));
    let time = Time((13 << 11) | (37 << 5) | 21);
    assert_eq!((time.hour(), time.minute(), time.second()), (13, 37, 42));
    let time = Time(0xffff);
    assert_eq!((time.hour(), time.minute(), time.second()), (31, 63, 62));
    let stamp = Timestamp { date: Date((1 << 9) | (2 << 5) | 3), time: Time((4 << 11) | (5 << 5) | 6) };
    assert_eq!(
        (stamp.year(), stamp.month(), stamp.day(), stamp.hour(), stamp.minute(), stamp.second()),
        (1981, 2, 3, 4, 5, 12)
    );
    assert_eq!(Date::default(), Date(0));
    assert_eq!(Time::default(), Time(0));
    assert_eq!(Timestamp::default(), Timestamp { date: Date(0), time: Time(0) });
}

#[test]
fn attributes_are_told_apart() {
    assert!(Attributes(0x01).read_only());
    assert!(!Attributes(0xfe).read_only());
    assert!(Attributes(0x02).hidden());
    assert!(!Attributes(0xfd).hidden());
    assert!(Attributes(0x10).is_dir());
    assert!(!Attributes(0xef).is_dir());
    assert!(Attributes(0x20).is_lfn());
    assert!(!Attributes(0x0f).is_lfn());
    assert!(Attributes(0x0f).is_file());
    assert!(!Attributes(0x20).is_file());
    assert!(!Attributes(0x10).is_file());
    assert_eq!(Attributes::default(), Attributes(0));
}

#[test]
fn metadata_keeps_its_parts() {
    let created = Timestamp { date: Date(1), time: Time(2) };
    let modified = Timestamp { date: Date(3), time: Time(4) };
    let meta = Metadata::from(Attributes(0x03), created, modified, Date(5));
    assert_eq!(meta.attributes, Attributes(0x03));
    assert!(meta.read_only());
    assert!(meta.hidden());
    assert_eq!(meta.created(), created);
    assert_eq!(meta.modified(), modified);
    assert_eq!(meta.accessed(), Timestamp { date: Date(5), time: Time(0) });
    let none = Metadata::default();
    assert!(!none.read_only());
    assert!(!none.hidden());
    assert_eq!(none.accessed(), Timestamp::default());
}

#[test]
fn directory_entries_are_read_from_bytes() {
    let mut bytes = vec![0xAA; 7];
    bytes.extend(short_entry(b"KERNEL  ", b"BIN", 0x21, 0x0123_4567, 0x89ab_cdef));
    let entry = VFatRegularDirEntry::read(&bytes, 7);
    assert_eq!(&entry.name, b"KERNEL  ");
    assert_eq!(&entry.ext, b"BIN");
    assert_eq!(entry.attr, 0x21);
    assert_eq!(entry.creation_time_tenths, 100);
    assert_eq!(entry.creation_time, Time((13 << 11) | (37 << 5) | 21));
    assert_eq!(entry.creation_date, Date((39 << 9) | (10 << 5) | 28));
    assert_eq!(entry.accessed_date, Date((40 << 9) | (1 << 5) | 2));
    assert_eq!(entry.modified_time, Time((1 << 11) | (2 << 5) | 3));
    assert_eq!(entry.modified_date, Date((41 << 9) | (12 << 5) | 31));
    assert_eq!(entry.cluster_high, 0x0123);
    assert_eq!(entry.cluster_low, 0x4567);
    assert_eq!(entry.cluster(), 0x0123_4567);
    assert_eq!(entry.file_size, 0x89ab_cdef);
    let meta = entry.metadata();
    assert_eq!(meta.attributes, Attributes(0x21));
    assert_eq!(meta.created().year(), 2019);
    assert_eq!(meta.modified().year(), 2021);
    assert_eq!(meta.accessed().year(), 2020);
    let unknown = VFatUnknownDirEntry::read(&bytes, 7);
    assert_eq!(unknown, VFatUnknownDirEntry { id: b'K', attr: 0x21 });
}

#[test]
fn long_name_entries_are_read_from_bytes() {
    let bytes = long_entry(0x43, "0123456789abc");
    let entry = VFatLfnDirEntry::read(&bytes, 0);
    assert_eq!(entry.seq, 0x43);
    assert_eq!(entry.attr, 0x0F);
    assert_eq!(entry.checksum, 0x5a);
    assert_eq!(entry.name_chars, [0x30, 0x31, 0x32, 0x33, 0x34]);
    assert_eq!(entry.name_chars_2, [0x35, 0x36, 0x37, 0x38, 0x39, 0x61]);
    assert_eq!(entry.name_chars_3, [0x62, 0x63]);
    let all: Vec<u16> = (0..13).map(|i| entry.unit_at(i)).collect();
    assert_eq!(String::from_utf16(&all).unwrap(), "0123456789abc");
}

#[test]
fn padding_is_space_or_zero() {
    assert!(is_space(0));
    assert!(is_space(b' '));
    assert!(!is_space(b'A'));
    assert!(!is_space(0xff));
}

#[test]
fn short_names_drop_their_padding() {
    let none = Vec::new();
    assert_eq!(make_name(b"KERNEL  ", b"BIN", &none), "KERNEL.BIN");
    assert_eq!(make_name(b"NOEXT   ", b"   ", &none), "NOEXT");
    assert_eq!(make_name(b"A       ", b"B  ", &none), "A.B");
    assert_eq!(make_name(b"FULLNAME", b"EXT", &none), "FULLNAME.EXT");
    assert_eq!(make_name(b"A B     ", b"C D", &none), "A.C");
    assert_eq!(make_name(b"AB\0CDEFG", b"\0XY", &none), "AB");
    assert_eq!(make_name(b"        ", b"TXT", &none), ".TXT");
    assert_eq!(make_name(b"        ", b"   ", &none), "");
    assert_eq!(make_name(&[0xe9, b'T', b'E', 0x20, 0, 0, 0, 0], b"   ", &none), "\u{e9}TE");
}

#[test]
fn long_names_are_put_together_in_order() {
    let read = |seq: u8, text: &str| VFatLfnDirEntry::read(&long_entry(seq, text), 0);
    let parts = vec![read(0x43, "xt"), read(0x02, "le name that."), read(0x01, "a long file t")];
    assert_eq!(make_name(b"ALONGF~1", b"TXT", &parts), "a long file tle name that.xt");
    let one = vec![read(0x41, "caf\u{e9} \u{1F600}")];
    assert_eq!(make_name(b"CAF~1   ", b"   ", &one), "caf\u{e9} \u{1F600}");
    let mut broken = read(0x41, "ab");
    broken.name_chars[1] = 0xD800;
    assert_eq!(make_name(b"X       ", b"   ", &vec![broken]), "a\u{FFFD}");
    let mut early = read(0x41, "abcdefghijklm");
    early.name_chars_2[0] = 0xFFFF;
    assert_eq!(make_name(b"X       ", b"   ", &vec![early]), "abcde");
}

#[test]
fn parts_with_the_same_place_keep_their_order() {
    let read = |seq: u8, text: &str| VFatLfnDirEntry::read(&long_entry(seq, text), 0);
    let parts = vec![
        read(0x03, "c1"),
        read(0x21, "a1"),
        read(0x43, "c2"),
        read(0x02, "b"),
        read(0x01, "a2"),
        read(0x00, "z"),
    ];
    let seqs: Vec<u8> = sort_parts(&parts).iter().map(|p| p.seq).collect();
    assert_eq!(seqs, vec![0x00, 0x21, 0x01, 0x02, 0x03, 0x43]);
    assert_eq!(make_name(b"X       ", b"   ", &parts), "za1a2bc1c2");
    assert!(sort_parts(&Vec::new()).is_empty());
}

#[test]
fn clusters_and_table_entries_keep_the_low_28_bits() {
    assert_eq!(Cluster::from(0xF123_4567), Cluster(0x0123_4567));
    assert_eq!(Cluster::from(5).num(), 5);
    assert_eq!(FatEntry(0).status(), Status::Free);
    assert_eq!(FatEntry(0xF000_0000).status(), Status::Free);
    assert_eq!(FatEntry(1).status(), Status::Reserved);
    assert_eq!(FatEntry(2).status(), Status::Data(Cluster(2)));
    assert_eq!(FatEntry(0xA000_0009).status(), Status::Data(Cluster(9)));
    assert_eq!(FatEntry(0x0FFF_FFEF).status(), Status::Data(Cluster(0x0FFF_FFEF)));
    assert_eq!(FatEntry(0x0FFF_FFF0).status(), Status::Reserved);
    assert_eq!(FatEntry(0x0FFF_FFF6).status(), Status::Reserved);
    assert_eq!(FatEntry(0x0FFF_FFF7).status(), Status::Bad);
    assert_eq!(FatEntry(0x0FFF_FFF8).status(), Status::Eoc(0x0FFF_FFF8));
    assert_eq!(FatEntry(0xFFFF_FFFF).status(), Status::Eoc(0xFFFF_FFFF));
    assert_eq!(VFat::<Disk>::link_of(FatEntry(7)), Ok(Some(Cluster(7))));
    assert_eq!(VFat::<Disk>::link_of(FatEntry(0x0FFF_FFFF)), Ok(None));
    assert_eq!(VFat::<Disk>::link_of(FatEntry(0)), Err(ErrorKind::InvalidData));
    assert_eq!(VFat::<Disk>::link_of(FatEntry(1)), Err(ErrorKind::InvalidData));
    assert_eq!(VFat::<Disk>::link_of(FatEntry(0x0FFF_FFF7)), Err(ErrorKind::InvalidData));
}

#[test]
fn cache_reads_a_sector_once() {
    let partition = Partition { start: 8, num_sectors: 4, sector_size: 1024 };
    let mut device = disk();
    device.sectors[12] = vec![1; 512];
    device.sectors[13] = vec![2; 512];
    let mut cache = CachedPartition::new(device, partition).unwrap();
    assert_eq!(cache.sector_size(), 1024);
    let mut want = vec![1u8; 512];
    want.extend(vec![2u8; 512]);
    assert_eq!(cache.get(2).unwrap(), &want);
    assert_eq!(cache.get(2).unwrap(), &want);
    let mut buf = vec![9u8];
    assert_eq!(cache.read_sector(2, &mut buf), Ok(1024));
    assert_eq!(buf.len(), 1025);
    assert_eq!(&buf[1..], &want[..]);
    assert_eq!(cache.get(4), Err(ErrorKind::InvalidInput));
    assert_eq!(cache.get(u64::MAX), Err(ErrorKind::InvalidInput));
    assert_eq!(cache.read_sector(4, &mut buf), Err(ErrorKind::InvalidInput));
    assert_eq!(buf.len(), 1025);
}

#[test]
fn cache_keeps_what_was_written() {
    let partition = Partition { start: 0, num_sectors: 64, sector_size: 512 };
    let mut cache = CachedPartition::new(disk(), partition).unwrap();
    cache.get_mut(20).unwrap()[3] = 0x77;
    assert_eq!(cache.get(20).unwrap()[3], 0x77);
    assert_eq!(cache.get(20).unwrap()[4], 0);
    assert_eq!(cache.write_sector(21, &vec![5, 6, 7]), Ok(3));
    assert_eq!(&cache.get(21).unwrap()[0..4], &[5, 6, 7, 0]);
    assert_eq!(cache.write_sector(21, &vec![1; 600]), Ok(512));
    assert_eq!(cache.get(21).unwrap(), &vec![1u8; 512]);
    assert_eq!(cache.write_sector(64, &vec![1]), Err(ErrorKind::InvalidInput));
}

#[test]
fn cache_is_refused_for_sectors_that_do_not_fit() {
    for size in [0u64, 256, 513, 1000] {
        let partition = Partition { start: 0, num_sectors: 4, sector_size: size };
        assert!(CachedPartition::new(disk(), partition).is_none());
    }
    let partition = Partition { start: 0, num_sectors: 4, sector_size: 1536 };
    assert!(CachedPartition::new(disk(), partition).is_some());
}

#[test]
fn cache_passes_on_the_error_of_the_device() {
    let partition = Partition { start: 8, num_sectors: 100, sector_size: 1024 };
    let mut device = disk();
    device.fail_at = Some(11);
    let mut cache = CachedPartition::new(device, partition).unwrap();
    assert_eq!(cache.get(1), Err(ErrorKind::TimedOut));
    assert_eq!(cache.get(1), Err(ErrorKind::TimedOut));
    assert!(cache.get(0).is_ok());
    assert_eq!(cache.get(50), Err(ErrorKind::UnexpectedEof));
}

#[test]
fn file_system_is_opened_on_the_fat32_partition() {
    let mut vfat = VFat::from(disk()).unwrap();
    assert_eq!(vfat.rootdir_cluster(), Cluster(2));
    assert_eq!(vfat.cluster_size(), 512);
}

#[test]
fn file_system_without_a_fat32_partition_is_not_found() {
    let mut device = disk();
    device.sectors[0] = mbr_sector(0x83, 8);
    assert!(matches!(VFat::from(device), Err(Error::NotFound)));
    let mut device = disk();
    device.sectors[0][510] = 0;
    assert!(matches!(
        VFat::from(device),
        Err(Error::Mbr(rustos::fat32::mbr::Error::BadSignature))
    ));
    let mut device = disk();
    device.sectors[8][511] = 0;
    assert!(matches!(VFat::from(device), Err(Error::BadSignature)));
    let mut device = disk();
    device.sectors[8] = bpb_sector(0);
    assert!(matches!(VFat::from(device), Err(Error::Io(ErrorKind::InvalidData))));
    let mut device = disk();
    put16(&mut device.sectors[8], 11, 0);
    assert!(matches!(VFat::from(device), Err(Error::Io(ErrorKind::InvalidData))));
    let mut device = disk();
    put16(&mut device.sectors[8], 11, 516);
    assert!(matches!(VFat::from(device), Err(Error::Io(ErrorKind::InvalidData))));
}

#[test]
fn chain_of_clusters_is_followed() {
    let mut vfat = VFat::from(disk()).unwrap();
    assert_eq!(vfat.next_cluster(Cluster(5)), Ok(Some(Cluster(7))));
    assert_eq!(vfat.next_cluster(Cluster(7)), Ok(Some(Cluster(6))));
    assert_eq!(vfat.next_cluster(Cluster(6)), Ok(None));
    assert_eq!(vfat.next_cluster(Cluster(4)), Err(ErrorKind::InvalidData));
    assert_eq!(vfat.next_cluster(Cluster(8)), Err(ErrorKind::InvalidData));
    let mut buf = vec![0xAB];
    assert_eq!(vfat.read_chain(Cluster(5), &mut buf), Ok(1536));
    assert_eq!(&buf[1..1301], &content(1300)[..]);
    assert_eq!(buf[1301], 0xEE);
    assert_eq!(vfat.read_chain(Cluster(1), &mut buf), Err(ErrorKind::InvalidInput));
    assert_eq!(vfat.read_chain(Cluster(0), &mut buf), Err(ErrorKind::InvalidInput));
    assert_eq!(buf.len(), 1537);
}

#[test]
fn chain_that_goes_in_a_circle_is_refused() {
    let mut vfat = VFat::from(disk()).unwrap();
    let mut buf = Vec::new();
    assert_eq!(vfat.read_chain(Cluster(9), &mut buf), Err(ErrorKind::InvalidData));
    assert!(buf.len() <= 130 * 512);
}

#[test]
fn cluster_is_read_from_an_offset() {
    let mut device = disk();
    device.sectors[8] = bpb_sector(2);
    let mut vfat = VFat::from(device).unwrap();
    assert_eq!(vfat.cluster_size(), 1024);
    let bytes = content(1300);
    let mut buf = Vec::new();
    assert_eq!(vfat.read_cluster(Cluster(3), 500, 100, &mut buf), Ok(100));
    let mut want = Vec::new();
    want.extend_from_slice(&[0u8; 12]);
    want.extend_from_slice(&bytes[0..88]);
    assert_eq!(buf, want);
    let mut buf = vec![1, 2];
    assert_eq!(vfat.read_cluster(Cluster(3), 1000, 100, &mut buf), Ok(24));
    assert_eq!(&buf[2..], &bytes[488..512]);
    assert_eq!(vfat.read_cluster(Cluster(3), 1024, 100, &mut buf), Ok(0));
    assert_eq!(vfat.read_cluster(Cluster(3), 5000, 100, &mut buf), Ok(0));
    assert_eq!(vfat.read_cluster(Cluster(3), 0, 0, &mut buf), Ok(0));
    assert_eq!(buf.len(), 26);
    assert_eq!(vfat.read_cluster(Cluster(1), 0, 1, &mut buf), Err(ErrorKind::InvalidInput));
    let mut all = Vec::new();
    assert_eq!(vfat.read_cluster(Cluster(3), 0, usize::MAX, &mut all), Ok(1024));
    assert_eq!(&all[512..], &bytes[0..512]);
}

#[test]
fn directory_lists_its_files_and_directories() {
    let mut vfat = VFat::from(disk()).unwrap();
    let root = Dir::rootdir(vfat.rootdir_cluster());
    assert_eq!(root.name, "<FAT32 ROOT DIRECTORY>");
    assert_eq!(root.metadata, Metadata::default());
    assert_eq!(
        names(&mut vfat, &root),
        vec!["KERNEL.BIN", "a long file ne.txt", "DOCS", "NOEXT"]
    );
    let mut iter = root.entries(&mut vfat).unwrap();
    let kernel = iter.next().unwrap();
    assert!(kernel.is_file());
    assert!(!kernel.is_dir());
    assert_eq!(kernel.metadata().attributes, Attributes(0x20));
    assert_eq!(kernel.metadata().created().hour(), 13);
    let file = kernel.into_file().unwrap();
    assert_eq!(file.start_cluster, Cluster(5));
    assert_eq!(file.size(), 1300);
    assert_eq!(file.position(), 0);
    let long = iter.next().unwrap();
    assert_eq!(long.name(), "a long file ne.txt");
    assert!(long.metadata().read_only());
    assert_eq!(long.as_file().unwrap().size(), 9);
    assert!(long.as_dir().is_none());
    let docs = iter.next().unwrap();
    assert!(docs.is_dir());
    assert!(docs.as_file().is_none());
    assert_eq!(docs.as_dir().unwrap().start_cluster, Cluster(3));
    assert!(docs.into_file().is_none());
    let noext = iter.next().unwrap();
    assert!(noext.metadata().hidden());
    assert_eq!(noext.into_dir().map(|d| d.name), None);
    assert!(iter.next().is_none());
    assert!(iter.next().is_none());
}

#[test]
fn walk_stops_at_the_end_of_the_entries() {
    let mut raw = short_entry(b"A       ", b"   ", 0x20, 2, 1);
    raw.extend(long_entry(0x41, "left over"));
    raw.extend(vec![0x41; 20]);
    let mut iter = Iter::new(raw);
    assert_eq!(iter.next().unwrap().name(), "A");
    assert!(iter.next().is_none());
    assert!(iter.next().is_none());
    let mut empty = Iter::new(Vec::new());
    assert!(empty.next().is_none());
    let mut ended = vec![0u8; 32];
    ended.extend(short_entry(b"HIDDEN  ", b"   ", 0x20, 2, 1));
    let mut iter = Iter::new(ended);
    assert!(iter.next().is_none());
    assert!(iter.next().is_none());
}

#[test]
fn long_name_parts_before_a_deleted_entry_stay() {
    let mut deleted = short_entry(b"GONE    ", b"TXT", 0x20, 4, 5);
    deleted[0] = 0xE5;
    let mut raw = long_entry(0x41, "kept");
    raw.extend(deleted);
    raw.extend(short_entry(b"KEPT~1  ", b"   ", 0x20, 2, 1));
    raw.extend(short_entry(b"PLAIN   ", b"   ", 0x20, 2, 1));
    let mut iter = Iter::new(raw);
    assert_eq!(iter.next().unwrap().name(), "kept");
    assert_eq!(iter.next().unwrap().name(), "PLAIN");
    assert!(iter.next().is_none());
}

#[test]
fn entry_is_found_by_its_name_in_any_case() {
    let mut vfat = VFat::from(disk()).unwrap();
    let root = Dir::rootdir(vfat.rootdir_cluster());
    assert_eq!(root.find(&mut vfat, "kernel.bin").unwrap().name(), "KERNEL.BIN");
    assert_eq!(root.find(&mut vfat, "A Long File NE.TXT").unwrap().name(), "a long file ne.txt");
    assert!(root.find(&mut vfat, "docs").unwrap().is_dir());
    assert_eq!(root.find(&mut vfat, "kernel").err(), Some(ErrorKind::NotFound));
    assert_eq!(root.find(&mut vfat, "GONE.TXT").err(), Some(ErrorKind::NotFound));
    assert_eq!(root.find(&mut vfat, "").err(), Some(ErrorKind::NotFound));
    let nowhere = Dir::rootdir(Cluster(1));
    assert_eq!(nowhere.find(&mut vfat, "x").err(), Some(ErrorKind::InvalidInput));
    let mut raw = short_entry(b"SAME    ", b"   ", 0x20, 7, 1);
    raw.extend(short_entry(b"SAME    ", b"   ", 0x20, 8, 2));
    let found = Dir::find_in(Iter::new(raw), "same").unwrap();
    assert_eq!(found.into_file().unwrap().start_cluster, Cluster(7));
}

#[test]
fn path_leads_through_directories() {
    let mut vfat = VFat::from(disk()).unwrap();
    let path = |parts: &[&str]| parts.iter().map(|p| p.to_string()).collect::<Vec<_>>();
    let root = vfat.open(&path(&[])).unwrap();
    assert!(root.is_dir());
    assert_eq!(root.name(), "<FAT32 ROOT DIRECTORY>");
    assert_eq!(root.as_dir().unwrap().start_cluster, Cluster(2));
    let readme = vfat.open(&path(&["docs", "readme.md"])).unwrap();
    assert_eq!(readme.name(), "README.MD");
    assert_eq!(readme.as_file().unwrap().size(), 700);
    let same = vfat.open(&path(&["DOCS", ".", "README.MD"])).unwrap();
    assert_eq!(same.name(), "README.MD");
    assert_eq!(vfat.open(&path(&["docs", "missing"])).err(), Some(ErrorKind::NotFound));
    assert_eq!(vfat.open(&path(&["kernel.bin", "x"])).err(), Some(ErrorKind::InvalidInput));
    assert_eq!(vfat.open(&path(&["docs", "..", "x"])).err(), Some(ErrorKind::InvalidInput));
}

#[test]
fn file_is_read_across_the_boundaries_of_its_clusters() {
    let mut vfat = VFat::from(disk()).unwrap();
    let path = vec!["KERNEL.BIN".to_string()];
    let mut file = vfat.open(&path).unwrap().into_file().unwrap();
    let mut buf = Vec::new();
    let mut counts = Vec::new();
    loop {
        let n = file.read(&mut vfat, 1000, &mut buf).unwrap();
        if n == 0 {
            break;
        }
        counts.push(n);
    }
    assert_eq!(counts, vec![512, 512, 276]);
    assert_eq!(buf, content(1300));
    assert_eq!(file.position(), 1300);
    assert_eq!(file.read(&mut vfat, 1000, &mut buf), Ok(0));
}

#[test]
fn file_is_read_in_small_pieces() {
    let mut vfat = VFat::from(disk()).unwrap();
    let path = vec!["kernel.bin".to_string()];
    let mut file = vfat.open(&path).unwrap().into_file().unwrap();
    let mut buf = Vec::new();
    assert_eq!(file.read(&mut vfat, 0, &mut buf), Ok(0));
    assert_eq!(file.read(&mut vfat, 500, &mut buf), Ok(500));
    assert_eq!(file.read(&mut vfat, 500, &mut buf), Ok(12));
    assert_eq!(file.read(&mut vfat, 500, &mut buf), Ok(500));
    assert_eq!(file.position(), 1012);
    while file.read(&mut vfat, 7, &mut buf).unwrap() > 0 {}
    assert_eq!(buf, content(1300));
    assert_eq!(file.sync(), Ok(()));
}

#[test]
fn file_that_is_longer_than_its_chain_ends_early() {
    let mut vfat = VFat::from(disk()).unwrap();
    let mut file = File::new(Cluster(6), "short".to_string(), Metadata::default(), 513);
    let mut buf = Vec::new();
    assert_eq!(file.read(&mut vfat, 600, &mut buf), Err(ErrorKind::UnexpectedEof));
    let mut file = File::new(Cluster(6), "exact".to_string(), Metadata::default(), 512);
    assert_eq!(file.read(&mut vfat, 600, &mut buf), Ok(512));
    assert_eq!(file.name(), "exact");
}

#[test]
fn seek_moves_inside_the_file() {
    let mut file = File::new(Cluster(5), "f".to_string(), Metadata::default(), 1300);
    assert_eq!(file.seek(SeekFrom::Start(0)), Ok(0));
    assert_eq!(file.seek(SeekFrom::Start(1299)), Ok(1299));
    assert_eq!(file.position(), 1299);
    assert_eq!(file.seek(SeekFrom::Start(1300)), Err(ErrorKind::InvalidInput));
    assert_eq!(file.position(), 1299);
    assert_eq!(file.seek(SeekFrom::Current(-1299)), Ok(0));
    assert_eq!(file.seek(SeekFrom::Current(-1)), Err(ErrorKind::InvalidInput));
    assert_eq!(file.seek(SeekFrom::Current(100)), Ok(100));
    assert_eq!(file.seek(SeekFrom::Current(0)), Ok(100));
    assert_eq!(file.seek(SeekFrom::Current(1200)), Err(ErrorKind::InvalidInput));
    assert_eq!(file.seek(SeekFrom::End(0)), Err(ErrorKind::InvalidInput));
    assert_eq!(file.seek(SeekFrom::End(-1)), Ok(1299));
    assert_eq!(file.seek(SeekFrom::End(-1300)), Ok(0));
    assert_eq!(file.seek(SeekFrom::End(-1301)), Err(ErrorKind::InvalidInput));
    assert_eq!(file.seek(SeekFrom::End(1)), Err(ErrorKind::InvalidInput));
    assert_eq!(file.seek(SeekFrom::End(i64::MIN)), Err(ErrorKind::InvalidInput));
    assert_eq!(file.seek(SeekFrom::Current(i64::MAX)), Err(ErrorKind::InvalidInput));
    assert_eq!(file.seek(SeekFrom::Start(u64::MAX)), Err(ErrorKind::InvalidInput));
    assert_eq!(file.position(), 0);
    let mut empty = File::new(Cluster(5), "e".to_string(), Metadata::default(), 0);
    assert_eq!(empty.seek(SeekFrom::Start(0)), Err(ErrorKind::InvalidInput));
}

#[test]
fn entries_wrap_files_and_directories() {
    let file = File::new(Cluster(9), "f.txt".to_string(), Metadata::default(), 3);
    let entry = Entry::File_(file);
    assert_eq!(entry.name(), "f.txt");
    assert!(entry.is_file());
    assert_eq!(entry.as_file().unwrap().size(), 3);
    let dir = Dir::rootdir(Cluster(2));
    let entry = Entry::Dir_(dir);
    assert!(entry.is_dir());
    assert_eq!(entry.metadata(), &Metadata::default());
    assert_eq!(entry.into_dir().unwrap().start_cluster, Cluster(2));
}

#[test]
fn numbers_are_written_in_decimal() {
    let text = |n: u64| {
        let mut s = String::from("n=");
        push_decimal(&mut s, n);
        s
    };
    assert_eq!(text(0), "n=0");
    assert_eq!(text(7), "n=7");
    assert_eq!(text(10), "n=10");
    assert_eq!(text(1980), "n=1980");
    assert_eq!(text(u64::MAX), "n=18446744073709551615");
    let padded = |n: u64| {
        let mut s = String::new();
        push_padded(&mut s, n);
        s
    };
    assert_eq!(padded(0), "00");
    assert_eq!(padded(9), "09");
    assert_eq!(padded(10), "10");
    assert_eq!(padded(123), "123");
}

#[test]
fn dates_and_times_are_written_as_text() {
    let date = Date((39 << 9) | (10 << 5) | 28);
    assert_eq!(date.to_string(), "28 Oct, 2019");
    assert_eq!(Date((0 << 9) | (1 << 5) | 1).to_string(), "1 Jan, 1980");
    assert_eq!(Date((127 << 9) | (12 << 5) | 31).to_string(), "31 Dec, 2107");
    let names: Vec<String> =
        (1..=12u16).map(|m| Date((m << 5) | 5).to_string()[2..5].to_string()).collect();
    assert_eq!(
        names,
        vec!["Jan", "Feb", "Mar", "Apr", "May", "Jun", "Jul", "Aug", "Sep", "Oct", "Nov", "Dec"]
    );
    let time = Time((13 << 11) | (7 << 5) | 21);
    assert_eq!(time.to_string(), "13:7:42");
    assert_eq!(Time(0).to_string(), "0:0:0");
    let stamp = Timestamp { date, time };
    assert_eq!(stamp.to_string(), "28 Oct, 2019 13:7:42");
    assert_eq!(stamp.to_stamp(), "10/28/2019 13:07:42 ");
    assert_eq!(Timestamp::default().to_stamp(), "00/00/1980 00:00:00 ");
}

#[test]
fn metadata_is_written_as_text() {
    let created = Timestamp { date: Date((39 << 9) | (10 << 5) | 28), time: Time(1 << 11) };
    let meta = |attr: u8| Metadata::from(Attributes(attr), created, Timestamp::default(), Date(0));
    assert_eq!(meta(0x20).to_string(), "Created: 28 Oct, 2019 1:0:0");
    assert_eq!(meta(0x01).to_string(), "Created: 28 Oct, 2019 1:0:0 RO");
    assert_eq!(meta(0x02).to_string(), "Created: 28 Oct, 2019 1:0:0 <hidden>");
    assert_eq!(meta(0x13).to_string(), "Created: 28 Oct, 2019 1:0:0 RO <hidden>");
}

#[test]
fn entries_are_written_as_lines() {
    let mut vfat = VFat::from(disk()).unwrap();
    let root = Dir::rootdir(vfat.rootdir_cluster());
    let mut iter = root.entries(&mut vfat).unwrap();
    let stamps = "10/28/2019 13:37:42 12/31/2021 01:02:06 01/02/2020 00:00:00 ";
    assert_eq!(iter.next().unwrap().to_string(), format!("-f--\t{}\tKERNEL.BIN", stamps));
    assert_eq!(iter.next().unwrap().to_string(), format!("-fr-\t{}\ta long file ne.txt", stamps));
    assert_eq!(iter.next().unwrap().to_string(), format!("d---\t{}\tDOCS", stamps));
    assert_eq!(iter.next().unwrap().to_string(), format!("-f-h\t{}\tNOEXT", stamps));
    assert_eq!(
        Entry::Dir_(root).to_string(),
        "d---\t00/00/1980 00:00:00 00/00/1980 00:00:00 00/00/1980 00:00:00 \t<FAT32 ROOT DIRECTORY>"
    );
}

#[test]
fn cache_serves_a_sector_that_was_read_without_the_device() {
    let partition = Partition { start: 8, num_sectors: 8, sector_size: 1024 };
    let mut device = disk();
    device.sectors[12] = vec![1; 512];
    device.sectors[13] = vec![2; 512];
    let plug = device.unplugged.clone();
    let mut cache = CachedPartition::new(device, partition).unwrap();
    let mut first = Vec::new();
    assert_eq!(cache.read_sector(2, &mut first), Ok(1024));
    plug.set(true);
    let mut second = vec![7u8];
    assert_eq!(cache.read_sector(2, &mut second), Ok(1024));
    assert_eq!(&second[1..], &first[..]);
    assert_eq!(cache.read_sector(3, &mut second), Err(ErrorKind::TimedOut));
    assert_eq!(second.len(), 1025);
    assert_eq!(cache.write_sector(3, &vec![9]), Err(ErrorKind::TimedOut));
    assert_eq!(cache.read_sector(8, &mut second), Err(ErrorKind::InvalidInput));
    assert_eq!(cache.write_sector(2, &vec![9, 8, 7]), Ok(3));
    let mut want = vec![9u8, 8, 7];
    want.extend(vec![1u8; 509]);
    want.extend(vec![2u8; 512]);
    assert_eq!(cache.get(2).unwrap(), &want);
    let long = vec![4u8; 2000];
    assert_eq!(cache.write_sector(2, &long), Ok(1024));
    assert_eq!(cache.get(2).unwrap(), &vec![4u8; 1024]);
}

#[test]
fn directory_that_was_read_is_served_without_the_device() {
    let device = disk();
    let plug = device.unplugged.clone();
    let mut vfat = VFat::from(device).unwrap();
    let root = Dir::rootdir(vfat.rootdir_cluster());
    let before = names(&mut vfat, &root);
    assert_eq!(before.len(), 4);
    plug.set(true);
    assert_eq!(names(&mut vfat, &root), before);
    assert_eq!(root.find(&mut vfat, "kernel.bin").unwrap().name(), "KERNEL.BIN");
    assert_eq!(root.find(&mut vfat, "kernel").err(), Some(ErrorKind::NotFound));
    assert_eq!(vfat.next_cluster(Cluster(2)), Ok(None));
    assert_eq!(vfat.next_cluster(Cluster(5)), Ok(Some(Cluster(7))));
    let mut buf = Vec::new();
    assert_eq!(vfat.read_chain(Cluster(2), &mut buf), Ok(512));
    let docs = root.find(&mut vfat, "docs").unwrap().into_dir().unwrap();
    assert_eq!(docs.entries(&mut vfat).err(), Some(ErrorKind::TimedOut));
    assert_eq!(docs.find(&mut vfat, "readme.md").err(), Some(ErrorKind::TimedOut));
    plug.set(false);
    assert_eq!(docs.find(&mut vfat, "readme.md").unwrap().name(), "README.MD");
}

#[test]
fn file_system_is_not_opened_on_a_device_that_fails() {
    let device = disk();
    device.unplugged.set(true);
    assert!(matches!(
        VFat::from(device),
        Err(Error::Mbr(rustos::fat32::mbr::Error::Io(ErrorKind::TimedOut)))
    ));
    let mut device = disk();
    device.fail_at = Some(8);
    assert!(matches!(VFat::from(device), Err(Error::Io(ErrorKind::TimedOut))));
    let mut device = disk();
    device.unplugged.set(true);
    assert_eq!(
        MasterBootRecord::from(&mut device).err(),
        Some(rustos::fat32::mbr::Error::Io(ErrorKind::TimedOut))
    );
    assert!(matches!(
        BiosParameterBlock::from(&mut device, 8),
        Err(Error::Io(ErrorKind::TimedOut))
    ));
    assert_eq!(device.reads, vec![0, 8]);
    device.sectors[0].truncate(100);
    device.unplugged.set(false);
    assert_eq!(
        MasterBootRecord::from(&mut device).err(),
        Some(rustos::fat32::mbr::Error::Io(ErrorKind::UnexpectedEof))
    );
}

#[test]
fn file_that_was_read_is_read_again_without_the_device() {
    let device = disk();
    let plug = device.unplugged.clone();
    let mut vfat = VFat::from(device).unwrap();
    let path = vec!["KERNEL.BIN".to_string()];
    let mut file = vfat.open(&path).unwrap().into_file().unwrap();
    let mut first = Vec::new();
    while file.read(&mut vfat, 300, &mut first).unwrap() > 0 {}
    assert_eq!(first, content(1300));
    plug.set(true);
    let mut again = vfat.open(&path).unwrap().into_file().unwrap();
    let mut second = Vec::new();
    let mut counts = Vec::new();
    loop {
        let n = again.read(&mut vfat, 400, &mut second).unwrap();
        if n == 0 {
            break;
        }
        counts.push(n);
    }
    assert_eq!(counts, vec![400, 112, 400, 112, 276]);
    assert_eq!(second, first);
    assert_eq!(again.seek(SeekFrom::Start(0)), Ok(0));
    let mut other = File::new(Cluster(3), "docs".to_string(), Metadata::default(), 96);
    assert_eq!(other.read(&mut vfat, 10, &mut second), Err(ErrorKind::TimedOut));
    assert_eq!(other.position(), 0);
    assert_eq!(second, first);
}

#[test]
fn read_names_its_errors() {
    let mut vfat = VFat::from(disk()).unwrap();
    let mut buf = Vec::new();
    let mut nowhere = File::new(Cluster(1), "nowhere".to_string(), Metadata::default(), 5);
    assert_eq!(nowhere.read(&mut vfat, 5, &mut buf), Err(ErrorKind::InvalidInput));
    assert_eq!(nowhere.position(), 0);
    assert!(buf.is_empty());
    let mut bad = File::new(Cluster(8), "bad".to_string(), Metadata::default(), 600);
    assert_eq!(bad.read(&mut vfat, 600, &mut buf), Err(ErrorKind::InvalidData));
    assert_eq!(bad.position(), 512);
    assert_eq!(buf.len(), 512);
    let mut free = File::new(Cluster(4), "free".to_string(), Metadata::default(), 100);
    assert_eq!(free.read(&mut vfat, 600, &mut buf), Ok(100));
    assert_eq!(free.position(), 100);
    let mut ends = File::new(Cluster(6), "ends".to_string(), Metadata::default(), 600);
    buf.clear();
    assert_eq!(ends.read(&mut vfat, 512, &mut buf), Err(ErrorKind::UnexpectedEof));
    assert_eq!(ends.position(), 512);
    assert_eq!(ends.read(&mut vfat, 0, &mut buf), Ok(0));
    let mut device = disk();
    device.sectors[8 + 4 + 3].truncate(100);
    let mut vfat = VFat::from(device).unwrap();
    let mut short = File::new(Cluster(5), "short".to_string(), Metadata::default(), 1300);
    buf.clear();
    assert_eq!(short.read(&mut vfat, 10, &mut buf), Err(ErrorKind::UnexpectedEof));
    assert_eq!(short.position(), 0);
}

#[test]
fn step_moves_the_file_on() {
    let file = || File::new(Cluster(5), "f".to_string(), Metadata::default(), 1300);
    let mut f = file();
    assert_eq!(f.step(100, None), Ok(100));
    assert_eq!(f.position(), 100);
    let mut f = file();
    assert_eq!(f.step(512, Some(Ok(Some(Cluster(7))))), Ok(512));
    assert_eq!(f.position(), 512);
    let mut g = file();
    assert_eq!(g.step(512, Some(Ok(None))), Err(ErrorKind::UnexpectedEof));
    assert_eq!(g.position(), 512);
    let mut g = file();
    assert_eq!(g.step(1300, Some(Ok(None))), Ok(1300));
    let mut g = file();
    assert_eq!(g.step(512, Some(Err(ErrorKind::InvalidData))), Err(ErrorKind::InvalidData));
    assert_eq!(g.position(), 512);
    let mut vfat = VFat::from(disk()).unwrap();
    let mut buf = Vec::new();
    assert_eq!(f.read(&mut vfat, 2000, &mut buf), Ok(512));
    assert_eq!(&buf[..], &content(1300)[512..1024]);
}

#[test]
fn path_that_was_followed_is_followed_again_without_the_device() {
    let device = disk();
    let plug = device.unplugged.clone();
    let mut vfat = VFat::from(device).unwrap();
    let path = |parts: &[&str]| parts.iter().map(|p| p.to_string()).collect::<Vec<_>>();
    let readme = vfat.open(&path(&["docs", "readme.md"])).unwrap();
    plug.set(true);
    let again = vfat.open(&path(&["Docs", "README.md"])).unwrap();
    assert_eq!(again.name(), readme.name());
    assert_eq!(again.as_file().unwrap().size(), 700);
    assert_eq!(again.as_file().unwrap().start_cluster, Cluster(5));
    assert_eq!(vfat.open(&path(&["docs", "nothing"])).err(), Some(ErrorKind::NotFound));
    assert_eq!(vfat.open(&path(&["kernel.bin", "x"])).err(), Some(ErrorKind::InvalidInput));
    assert_eq!(vfat.open(&path(&["docs", "..", "x"])).err(), Some(ErrorKind::InvalidInput));
    assert!(vfat.open(&path(&[])).unwrap().is_dir());
    let mut device = disk();
    device.unplugged.set(false);
    device.fail_at = Some(8 + 4 + 1);
    let mut vfat = VFat::from(device).unwrap();
    assert_eq!(vfat.open(&path(&["docs", "readme.md"])).err(), Some(ErrorKind::TimedOut));
    assert!(vfat.open(&path(&["docs"])).unwrap().is_dir());
}

#[test]
fn cluster_that_was_read_is_read_again_without_the_device() {
    let mut device = disk();
    device.sectors[8] = bpb_sector(2);
    let plug = device.unplugged.clone();
    let mut vfat = VFat::from(device).unwrap();
    let mut first = Vec::new();
    assert_eq!(vfat.read_cluster(Cluster(3), 500, 100, &mut first), Ok(100));
    plug.set(true);
    let mut second = Vec::new();
    assert_eq!(vfat.read_cluster(Cluster(3), 500, 100, &mut second), Ok(100));
    assert_eq!(second, first);
    assert_eq!(vfat.read_cluster(Cluster(3), 0, 10, &mut second), Ok(10));
    assert_eq!(vfat.read_cluster(Cluster(3), 1020, 10, &mut second), Ok(4));
    assert_eq!(vfat.read_cluster(Cluster(3), 0, 0, &mut second), Ok(0));
    assert_eq!(vfat.read_cluster(Cluster(9), 5000, 10, &mut second), Ok(0));
    assert_eq!(vfat.read_cluster(Cluster(0), 0, 10, &mut second), Err(ErrorKind::InvalidInput));
    assert_eq!(vfat.read_cluster(Cluster(4), 0, 10, &mut second), Err(ErrorKind::TimedOut));
    assert_eq!(second.len(), 114);
}
