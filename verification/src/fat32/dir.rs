//! Directories: the 32-byte entries they are made of.

use vstd::prelude::*;
use crate::fat32::bytes::{le_u16, le_u32, read_u16, read_u32};
use crate::fat32::cache::extends;
use crate::fat32::entry::{Entry, EntryView};
use crate::fat32::fat::{Cluster, low28};
use crate::fat32::file::File;
use crate::fat32::metadata::{Attributes, Date, Metadata, Time, Timestamp};
use crate::fat32::name::{LongPart, make_name, name_of, parts_of};
use crate::fat32::traits::BlockDevice;
use crate::fat32::vfat::{VFat, lemma_readable_step};
use crate::ioerr::ErrorKind;

verus! {

/// Size of a directory entry in bytes.
pub const ENTRY_SIZE: usize = 32;

/// Attributes of an entry that holds a part of a long name.
pub const ATTR_LFN: u8 = 0x0F;

/// First byte of the entry that ends a directory.
pub const ID_END: u8 = 0x00;

/// First byte of an entry that was deleted.
pub const ID_DELETED: u8 = 0xE5;

/// A directory entry for a file or a directory with a short name.
#[derive(Debug, Copy, Clone, PartialEq, Eq)]
pub struct VFatRegularDirEntry {
    pub name: [u8; 8],
    pub ext: [u8; 3],
    pub attr: u8,
    pub nt_reserved: u8,
    pub creation_time_tenths: u8,
    pub creation_time: Time,
    pub creation_date: Date,
    pub accessed_date: Date,
    pub cluster_high: u16,
    pub modified_time: Time,
    pub modified_date: Date,
    pub cluster_low: u16,
    pub file_size: u32,
}

impl VFatRegularDirEntry {
    /// The entry that the 32 bytes at `at` in `bytes` hold.
    pub open spec fn holds(self, bytes: Seq<u8>, at: int) -> bool {
        &&& self.name@ == bytes.subrange(at, at + 8)
        &&& self.ext@ == bytes.subrange(at + 8, at + 11)
        &&& self.attr == bytes[at + 11]
        &&& self.nt_reserved == bytes[at + 12]
        &&& self.creation_time_tenths == bytes[at + 13]
        &&& self.creation_time == Time(le_u16(bytes, at + 14))
        &&& self.creation_date == Date(le_u16(bytes, at + 16))
        &&& self.accessed_date == Date(le_u16(bytes, at + 18))
        &&& self.cluster_high == le_u16(bytes, at + 20)
        &&& self.modified_time == Time(le_u16(bytes, at + 22))
        &&& self.modified_date == Date(le_u16(bytes, at + 24))
        &&& self.cluster_low == le_u16(bytes, at + 26)
        &&& self.file_size == le_u32(bytes, at + 28)
    }

    /// The number of the first cluster: the high half times 65536 plus the
    /// low half.
    pub open spec fn cluster_of(self) -> u32 {
        (self.cluster_high * 0x1_0000 + self.cluster_low) as u32
    }

    /// The metadata of the entry.
    pub open spec fn metadata_of(self) -> Metadata {
        Metadata {
            attributes: Attributes(self.attr),
            created: Timestamp { date: self.creation_date, time: self.creation_time },
            modified: Timestamp { date: self.modified_date, time: self.modified_time },
            accessed: self.accessed_date,
        }
    }

    /// Reads the entry that stands at `at` in `bytes`.
    pub fn read(bytes: &[u8], at: usize) -> (r: VFatRegularDirEntry)
        requires
            at + ENTRY_SIZE <= bytes@.len(),
        ensures
            r.holds(bytes@, at as int),
    {
        let len = bytes.len();
        let mut name = [0u8; 8];
        let mut k: usize = 0;
        while k < 8
            invariant
                k <= 8,
                at + ENTRY_SIZE <= bytes@.len(),
                bytes@.len() == len,
                forall|j: int| 0 <= j < k ==> #[trigger] name[j] == bytes@[at + j],
            decreases 8 - k,
        {
            name[k] = bytes[at + k];
            k = k + 1;
        }
        let ext = [bytes[at + 8], bytes[at + 9], bytes[at + 10]];
        let r = VFatRegularDirEntry {
            name,
            ext,
            attr: bytes[at + 11],
            nt_reserved: bytes[at + 12],
            creation_time_tenths: bytes[at + 13],
            creation_time: Time(read_u16(bytes, at + 14)),
            creation_date: Date(read_u16(bytes, at + 16)),
            accessed_date: Date(read_u16(bytes, at + 18)),
            cluster_high: read_u16(bytes, at + 20),
            modified_time: Time(read_u16(bytes, at + 22)),
            modified_date: Date(read_u16(bytes, at + 24)),
            cluster_low: read_u16(bytes, at + 26),
            file_size: read_u32(bytes, at + 28),
        };
        assert(r.name@ =~= bytes@.subrange(at as int, at + 8));
        assert(r.ext@ =~= bytes@.subrange(at + 8, at + 11));
        r
    }

    /// The number of the first cluster of the file or directory.
    pub fn cluster(&self) -> (r: u32)
        ensures
            r == self.cluster_of(),
    {
        let high = self.cluster_high as u32;
        let low = self.cluster_low as u32;
        assert((high << 16) | low == high * 0x1_0000 + low) by (bit_vector)
            requires
                high < 0x1_0000,
                low < 0x1_0000,
        ;
        (high << 16) | low
    }

    /// The metadata of the entry.
    pub fn metadata(&self) -> (r: Metadata)
        ensures
            r == self.metadata_of(),
    {
        Metadata::from(
            Attributes(self.attr),
            Timestamp { date: self.creation_date, time: self.creation_time },
            Timestamp { date: self.modified_date, time: self.modified_time },
            self.accessed_date,
        )
    }
}

/// A directory entry that holds thirteen characters of a long name.
#[derive(Debug, Copy, Clone, PartialEq, Eq)]
pub struct VFatLfnDirEntry {
    pub seq: u8,
    pub name_chars: [u16; 5],
    pub attr: u8,
    pub kind: u8,
    pub checksum: u8,
    pub name_chars_2: [u16; 6],
    pub name_chars_3: [u16; 2],
}

impl View for VFatLfnDirEntry {
    type V = crate::fat32::name::LongPart;

    open spec fn view(&self) -> crate::fat32::name::LongPart {
        crate::fat32::name::LongPart { seq: self.seq, units: self.units() }
    }
}

impl VFatLfnDirEntry {
    /// One of the thirteen characters, by its position.
    pub open spec fn unit(self, i: int) -> u16 {
        if i < 5 {
            self.name_chars[i]
        } else if i < 11 {
            self.name_chars_2[i - 5]
        } else {
            self.name_chars_3[i - 11]
        }
    }

    /// The thirteen characters, in order.
    pub open spec fn units(self) -> Seq<u16> {
        Seq::new(13, |i: int| self.unit(i))
    }

    /// The place of the entry in its name: the low five bits of the
    /// sequence number.
    pub open spec fn order(self) -> int {
        self.seq as int % 32
    }

    /// The offset in an entry at which character `i` stands.
    pub open spec fn unit_offset(i: int) -> int {
        if i < 5 {
            1 + 2 * i
        } else if i < 11 {
            14 + 2 * (i - 5)
        } else {
            28 + 2 * (i - 11)
        }
    }

    /// The entry that the 32 bytes at `at` in `bytes` hold.
    pub open spec fn holds(self, bytes: Seq<u8>, at: int) -> bool {
        &&& self.seq == bytes[at]
        &&& self.attr == bytes[at + 11]
        &&& self.kind == bytes[at + 12]
        &&& self.checksum == bytes[at + 13]
        &&& forall|i: int|
            0 <= i < 13 ==> #[trigger] self.unit(i) == le_u16(
                bytes,
                at + VFatLfnDirEntry::unit_offset(i),
            )
    }

    /// Character `i` of the thirteen.
    pub fn unit_at(&self, i: usize) -> (r: u16)
        requires
            i < 13,
        ensures
            r == self@.units[i as int],
    {
        if i < 5 {
            self.name_chars[i]
        } else if i < 11 {
            self.name_chars_2[i - 5]
        } else {
            self.name_chars_3[i - 11]
        }
    }

    /// Reads the entry that stands at `at` in `bytes`.
    pub fn read(bytes: &[u8], at: usize) -> (r: VFatLfnDirEntry)
        requires
            at + ENTRY_SIZE <= bytes@.len(),
        ensures
            r.holds(bytes@, at as int),
    {
        VFatLfnDirEntry {
            seq: bytes[at],
            name_chars: [
                read_u16(bytes, at + 1),
                read_u16(bytes, at + 3),
                read_u16(bytes, at + 5),
                read_u16(bytes, at + 7),
                read_u16(bytes, at + 9),
            ],
            attr: bytes[at + 11],
            kind: bytes[at + 12],
            checksum: bytes[at + 13],
            name_chars_2: [
                read_u16(bytes, at + 14),
                read_u16(bytes, at + 16),
                read_u16(bytes, at + 18),
                read_u16(bytes, at + 20),
                read_u16(bytes, at + 22),
                read_u16(bytes, at + 24),
            ],
            name_chars_3: [read_u16(bytes, at + 28), read_u16(bytes, at + 30)],
        }
    }
}

/// A directory entry of which only the kind is known: its first byte tells
/// whether it is in use, and its attributes tell whether it holds a part of
/// a long name.
#[derive(Debug, Copy, Clone, PartialEq, Eq, Structural)]
pub struct VFatUnknownDirEntry {
    pub id: u8,
    pub attr: u8,
}

impl VFatUnknownDirEntry {
    /// Reads the entry that stands at `at` in `bytes`.
    pub fn read(bytes: &[u8], at: usize) -> (r: VFatUnknownDirEntry)
        requires
            at + ENTRY_SIZE <= bytes@.len(),
        ensures
            r.id == bytes@[at as int],
            r.attr == bytes@[at + 11],
    {
        VFatUnknownDirEntry { id: bytes[at], attr: bytes[at + 11] }
    }
}

/// Whether a byte of a short name is padding.
pub fn is_space(ch: u8) -> (r: bool)
    ensures
        r == crate::fat32::name::space(ch),
{
    ch == 0x0 || ch == 0x20
}

/// A directory.
#[derive(Debug)]
pub struct Dir {
    pub start_cluster: Cluster,
    pub name: String,
    pub metadata: Metadata,
}

/// The number of whole entries in `raw`.
pub open spec fn entry_count(raw: Seq<u8>) -> int {
    raw.len() as int / ENTRY_SIZE as int
}

/// The part of a long name that the entry at `at` in `raw` holds.
pub open spec fn part_at(raw: Seq<u8>, at: int) -> LongPart {
    LongPart {
        seq: raw[at],
        units: Seq::new(13, |i: int| le_u16(raw, at + VFatLfnDirEntry::unit_offset(i))),
    }
}

/// What the entry with a short name at `at` in `raw` tells, together with
/// the parts of its long name.
pub open spec fn entry_at(raw: Seq<u8>, at: int, parts: Seq<LongPart>) -> EntryView {
    let attributes = Attributes(raw[at + 11]);
    EntryView {
        name: name_of(raw.subrange(at, at + 8), raw.subrange(at + 8, at + 11), parts),
        metadata: Metadata {
            attributes,
            created: Timestamp {
                date: Date(le_u16(raw, at + 16)),
                time: Time(le_u16(raw, at + 14)),
            },
            modified: Timestamp {
                date: Date(le_u16(raw, at + 24)),
                time: Time(le_u16(raw, at + 22)),
            },
            accessed: Date(le_u16(raw, at + 18)),
        },
        start_cluster: Cluster(
            low28((le_u16(raw, at + 20) * 0x1_0000 + le_u16(raw, at + 26)) as u32),
        ),
        file_size: if attributes.dir_of() {
            0
        } else {
            le_u32(raw, at + 28) as u64
        },
        is_dir: attributes.dir_of(),
    }
}

/// How a walk over the entries of a directory ends.
pub enum Scan {
    /// At an entry with a short name, with the parts of its long name that
    /// stood before it.
    Found { at: int, parts: Seq<LongPart> },
    /// At the entry that ends the directory.
    End,
    /// At the end of the entries.
    Exhausted,
}

/// Walks over the entries of `raw` from entry `from` on, with `parts`
/// collected so far: deleted entries are passed over, parts of a long name
/// are collected, and the walk ends at the first entry with a short name,
/// at the entry that ends the directory, or at the end of the entries.
pub open spec fn scan(raw: Seq<u8>, from: int, parts: Seq<LongPart>) -> Scan
    decreases entry_count(raw) - from,
{
    if from < 0 || from >= entry_count(raw) {
        Scan::Exhausted
    } else if raw[from * ENTRY_SIZE] == ID_END {
        Scan::End
    } else if raw[from * ENTRY_SIZE] == ID_DELETED {
        scan(raw, from + 1, parts)
    } else if raw[from * ENTRY_SIZE + 11] == ATTR_LFN {
        scan(raw, from + 1, parts.push(part_at(raw, from * ENTRY_SIZE)))
    } else {
        Scan::Found { at: from, parts }
    }
}

/// The entry for the file or directory that `regular` describes, with the
/// name that `regular` and `long_name_entries` give.
fn make_entry(regular: &VFatRegularDirEntry, long_name_entries: &Vec<VFatLfnDirEntry>) -> (r: Entry)
    ensures
        r@.name == name_of(regular.name@, regular.ext@, parts_of(long_name_entries@)),
        r@.metadata == regular.metadata_of(),
        r@.start_cluster == Cluster(low28(regular.cluster_of())),
        r@.is_dir == Attributes(regular.attr).dir_of(),
        !r@.is_dir ==> r@.file_size == regular.file_size,
        r matches Entry::File_(f) ==> f@.offset == 0 && f@.current_cluster == f@.start_cluster,
{
    let attr = Attributes(regular.attr);
    let metadata = regular.metadata();
    let name = make_name(regular.name.as_slice(), regular.ext.as_slice(), long_name_entries);
    let start_cluster = Cluster::from(regular.cluster());
    if attr.is_dir() {
        Entry::Dir_(Dir { start_cluster, name, metadata })
    } else {
        Entry::File_(File::new(start_cluster, name, metadata, regular.file_size))
    }
}

/// A walk over the entries of a directory.
pub struct Iter {
    entries: Vec<u8>,
    index: usize,
    finished: bool,
}

/// The state of a walk over the entries of a directory.
pub struct IterView {
    /// The bytes of the directory.
    pub raw: Seq<u8>,
    /// The number of the entry at which the walk goes on.
    pub index: int,
    /// Whether the entry that ends the directory was reached.
    pub finished: bool,
}

impl View for Iter {
    type V = IterView;

    closed spec fn view(&self) -> IterView {
        IterView { raw: self.entries@, index: self.index as int, finished: self.finished }
    }
}

impl Iter {
    /// A walk over the entries that `vec` holds, from the first on.
    pub fn new(vec: Vec<u8>) -> (r: Iter)
        ensures
            r@ == (IterView { raw: vec@, index: 0, finished: false }),
    {
        Iter { entries: vec, index: 0, finished: false }
    }

    /// The next file or directory, or `None` when there is none left.
    #[verifier::loop_isolation(false)]
    pub fn next(&mut self) -> (r: Option<Entry>)
        ensures
            final(self)@.raw == old(self)@.raw,
            old(self)@.finished ==> r is None && final(self)@ == old(self)@,
            !old(self)@.finished ==> match scan(old(self)@.raw, old(self)@.index, Seq::empty()) {
                Scan::Found { at, parts } => {
                    &&& r matches Some(entry)
                    &&& entry@ == entry_at(old(self)@.raw, at * ENTRY_SIZE, parts)
                    &&& (entry matches Entry::File_(f) ==> f@.offset == 0 && f@.current_cluster
                        == f@.start_cluster)
                    &&& final(self)@.index == at + 1
                    &&& !final(self)@.finished
                },
                Scan::End => r is None && final(self)@.finished && final(self)@.index == old(self)@.index,
                Scan::Exhausted => r is None && final(self)@ == old(self)@,
            },
    {
        let count = self.entries.len() / ENTRY_SIZE;
        if self.index >= count || self.finished {
            return None;
        }
        let ghost raw = self.entries@;
        let mut long_name_entries: Vec<VFatLfnDirEntry> = Vec::new();
        let mut pos = self.index;
        proof {
            assert(parts_of(long_name_entries@) =~= Seq::<LongPart>::empty());
        }
        while pos < count
            invariant
                self.index <= pos <= count,
                count == entry_count(raw),
                raw == self.entries@,
                *self == *old(self),
                scan(raw, self.index as int, Seq::empty()) == scan(
                    raw,
                    pos as int,
                    parts_of(long_name_entries@),
                ),
            decreases count - pos,
        {
            let at = pos * ENTRY_SIZE;
            let unknown = VFatUnknownDirEntry::read(self.entries.as_slice(), at);
            if unknown.id == ID_END {
                self.finished = true;
                return None;
            } else if unknown.id == ID_DELETED {
            } else if unknown.attr == ATTR_LFN {
                let part = VFatLfnDirEntry::read(self.entries.as_slice(), at);
                let ghost before = parts_of(long_name_entries@);
                long_name_entries.push(part);
                proof {
                    assert(part@.units =~= part_at(raw, at as int).units);
                    assert(parts_of(long_name_entries@) =~= before.push(part_at(raw, at as int)));
                }
            } else {
                let regular = VFatRegularDirEntry::read(self.entries.as_slice(), at);
                let entry = make_entry(&regular, &long_name_entries);
                self.index = pos + 1;
                proof {
                    let parts = parts_of(long_name_entries@);
                    let want = entry_at(raw, at as int, parts);
                    assert(entry@.name == want.name);
                    assert(entry@.metadata == want.metadata);
                    assert(entry@.start_cluster == want.start_cluster);
                    assert(entry@.is_dir == want.is_dir);
                    assert(entry@.file_size == want.file_size);
                }
                return Some(entry);
            }
            pos = pos + 1;
        }
        None
    }
}

/// A lower-case letter for an upper-case letter of the Latin alphabet
/// without accents, and any other character as it is.
pub open spec fn lower(c: char) -> char {
    if 'A' <= c <= 'Z' {
        ((c as u32) + 32) as char
    } else {
        c
    }
}

/// The characters of `s` with `lower` applied to each.
pub open spec fn folded(s: Seq<char>) -> Seq<char> {
    Seq::new(s.len(), |i: int| lower(s[i]))
}

/// `str::eq_ignore_ascii_case`: whether the two strings are the same once
/// the upper-case letters A to Z are replaced by their lower-case letters.
#[verifier::external_body]
fn eq_ignore_ascii_case(a: &str, b: &str) -> (r: bool)
    ensures
        r == (folded(a@) == folded(b@)),
{
    a.eq_ignore_ascii_case(b)
}

/// The first file or directory from entry `from` of `raw` on whose name is
/// `name`, where upper and lower case are the same; `None` if there is
/// none.
pub open spec fn found_in(raw: Seq<u8>, from: int, name: Seq<char>) -> Option<EntryView>
    decreases entry_count(raw) - from,
{
    match scan(raw, from, Seq::empty()) {
        Scan::Found { at, parts } => {
            let entry = entry_at(raw, at * ENTRY_SIZE, parts);
            if folded(entry.name) == folded(name) {
                Some(entry)
            } else if from <= at < entry_count(raw) {
                found_in(raw, at + 1, name)
            } else {
                None
            }
        },
        _ => None,
    }
}

/// A walk that ends at an entry ends at or after the entry it began at.
pub proof fn lemma_scan_forward(raw: Seq<u8>, from: int, parts: Seq<LongPart>)
    ensures
        scan(raw, from, parts) matches Scan::Found { at, .. } ==> from <= at < entry_count(raw),
    decreases entry_count(raw) - from,
{
    if 0 <= from < entry_count(raw) {
        if raw[from * ENTRY_SIZE] == ID_END {
        } else if raw[from * ENTRY_SIZE] == ID_DELETED {
            lemma_scan_forward(raw, from + 1, parts);
        } else if raw[from * ENTRY_SIZE + 11] == ATTR_LFN {
            lemma_scan_forward(raw, from + 1, parts.push(part_at(raw, from * ENTRY_SIZE)));
        }
    }
}

impl Dir {
    /// The root directory, which begins in `cluster`.
    pub fn rootdir(cluster: Cluster) -> (r: Dir)
        ensures
            r.start_cluster == cluster,
            r.name@ == "<FAT32 ROOT DIRECTORY>"@,
            r.metadata == Metadata::default_spec(),
    {
        Dir {
            start_cluster: cluster,
            name: "<FAT32 ROOT DIRECTORY>".to_string(),
            metadata: Metadata::default(),
        }
    }

    /// A walk over the entries of the directory, whose clusters are read
    /// through `vfat`.
    ///
    /// A directory whose chain of clusters `vfat` holds in memory is read
    /// from there, and the walk is handed out. Otherwise the device is
    /// asked, and the result is the error of reading the chain if that
    /// fails; it is `InvalidInput` for a directory that begins in a cluster
    /// below 2.
    pub fn entries<D: BlockDevice>(&self, vfat: &mut VFat<D>) -> (r: Result<Iter, ErrorKind>)
        requires
            old(vfat).wf(),
        ensures
            final(vfat).wf(),
            final(vfat).layout() == old(vfat).layout(),
            final(vfat).reach() == old(vfat).reach(),
            self.start_cluster.0 < 2 ==> {
                &&& r matches Err(kind) && kind == ErrorKind::InvalidInput
                &&& final(vfat).cached() == old(vfat).cached()
                &&& final(vfat).device() == old(vfat).device()
            },
            extends(final(vfat).cached(), old(vfat).cached()),
            old(vfat).holds_chain(self.start_cluster) ==> {
                &&& r is Ok
                &&& final(vfat).cached() == old(vfat).cached()
                &&& final(vfat).device() == old(vfat).device()
            },
            r is Ok ==> final(vfat).holds_chain(self.start_cluster),
            r matches Ok(iter) ==> {
                &&& iter@.index == 0
                &&& !iter@.finished
                &&& final(vfat).layout().chain_data(final(vfat).cached(), self.start_cluster)
                    == Some(iter@.raw)
            },
    {
        if self.start_cluster.num() < 2 {
            proof {
                if vfat.holds_chain(self.start_cluster) {
                    lemma_readable_step(
                        vfat.layout(),
                        vfat.cached(),
                        vfat.reach(),
                        self.start_cluster,
                        (vfat.layout().fat_entries() + 1) as nat,
                        usize::MAX as int,
                    );
                }
            }
            return Err(ErrorKind::InvalidInput);
        }
        let mut vec: Vec<u8> = Vec::new();
        match vfat.read_chain(self.start_cluster, &mut vec) {
            Err(kind) => Err(kind),
            Ok(_) => Ok(Iter::new(vec)),
        }
    }

    /// The first of the files and directories that are left in `iter` whose
    /// name is `name`, where upper and lower case are the same.
    ///
    /// The result is `NotFound` if there is none.
    #[verifier::loop_isolation(false)]
    pub fn find_in(iter: Iter, name: &str) -> (r: Result<Entry, ErrorKind>)
        requires
            !iter@.finished,
        ensures
            match found_in(iter@.raw, iter@.index, name@) {
                Some(entry) => r matches Ok(e) && e@ == entry,
                None => r matches Err(kind) && kind == ErrorKind::NotFound,
            },
    {
        let ghost wanted = found_in(iter@.raw, iter@.index, name@);
        let mut iter = iter;
        let ghost raw = iter@.raw;
        loop
            invariant
                iter@.raw == raw,
                !iter@.finished,
                found_in(raw, iter@.index, name@) == wanted,
            decreases entry_count(raw) - iter@.index,
        {
            let ghost from = iter@.index;
            proof {
                lemma_scan_forward(raw, from, Seq::empty());
            }
            match iter.next() {
                None => {
                    return Err(ErrorKind::NotFound);
                },
                Some(entry) => {
                    if eq_ignore_ascii_case(entry.name(), name) {
                        return Ok(entry);
                    }
                },
            }
        }
    }

    /// The entry of the directory with the name `name`, where upper and
    /// lower case are the same.
    ///
    /// The result is `NotFound` if the directory has no such entry, and the
    /// error of reading the directory if that fails. A directory whose
    /// chain of clusters `vfat` holds in memory is searched as it stands
    /// there, and the device is not asked.
    pub fn find<D: BlockDevice>(&self, vfat: &mut VFat<D>, name: &str) -> (r: Result<Entry, ErrorKind>)
        requires
            old(vfat).wf(),
        ensures
            final(vfat).wf(),
            final(vfat).layout() == old(vfat).layout(),
            final(vfat).reach() == old(vfat).reach(),
            self.start_cluster.0 < 2 ==> {
                &&& r matches Err(kind) && kind == ErrorKind::InvalidInput
                &&& final(vfat).cached() == old(vfat).cached()
                &&& final(vfat).device() == old(vfat).device()
            },
            extends(final(vfat).cached(), old(vfat).cached()),
            old(vfat).holds_chain(self.start_cluster) ==> {
                &&& final(vfat).cached() == old(vfat).cached()
                &&& final(vfat).device() == old(vfat).device()
                &&& old(vfat).layout().chain_data(old(vfat).cached(), self.start_cluster) is Some
                &&& match found_in(
                    old(vfat).layout().chain_data(old(vfat).cached(), self.start_cluster)->Some_0,
                    0,
                    name@,
                ) {
                    Some(entry) => r matches Ok(e) && e@ == entry,
                    None => r matches Err(kind) && kind == ErrorKind::NotFound,
                }
            },
            r is Ok ==> final(vfat).holds_chain(self.start_cluster),
            r matches Ok(entry) ==> folded(entry@.name) == folded(name@),
            r matches Ok(entry) ==> final(vfat).layout().chain_data(
                final(vfat).cached(),
                self.start_cluster,
            ) matches Some(raw) && found_in(raw, 0, name@) == Some(entry@),
    {
        match self.entries(vfat) {
            Err(kind) => Err(kind),
            Ok(iter) => {
                proof {
                    lemma_found_matches(iter@.raw, iter@.index, name@);
                }
                Dir::find_in(iter, name)
            },
        }
    }
}

/// An entry that `found_in` gives has the name that was looked for, where
/// upper and lower case are the same.
pub proof fn lemma_found_matches(raw: Seq<u8>, from: int, name: Seq<char>)
    ensures
        found_in(raw, from, name) matches Some(entry) ==> folded(entry.name) == folded(name),
    decreases entry_count(raw) - from,
{
    lemma_scan_forward(raw, from, Seq::empty());
    match scan(raw, from, Seq::empty()) {
        Scan::Found { at, parts } => {
            let entry = entry_at(raw, at * ENTRY_SIZE, parts);
            if folded(entry.name) != folded(name) {
                lemma_found_matches(raw, at + 1, name);
            }
        },
        _ => {},
    }
}

} // verus!
