//! Files: reading them cluster by cluster, and moving in them.

use vstd::prelude::*;
use crate::fat32::cache::{Sectors, extends};
use crate::fat32::fat::{Cluster, Status};
use crate::fat32::metadata::Metadata;
use crate::fat32::traits::BlockDevice;
use crate::fat32::vfat::{Layout, VFat};
use crate::ioerr::ErrorKind;

verus! {

/// A position in a file to move to.
#[derive(Debug, Copy, Clone, PartialEq, Eq, Structural)]
pub enum SeekFrom {
    /// This many bytes from the start.
    Start(u64),
    /// This many bytes from the end; negative is towards the start.
    End(i64),
    /// This many bytes from the present position.
    Current(i64),
}

/// A file.
#[derive(Debug)]
pub struct File {
    pub start_cluster: Cluster,
    pub name: String,
    pub metadata: Metadata,
    pub file_size: u64,
    offset: u64,
    current_cluster: Cluster,
}

/// What a file is and where it is being read.
pub struct FileView {
    pub start_cluster: Cluster,
    pub name: Seq<char>,
    pub metadata: Metadata,
    pub file_size: u64,
    /// The position of the next byte to read.
    pub offset: u64,
    /// The cluster that holds the next byte to read.
    pub current_cluster: Cluster,
}

impl View for File {
    type V = FileView;

    closed spec fn view(&self) -> FileView {
        FileView {
            start_cluster: self.start_cluster,
            name: self.name@,
            metadata: self.metadata,
            file_size: self.file_size,
            offset: self.offset,
            current_cluster: self.current_cluster,
        }
    }
}

/// The position that `pos` names in a file of `size` bytes that stands at
/// `offset`. A position before the start, and one at or beyond the end, is
/// refused with `InvalidInput`.
pub open spec fn sought(offset: u64, size: u64, pos: SeekFrom) -> Result<u64, ErrorKind> {
    let target = match pos {
        SeekFrom::Start(p) => p as int,
        SeekFrom::End(n) => size + n,
        SeekFrom::Current(n) => offset + n,
    };
    if 0 <= target < size {
        Ok(target as u64)
    } else {
        Err(ErrorKind::InvalidInput)
    }
}

/// The number of bytes that one read takes from a file of `size` bytes at
/// `offset`, in clusters of `cluster` bytes, if `len` bytes are asked for:
/// it stops at the end of the cluster and at the end of the file.
pub open spec fn read_span(offset: u64, size: u64, cluster: int, len: usize) -> int {
    let in_cluster = cluster - offset % (cluster as u64);
    let in_file = size - offset;
    if len <= in_cluster && len <= in_file {
        len as int
    } else if in_cluster <= in_file {
        in_cluster
    } else {
        in_file
    }
}

/// What follows a read of `count` bytes from the file `file`: the file
/// stands `count` bytes further on. If the read ended at the end of a
/// cluster, `link` is what following the chain from that cluster gave: the
/// file goes on in the next cluster, an error is handed on, and the end of
/// the chain is `UnexpectedEof` if the file has bytes left. Otherwise
/// `link` is `None`.
pub open spec fn stepped(
    file: FileView,
    count: usize,
    link: Option<Result<Option<Cluster>, ErrorKind>>,
) -> (FileView, Result<usize, ErrorKind>) {
    let moved = FileView { offset: (file.offset + count) as u64, ..file };
    match link {
        None => (moved, Ok(count)),
        Some(Err(kind)) => (moved, Err(kind)),
        Some(Ok(Some(next))) => (FileView { current_cluster: next, ..moved }, Ok(count)),
        Some(Ok(None)) => if moved.offset < moved.file_size {
            (moved, Err(ErrorKind::UnexpectedEof))
        } else {
            (moved, Ok(count))
        },
    }
}

/// What one read of `len` bytes makes of the file `file` and returns, as
/// the file system with the layout `layout` stands in the sectors `cached`.
///
/// At the end of the file, and for `len` 0, nothing is read. Otherwise the
/// result is `InvalidInput` if the file stands in a cluster below 2, and
/// `UnexpectedEof` if a sector of the bytes to read has another size than
/// the layout says, and the file stays where it is. Else the bytes are
/// read, and `stepped` says what follows.
pub open spec fn read_of(file: FileView, layout: Layout, cached: Sectors, len: usize) -> (
    FileView,
    Result<usize, ErrorKind>,
) {
    let at = file.offset % (layout.cluster_bytes() as u64);
    let span = read_span(file.offset, file.file_size, layout.cluster_bytes(), len);
    if file.offset >= file.file_size || len == 0 {
        (file, Ok(0))
    } else if file.current_cluster.0 < 2 {
        (file, Err(ErrorKind::InvalidInput))
    } else if !layout.span_whole(cached, file.current_cluster, at as int, span) {
        (file, Err(ErrorKind::UnexpectedEof))
    } else {
        stepped(
            file,
            span as usize,
            if at + span == layout.cluster_bytes() {
                Some(layout.next_of(cached, file.current_cluster))
            } else {
                None
            },
        )
    }
}

/// One read of `len` bytes from the file `file` is served from memory: the
/// sectors of the bytes to read are in `reach` and among the sectors
/// `cached`, and so is the sector of the file allocation table that says
/// where the file goes on, if the read ends at the end of a cluster.
pub open spec fn read_at_hand(
    file: FileView,
    layout: Layout,
    cached: Sectors,
    reach: Set<u64>,
    len: usize,
) -> bool {
    let at = file.offset % (layout.cluster_bytes() as u64);
    let span = read_span(file.offset, file.file_size, layout.cluster_bytes(), len);
    file.offset >= file.file_size || len == 0 || file.current_cluster.0 < 2 || {
        &&& layout.span_at_hand(cached, reach, file.current_cluster, at as int, span)
        &&& at + span == layout.cluster_bytes() ==> reach.contains(
            layout.fat_sector_of(file.current_cluster) as u64,
        ) && cached.contains_key(layout.fat_sector_of(file.current_cluster) as u64)
    }
}

impl File {
    /// A file of `file_size` bytes that begins in `start_cluster`, to be
    /// read from its start.
    pub fn new(start_cluster: Cluster, name: String, metadata: Metadata, file_size: u32) -> (r: File)
        ensures
            r@ == (FileView {
                start_cluster,
                name: name@,
                metadata,
                file_size: file_size as u64,
                offset: 0,
                current_cluster: start_cluster,
            }),
    {
        File {
            start_cluster,
            name,
            metadata,
            file_size: file_size as u64,
            offset: 0,
            current_cluster: start_cluster,
        }
    }

    /// The name of the file.
    pub fn name(&self) -> (r: &str)
        ensures
            r@ == self@.name,
    {
        self.name.as_str()
    }

    /// The metadata of the file.
    pub fn metadata(&self) -> (r: &Metadata)
        ensures
            *r == self@.metadata,
    {
        &self.metadata
    }

    /// Writes what is buffered to the device: nothing, as nothing is.
    pub fn sync(&mut self) -> (r: Result<(), ErrorKind>)
        ensures
            r is Ok,
            final(self)@ == old(self)@,
    {
        Ok(())
    }

    /// The size of the file in bytes.
    pub fn size(&self) -> (r: u64)
        ensures
            r == self@.file_size,
    {
        self.file_size
    }

    /// The position of the next byte to read.
    pub fn position(&self) -> (r: u64)
        ensures
            r == self@.offset,
    {
        self.offset
    }

    /// What follows a read of `count` bytes: the file moves on by `count`
    /// bytes and, if the read ended at the end of a cluster, into the
    /// cluster that `link` gives; see `stepped`.
    pub fn step(&mut self, count: usize, link: Option<Result<Option<Cluster>, ErrorKind>>) -> (r:
        Result<usize, ErrorKind>)
        requires
            old(self)@.offset + count <= u64::MAX,
        ensures
            (final(self)@, r) == stepped(old(self)@, count, link),
    {
        self.offset = self.offset + count as u64;
        match link {
            None => Ok(count),
            Some(Err(kind)) => Err(kind),
            Some(Ok(Some(next))) => {
                self.current_cluster = next;
                Ok(count)
            },
            Some(Ok(None)) => {
                if self.offset < self.file_size {
                    Err(ErrorKind::UnexpectedEof)
                } else {
                    Ok(count)
                }
            },
        }
    }

    /// Reads up to `len` bytes from the present position and appends them
    /// to `buf`. One read does not go beyond the end of the cluster it
    /// begins in, nor beyond the end of the file. Returns the number of
    /// bytes that were appended: 0 at the end of the file, or if `len` is 0.
    ///
    /// The result is `InvalidInput` if the file stands in a cluster below
    /// 2, `UnexpectedEof` if a sector has another size than the parameter
    /// block says or the chain of clusters ends before the file does,
    /// `InvalidData` if the chain runs into a cluster that is free,
    /// reserved or bad, and the error of the device if reading fails. A
    /// read that is served from memory does not ask the device; `read_of`
    /// says what it gives.
    pub fn read<D: BlockDevice>(&mut self, vfat: &mut VFat<D>, len: usize, buf: &mut Vec<u8>) -> (r:
        Result<usize, ErrorKind>)
        requires
            old(vfat).wf(),
        ensures
            final(vfat).wf(),
            final(vfat).layout() == old(vfat).layout(),
            final(vfat).reach() == old(vfat).reach(),
            final(self)@.file_size == old(self)@.file_size,
            final(self)@.start_cluster == old(self)@.start_cluster,
            final(self)@.name == old(self)@.name,
            final(self)@.metadata == old(self)@.metadata,
            final(buf)@.len() >= old(buf)@.len(),
            final(buf)@.subrange(0, old(buf)@.len() as int) == old(buf)@,
            old(self)@.offset >= old(self)@.file_size || len == 0 ==> r == Ok::<usize, ErrorKind>(0)
                && final(self)@ == old(self)@ && final(buf)@ == old(buf)@,
            extends(final(vfat).cached(), old(vfat).cached()),
            read_at_hand(
                old(self)@,
                old(vfat).layout(),
                old(vfat).cached(),
                old(vfat).reach(),
                len,
            ) ==> {
                &&& final(vfat).cached() == old(vfat).cached()
                &&& final(vfat).device() == old(vfat).device()
                &&& (final(self)@, r) == read_of(
                    old(self)@,
                    old(vfat).layout(),
                    old(vfat).cached(),
                    len,
                )
            },
            r is Ok ==> (final(self)@, r) == read_of(
                old(self)@,
                final(vfat).layout(),
                final(vfat).cached(),
                len,
            ),
            r matches Ok(count) ==> {
                &&& final(self)@.offset == old(self)@.offset + count
                &&& final(buf)@.len() == old(buf)@.len() + count
                &&& old(self)@.offset < old(self)@.file_size && len > 0 ==> count == read_span(
                    old(self)@.offset,
                    old(self)@.file_size,
                    old(vfat).layout().cluster_bytes(),
                    len,
                ) && count > 0
                &&& forall|k: int|
                    0 <= k < count ==> #[trigger] final(vfat).layout().copied(
                        final(vfat).cached(),
                        old(self)@.current_cluster,
                        old(self)@.offset % (old(vfat).layout().cluster_bytes() as u64) + k,
                        final(buf)@,
                        old(buf)@.len() + k,
                    )
            },
    {
        if self.offset >= self.file_size || len == 0 {
            return Ok(0);
        }
        let cluster_size = vfat.cluster_size();
        let cluster_offset = self.offset % cluster_size;
        let in_cluster = cluster_size - cluster_offset;
        let in_file = self.file_size - self.offset;
        let bound = if in_cluster < in_file {
            in_cluster
        } else {
            in_file
        };
        let to_read = if (len as u64) < bound {
            len
        } else {
            bound as usize
        };
        let ghost layout = vfat.layout();
        let current = self.current_cluster;
        assert(layout.span(cluster_offset as int, to_read as int) == to_read);
        let num_read = match vfat.read_cluster(current, cluster_offset as usize, to_read, buf) {
            Err(kind) => {
                return Err(kind);
            },
            Ok(n) => n,
        };
        let ghost mid = vfat.cached();
        let ghost filled = buf@;
        proof {
            assert forall|k: int| 0 <= k < num_read implies #[trigger] layout.holds(
                mid,
                current,
                cluster_offset + k,
            ) by {
                assert(layout.copied(mid, current, cluster_offset + k, filled, old(buf)@.len() + k));
            }
        }
        let link = if cluster_offset + num_read as u64 == cluster_size {
            Some(vfat.next_cluster(current))
        } else {
            None
        };
        let r = self.step(num_read, link);
        proof {
            let after = vfat.cached();
            assert forall|k: int| 0 <= k < num_read implies #[trigger] layout.copied(
                after,
                current,
                cluster_offset + k,
                buf@,
                old(buf)@.len() + k,
            ) by {
                assert(layout.copied(mid, current, cluster_offset + k, filled, old(buf)@.len() + k));
                assert(mid.contains_key(layout.sector_of(current, cluster_offset + k)));
            }
            assert forall|k: int| 0 <= k < num_read implies #[trigger] layout.holds(
                after,
                current,
                cluster_offset + k,
            ) by {
                assert(layout.copied(after, current, cluster_offset + k, buf@, old(buf)@.len() + k));
            }
        }
        r
    }

    /// Moves to the position that `pos` names and returns it. A position
    /// before the start of the file, and one at or beyond its end, is
    /// refused with `InvalidInput`, and the file stays where it is.
    pub fn seek(&mut self, pos: SeekFrom) -> (r: Result<u64, ErrorKind>)
        ensures
            r == sought(old(self)@.offset, old(self)@.file_size, pos),
            final(self)@ == (FileView {
                offset: match r {
                    Ok(target) => target,
                    Err(_) => old(self)@.offset,
                },
                ..old(self)@
            }),
    {
        let (base, add): (u64, i64) = match pos {
            SeekFrom::Start(p) => (p, 0),
            SeekFrom::End(n) => (self.file_size, n),
            SeekFrom::Current(n) => (self.offset, n),
        };
        let target = if add < 0 {
            let back: u64 = if add == i64::MIN {
                0x8000_0000_0000_0000
            } else {
                (-add) as u64
            };
            if back > base {
                return Err(ErrorKind::InvalidInput);
            }
            base - back
        } else {
            if add as u64 > u64::MAX - base {
                return Err(ErrorKind::InvalidInput);
            }
            base + add as u64
        };
        if target >= self.file_size {
            Err(ErrorKind::InvalidInput)
        } else {
            self.offset = target;
            Ok(target)
        }
    }
}

} // verus!
