//! The file system: where its parts lie on the partition, and how chains
//! of clusters are read.

use vstd::prelude::*;
use crate::fat32::bytes::{le_u32, read_u32};
use crate::fat32::cache::{CachedPartition, Partition, Sectors, extends};
use crate::fat32::dir::{Dir, folded, found_in};
use crate::fat32::entry::{Entry, EntryView};
use crate::fat32::metadata::Metadata;
use crate::fat32::ebpb::BiosParameterBlock;
use crate::fat32::error::Error;
use crate::fat32::fat::{Cluster, FatEntry, Status};
use crate::fat32::mbr::{MasterBootRecord, MasterBootRecordView};
use crate::fat32::traits::BlockDevice;
use crate::ioerr::ErrorKind;

verus! {

/// A FAT32 file system on a partition of a device.
pub struct VFat<D: BlockDevice> {
    device: CachedPartition<D>,
    bytes_per_sector: u16,
    sectors_per_cluster: u8,
    sectors_per_fat: u32,
    fat_start_sector: u64,
    data_start_sector: u64,
    rootdir_cluster: Cluster,
}

/// The layout of a file system.
pub struct Layout {
    pub bytes_per_sector: u16,
    pub sectors_per_cluster: u8,
    pub sectors_per_fat: u32,
    pub fat_start_sector: u64,
    pub data_start_sector: u64,
    pub rootdir_cluster: Cluster,
}

impl Layout {
    /// The layout that the parameter block `block` describes: the tables
    /// follow the reserved sectors, and the data follows the tables.
    pub open spec fn of(block: BiosParameterBlock) -> Layout {
        Layout {
            bytes_per_sector: block.bytes_per_sector,
            sectors_per_cluster: block.sectors_per_cluster,
            sectors_per_fat: block.sectors_per_fat,
            fat_start_sector: block.reserved_sectors as u64,
            data_start_sector: (block.reserved_sectors + block.num_fats * block.sectors_per_fat) as u64,
            rootdir_cluster: Cluster(crate::fat32::fat::low28(block.root_cluster)),
        }
    }

    /// The first sector of `cluster`; clusters are numbered from 2.
    pub open spec fn start_sector_of(self, cluster: Cluster) -> Result<u64, ErrorKind> {
        if cluster.0 < 2 {
            Err(ErrorKind::InvalidInput)
        } else {
            Ok((self.data_start_sector + (cluster.0 - 2) * self.sectors_per_cluster) as u64)
        }
    }

    /// The sector that holds the byte `pos` of `cluster`.
    pub open spec fn sector_of(self, cluster: Cluster, pos: int) -> u64 {
        (self.data_start_sector + (cluster.0 - 2) * self.sectors_per_cluster + pos
            / self.bytes_per_sector as int) as u64
    }

    /// The byte `pos` of `cluster`, as it stands in the sectors `cached`.
    pub open spec fn byte_of(self, cached: Sectors, cluster: Cluster, pos: int) -> u8 {
        cached[self.sector_of(cluster, pos)].0[pos % self.bytes_per_sector as int]
    }

    /// The sector that holds the byte `pos` of `cluster` is among the
    /// sectors `cached`, in its full size.
    pub open spec fn holds(self, cached: Sectors, cluster: Cluster, pos: int) -> bool {
        cached.contains_key(self.sector_of(cluster, pos)) && cached[self.sector_of(
            cluster,
            pos,
        )].0.len() == self.bytes_per_sector
    }

    /// Sector `i` of `cluster`.
    pub open spec fn nth_sector(self, cluster: Cluster, i: int) -> u64 {
        (self.data_start_sector + (cluster.0 - 2) * self.sectors_per_cluster + i) as u64
    }

    /// The first `sectors` sectors of `cluster` are among the sectors
    /// `cached`.
    pub open spec fn has_sectors(self, cached: Sectors, cluster: Cluster, sectors: int) -> bool {
        forall|i: int| 0 <= i < sectors ==> cached.contains_key(#[trigger] self.nth_sector(cluster, i))
    }

    /// The bytes of the first `sectors` sectors of `cluster`, as they stand
    /// in the sectors `cached`.
    pub open spec fn cluster_data(self, cached: Sectors, cluster: Cluster, sectors: nat) -> Seq<u8>
        decreases sectors,
    {
        if sectors == 0 {
            Seq::empty()
        } else {
            self.cluster_data(cached, cluster, (sectors - 1) as nat) + cached[self.nth_sector(
                cluster,
                sectors - 1,
            )].0
        }
    }

    /// The bytes of `cluster`, as they stand in the sectors `cached`.
    pub open spec fn whole_cluster(self, cached: Sectors, cluster: Cluster) -> Seq<u8> {
        self.cluster_data(cached, cluster, self.sectors_per_cluster as nat)
    }

    /// `acc` followed by the bytes of the chain of clusters that begins at
    /// `cluster`, as the chain and the clusters stand in the sectors
    /// `cached`; `None` if the chain runs into a cluster that is free,
    /// reserved or bad, or has more than `fuel` clusters.
    pub open spec fn chain_from(
        self,
        cached: Sectors,
        cluster: Cluster,
        fuel: nat,
        acc: Seq<u8>,
    ) -> Option<Seq<u8>>
        decreases fuel,
    {
        if fuel == 0 {
            None
        } else {
            let grown = acc + self.whole_cluster(cached, cluster);
            match self.entry_of(cached, cluster).status_of() {
                Status::Eoc(_) => Some(grown),
                Status::Data(next) => self.chain_from(cached, next, (fuel - 1) as nat, grown),
                _ => None,
            }
        }
    }

    /// The bytes of the chain of clusters that begins at `cluster`; see
    /// `chain_from`.
    pub open spec fn chain_data(self, cached: Sectors, cluster: Cluster) -> Option<Seq<u8>> {
        self.chain_from(cached, cluster, (self.fat_entries() + 1) as nat, Seq::empty())
    }

    /// The clusters `visited` are in the sectors `cached`, with their
    /// entries in the file allocation table, and each is followed in its
    /// chain by the next of them, and the last by `then`.
    pub open spec fn linked(self, cached: Sectors, visited: Seq<Cluster>, then: Cluster) -> bool {
        forall|j: int|
            0 <= j < visited.len() ==> {
                &&& self.has_sectors(cached, #[trigger] visited[j], self.sectors_per_cluster as int)
                &&& cached.contains_key(self.fat_sector_of(visited[j]) as u64)
                &&& self.entry_of(cached, visited[j]).status_of() == Status::Data(
                    if j + 1 < visited.len() {
                        visited[j + 1]
                    } else {
                        then
                    },
                )
            }
    }

    /// The bytes of the clusters `visited`, one after the other.
    pub open spec fn gathered(self, cached: Sectors, visited: Seq<Cluster>) -> Seq<u8>
        decreases visited.len(),
    {
        if visited.len() == 0 {
            Seq::empty()
        } else {
            self.gathered(cached, visited.drop_last()) + self.whole_cluster(cached, visited.last())
        }
    }

    /// The number of bytes that a read of `len` bytes takes from a cluster,
    /// from the byte `offset` of the cluster on: it stops at the end of the
    /// cluster.
    pub open spec fn span(self, offset: int, len: int) -> int {
        if offset >= self.cluster_bytes() {
            0
        } else if len <= self.cluster_bytes() - offset {
            len
        } else {
            self.cluster_bytes() - offset
        }
    }

    /// The sectors that hold the `count` bytes of `cluster` from the byte
    /// `offset` on are all among the sectors `cached` and in `reach`.
    pub open spec fn span_at_hand(
        self,
        cached: Sectors,
        reach: Set<u64>,
        cluster: Cluster,
        offset: int,
        count: int,
    ) -> bool {
        forall|k: int|
            0 <= k < count ==> reach.contains(#[trigger] self.sector_of(cluster, offset + k))
                && cached.contains_key(self.sector_of(cluster, offset + k))
    }

    /// The sectors that hold the `count` bytes of `cluster` from the byte
    /// `offset` on are all among the sectors `cached`, in their full size.
    pub open spec fn span_whole(self, cached: Sectors, cluster: Cluster, offset: int, count: int) -> bool {
        forall|k: int| 0 <= k < count ==> #[trigger] self.holds(cached, cluster, offset + k)
    }

    /// The sectors of `cluster` are all among the sectors `cached` and in
    /// `reach`.
    pub open spec fn cluster_at_hand(self, cached: Sectors, reach: Set<u64>, cluster: Cluster) -> bool {
        forall|i: int|
            0 <= i < self.sectors_per_cluster ==> reach.contains(#[trigger] self.nth_sector(cluster, i))
                && cached.contains_key(self.nth_sector(cluster, i))
    }

    /// The entry of `cluster` in the file allocation table stands whole in
    /// a sector that is among the sectors `cached` and in `reach`.
    pub open spec fn entry_at_hand(self, cached: Sectors, reach: Set<u64>, cluster: Cluster) -> bool {
        &&& reach.contains(self.fat_sector_of(cluster) as u64)
        &&& cached.contains_key(self.fat_sector_of(cluster) as u64)
        &&& self.fat_offset_of(cluster) + 4 <= cached[self.fat_sector_of(cluster) as u64].0.len()
    }

    /// Each of the clusters `visited` is numbered from 2 on and at hand, with
    /// its entry in the file allocation table.
    pub open spec fn all_at_hand(self, cached: Sectors, reach: Set<u64>, visited: Seq<Cluster>) -> bool {
        forall|j: int|
            0 <= j < visited.len() ==> {
                &&& (#[trigger] visited[j]).0 >= 2
                &&& self.cluster_at_hand(cached, reach, visited[j])
                &&& self.entry_at_hand(cached, reach, visited[j])
            }
    }

    /// The chain of clusters that begins at `cluster` can be read from the
    /// sectors `cached` alone: each of its clusters is numbered from 2 on
    /// and at hand with its entry in the file allocation table, the chain
    /// ends after at most `fuel` clusters, and its bytes number at most
    /// `room`.
    #[verifier::opaque]
    pub open spec fn readable(
        self,
        cached: Sectors,
        reach: Set<u64>,
        cluster: Cluster,
        fuel: nat,
        room: int,
    ) -> bool
        decreases fuel,
    {
        &&& fuel > 0
        &&& cluster.0 >= 2
        &&& self.cluster_at_hand(cached, reach, cluster)
        &&& self.whole_cluster(cached, cluster).len() <= room
        &&& self.entry_at_hand(cached, reach, cluster)
        &&& match self.entry_of(cached, cluster).status_of() {
            Status::Eoc(_) => true,
            Status::Data(next) => self.readable(
                cached,
                reach,
                next,
                (fuel - 1) as nat,
                room - self.whole_cluster(cached, cluster).len(),
            ),
            _ => false,
        }
    }

    /// Byte `at` of `buf` is the byte `pos` of `cluster` as it stands in the
    /// sectors `cached`, which hold the sector of that byte in its full
    /// size.
    pub open spec fn copied(
        self,
        cached: Sectors,
        cluster: Cluster,
        pos: int,
        buf: Seq<u8>,
        at: int,
    ) -> bool {
        self.holds(cached, cluster, pos) && buf[at] == self.byte_of(cached, cluster, pos)
    }

    /// What the entry of `cluster` in the file allocation table says, as the
    /// table stands in the sectors `cached`.
    pub open spec fn entry_of(self, cached: Sectors, cluster: Cluster) -> FatEntry {
        FatEntry(le_u32(cached[self.fat_sector_of(cluster) as u64].0, self.fat_offset_of(cluster)))
    }

    /// The root directory, as an entry.
    pub open spec fn root(self) -> EntryView {
        EntryView {
            name: "<FAT32 ROOT DIRECTORY>"@,
            metadata: Metadata::default_spec(),
            start_cluster: self.rootdir_cluster,
            file_size: 0,
            is_dir: true,
        }
    }

    /// The entry that the components of `components` from number `from` on
    /// lead to, beginning in `entry`, as the directories stand in the
    /// sectors `cached`: each component is looked up in the directory that
    /// the one before led to.
    ///
    /// The result is `InvalidInput` if a component is to be looked up in a
    /// file, or in a directory that begins in a cluster below 2, `NotFound`
    /// if a directory has no entry with the name of the component, and
    /// `InvalidData` if the chain of a directory runs into a cluster that
    /// is free, reserved or bad.
    pub open spec fn resolved_from(
        self,
        cached: Sectors,
        entry: EntryView,
        components: Seq<String>,
        from: int,
    ) -> Result<EntryView, ErrorKind>
        decreases components.len() - from,
    {
        if from < 0 || from >= components.len() {
            Ok(entry)
        } else if !entry.is_dir || entry.start_cluster.0 < 2 {
            Err(ErrorKind::InvalidInput)
        } else {
            match self.chain_data(cached, entry.start_cluster) {
                None => Err(ErrorKind::InvalidData),
                Some(raw) => match found_in(raw, 0, components[from]@) {
                    None => Err(ErrorKind::NotFound),
                    Some(next) => self.resolved_from(cached, next, components, from + 1),
                },
            }
        }
    }

    /// The entry that the path with the components `components` leads to
    /// from the root directory on; see `resolved_from`.
    pub open spec fn resolved(self, cached: Sectors, components: Seq<String>) -> Result<
        EntryView,
        ErrorKind,
    > {
        self.resolved_from(cached, self.root(), components, 0)
    }

    /// The chain of clusters that begins at `start` can be read from the
    /// sectors `cached` alone; see `readable`.
    pub open spec fn chain_at_hand(self, cached: Sectors, reach: Set<u64>, start: Cluster) -> bool {
        self.readable(cached, reach, start, (self.fat_entries() + 1) as nat, usize::MAX as int)
    }

    /// Every directory that the components of `components` from number
    /// `from` on lead through, beginning in `entry`, can be read from the
    /// sectors `cached` alone.
    pub open spec fn path_at_hand(
        self,
        cached: Sectors,
        reach: Set<u64>,
        entry: EntryView,
        components: Seq<String>,
        from: int,
    ) -> bool
        decreases components.len() - from,
    {
        from < 0 || from >= components.len() || !entry.is_dir || entry.start_cluster.0 < 2 || {
            &&& self.chain_at_hand(cached, reach, entry.start_cluster)
            &&& match found_in(
                self.chain_data(cached, entry.start_cluster)->Some_0,
                0,
                components[from]@,
            ) {
                None => true,
                Some(next) => self.path_at_hand(cached, reach, next, components, from + 1),
            }
        }
    }

    /// The directory `dir` can be read from the sectors `cached` alone, and
    /// `next` is its first entry with the name `name`.
    pub open spec fn leads(
        self,
        cached: Sectors,
        reach: Set<u64>,
        dir: EntryView,
        name: Seq<char>,
        next: EntryView,
    ) -> bool {
        &&& dir.is_dir
        &&& dir.start_cluster.0 >= 2
        &&& self.chain_at_hand(cached, reach, dir.start_cluster)
        &&& self.chain_data(cached, dir.start_cluster) matches Some(raw) && found_in(raw, 0, name)
            == Some(next)
    }

    /// Entry `j` of `trail` leads to the next by component `j` of
    /// `components`.
    pub open spec fn leads_at(
        self,
        cached: Sectors,
        reach: Set<u64>,
        trail: Seq<EntryView>,
        components: Seq<String>,
        j: int,
    ) -> bool {
        self.leads(cached, reach, trail[j], components[j]@, trail[j + 1])
    }

    /// The entries `trail` are what the first components of `components`
    /// lead through, one after the other, each found in a directory that
    /// can be read from the sectors `cached` alone.
    pub open spec fn walked(
        self,
        cached: Sectors,
        reach: Set<u64>,
        trail: Seq<EntryView>,
        components: Seq<String>,
    ) -> bool {
        &&& 0 < trail.len() <= components.len() + 1
        &&& forall|j: int|
            0 <= j < trail.len() - 1 ==> #[trigger] self.leads_at(cached, reach, trail, components, j)
    }

    /// What following the chain from `cluster` gives, as the file
    /// allocation table stands in the sectors `cached`: the next cluster, or
    /// `None` at the end of the chain; `InvalidData` for a cluster that is
    /// free, reserved or bad, and `UnexpectedEof` if the sector is too short
    /// for the entry.
    pub open spec fn next_of(self, cached: Sectors, cluster: Cluster) -> Result<
        Option<Cluster>,
        ErrorKind,
    > {
        if self.fat_offset_of(cluster) + 4 <= cached[self.fat_sector_of(cluster) as u64].0.len() {
            match self.entry_of(cached, cluster).status_of() {
                Status::Data(next) => Ok(Some(next)),
                Status::Eoc(_) => Ok(None),
                _ => Err(ErrorKind::InvalidData),
            }
        } else {
            Err(ErrorKind::UnexpectedEof)
        }
    }

    /// The size of a cluster in bytes.
    pub open spec fn cluster_bytes(self) -> int {
        self.bytes_per_sector * self.sectors_per_cluster
    }

    /// The number of entries that the file allocation table has room for.
    pub open spec fn fat_entries(self) -> int {
        self.sectors_per_fat * self.bytes_per_sector / 4
    }

    /// The sector of the file allocation table that holds the entry of
    /// `cluster`.
    pub open spec fn fat_sector_of(self, cluster: Cluster) -> int {
        self.fat_start_sector + cluster.0 * 4 / self.bytes_per_sector as int
    }

    /// The offset in its sector of the entry of `cluster`.
    pub open spec fn fat_offset_of(self, cluster: Cluster) -> int {
        cluster.0 * 4 % self.bytes_per_sector as int
    }
}

/// What a chain that can be read from memory says of its first cluster,
/// and of the chain that follows it.
pub proof fn lemma_readable_step(
    layout: Layout,
    cached: Sectors,
    reach: Set<u64>,
    cluster: Cluster,
    fuel: nat,
    room: int,
)
    requires
        layout.readable(cached, reach, cluster, fuel, room),
    ensures
        fuel > 0,
        cluster.0 >= 2,
        layout.cluster_at_hand(cached, reach, cluster),
        layout.whole_cluster(cached, cluster).len() <= room,
        layout.entry_at_hand(cached, reach, cluster),
        match layout.entry_of(cached, cluster).status_of() {
            Status::Eoc(_) => true,
            Status::Data(next) => fuel > 1 && layout.readable(
                cached,
                reach,
                next,
                (fuel - 1) as nat,
                room - layout.whole_cluster(cached, cluster).len(),
            ),
            _ => false,
        },
{
    reveal_with_fuel(Layout::readable, 2);
}

/// A cluster whose chain ends with it can be read from memory if it is at
/// hand with its entry, and there is room for its bytes.
pub proof fn lemma_readable_last(
    layout: Layout,
    cached: Sectors,
    reach: Set<u64>,
    cluster: Cluster,
    fuel: nat,
    room: int,
)
    requires
        fuel > 0,
        cluster.0 >= 2,
        layout.cluster_at_hand(cached, reach, cluster),
        layout.entry_at_hand(cached, reach, cluster),
        layout.whole_cluster(cached, cluster).len() <= room,
        layout.entry_of(cached, cluster).status_of() is Eoc,
    ensures
        layout.readable(cached, reach, cluster, fuel, room),
{
    reveal_with_fuel(Layout::readable, 1);
}

/// A cluster that is at hand with its entry, before a chain that can be
/// read from memory and that its entry leads to, begins a chain that can be
/// read from memory.
pub proof fn lemma_readable_link(
    layout: Layout,
    cached: Sectors,
    reach: Set<u64>,
    cluster: Cluster,
    next: Cluster,
    fuel: nat,
    room: int,
)
    requires
        cluster.0 >= 2,
        layout.cluster_at_hand(cached, reach, cluster),
        layout.entry_at_hand(cached, reach, cluster),
        layout.entry_of(cached, cluster).status_of() == Status::Data(next),
        layout.readable(cached, reach, next, fuel, room),
    ensures
        layout.readable(
            cached,
            reach,
            cluster,
            fuel + 1,
            room + layout.whole_cluster(cached, cluster).len(),
        ),
{
    reveal_with_fuel(Layout::readable, 1);
    let size = layout.whole_cluster(cached, cluster).len();
    assert((fuel + 1 - 1) as nat == fuel);
    assert(room + size - size == room);
}

/// Clusters that are at hand and linked, before a chain that can be read
/// from memory, make a chain that can be read from memory.
pub proof fn lemma_readable_walk(
    layout: Layout,
    cached: Sectors,
    reach: Set<u64>,
    visited: Seq<Cluster>,
    then: Cluster,
    fuel: nat,
    room: int,
)
    requires
        layout.linked(cached, visited, then),
        layout.all_at_hand(cached, reach, visited),
        layout.readable(cached, reach, then, fuel, room),
    ensures
        layout.readable(
            cached,
            reach,
            if visited.len() > 0 {
                visited[0]
            } else {
                then
            },
            fuel + visited.len(),
            room + layout.gathered(cached, visited).len(),
        ),
    decreases visited.len(),
{
    if visited.len() > 0 {
        let rest = visited.drop_last();
        let last = visited.last();
        assert(last == visited[visited.len() - 1]);
        assert(layout.entry_of(cached, last).status_of() == Status::Data(then));
        lemma_readable_link(layout, cached, reach, last, then, fuel, room);
        assert(layout.gathered(cached, visited).len() == layout.gathered(cached, rest).len()
            + layout.whole_cluster(cached, last).len());
        assert forall|j: int| 0 <= j < rest.len() implies {
            &&& layout.has_sectors(cached, #[trigger] rest[j], layout.sectors_per_cluster as int)
            &&& cached.contains_key(layout.fat_sector_of(rest[j]) as u64)
            &&& layout.entry_of(cached, rest[j]).status_of() == Status::Data(
                if j + 1 < rest.len() {
                    rest[j + 1]
                } else {
                    last
                },
            )
        } by {
            assert(rest[j] == visited[j]);
        }
        assert forall|j: int| 0 <= j < rest.len() implies {
            &&& (#[trigger] rest[j]).0 >= 2
            &&& layout.cluster_at_hand(cached, reach, rest[j])
            &&& layout.entry_at_hand(cached, reach, rest[j])
        } by {
            assert(rest[j] == visited[j]);
        }
        lemma_readable_walk(
            layout,
            cached,
            reach,
            rest,
            last,
            fuel + 1,
            room + layout.whole_cluster(cached, last).len(),
        );
        if rest.len() > 0 {
            assert(rest[0] == visited[0]);
        }
    }
}

/// Clusters that were visited one after the other, up to a last one at
/// which the chain ends, make a chain that can be read from memory if all
/// are at hand with their entries, they are no more than the file
/// allocation table has room for, and their bytes can be counted.
pub proof fn lemma_chain_held(
    layout: Layout,
    cached: Sectors,
    reach: Set<u64>,
    visited: Seq<Cluster>,
    last: Cluster,
    limit: int,
)
    requires
        layout.linked(cached, visited, last),
        layout.all_at_hand(cached, reach, visited),
        last.0 >= 2,
        layout.cluster_at_hand(cached, reach, last),
        layout.entry_at_hand(cached, reach, last),
        layout.entry_of(cached, last).status_of() is Eoc,
        visited.len() <= limit,
        layout.gathered(cached, visited).len() + layout.whole_cluster(cached, last).len()
            <= usize::MAX,
    ensures
        layout.readable(
            cached,
            reach,
            if visited.len() > 0 {
                visited[0]
            } else {
                last
            },
            (limit + 1) as nat,
            usize::MAX as int,
        ),
{
    let fuel = (limit + 1 - visited.len()) as nat;
    let room = usize::MAX - layout.gathered(cached, visited).len();
    lemma_readable_last(layout, cached, reach, last, fuel, room);
    lemma_readable_walk(layout, cached, reach, visited, last, fuel, room);
    assert(fuel + visited.len() == (limit + 1) as nat);
    assert(room + layout.gathered(cached, visited).len() == usize::MAX as int);
}

/// More sectors in the cache leave a chain that can be read from memory
/// as it is, with the bytes it has.
pub proof fn lemma_readable_stable(
    layout: Layout,
    before: Sectors,
    after: Sectors,
    reach: Set<u64>,
    cluster: Cluster,
    fuel: nat,
    room: int,
    acc: Seq<u8>,
)
    requires
        extends(after, before),
        layout.readable(before, reach, cluster, fuel, room),
    ensures
        layout.readable(after, reach, cluster, fuel, room),
        layout.chain_from(after, cluster, fuel, acc) == layout.chain_from(before, cluster, fuel, acc),
    decreases fuel,
{
    lemma_readable_step(layout, before, reach, cluster, fuel, room);
    lemma_cluster_at_hand_stable(layout, before, after, reach, cluster);
    assert(layout.has_sectors(before, cluster, layout.sectors_per_cluster as int)) by {
        assert forall|i: int| 0 <= i < layout.sectors_per_cluster implies before.contains_key(
            #[trigger] layout.nth_sector(cluster, i),
        ) by {}
    }
    lemma_cluster_data_stable(layout, before, after, cluster, layout.sectors_per_cluster as nat);
    assert(before.contains_key(layout.fat_sector_of(cluster) as u64));
    assert(layout.entry_of(after, cluster) == layout.entry_of(before, cluster));
    assert(layout.entry_at_hand(after, reach, cluster));
    let size = layout.whole_cluster(before, cluster).len();
    match layout.entry_of(before, cluster).status_of() {
        Status::Data(next) => {
            lemma_readable_stable(
                layout,
                before,
                after,
                reach,
                next,
                (fuel - 1) as nat,
                room - size,
                acc + layout.whole_cluster(before, cluster),
            );
            lemma_readable_link(layout, after, reach, cluster, next, (fuel - 1) as nat, room - size);
        },
        _ => {
            lemma_readable_last(layout, after, reach, cluster, fuel, room);
        },
    }
}

/// More sectors in the cache leave entries that were found one after the
/// other found as they were.
pub proof fn lemma_walked_stable(
    layout: Layout,
    before: Sectors,
    after: Sectors,
    reach: Set<u64>,
    trail: Seq<EntryView>,
    components: Seq<String>,
)
    requires
        extends(after, before),
        layout.walked(before, reach, trail, components),
    ensures
        layout.walked(after, reach, trail, components),
{
    assert forall|j: int| 0 <= j < trail.len() - 1 implies #[trigger] layout.leads_at(
        after,
        reach,
        trail,
        components,
        j,
    ) by {
        assert(layout.leads_at(before, reach, trail, components, j));
        lemma_readable_stable(
            layout,
            before,
            after,
            reach,
            trail[j].start_cluster,
            (layout.fat_entries() + 1) as nat,
            usize::MAX as int,
            Seq::empty(),
        );
    }
}

/// One more entry that the last of a trail leads to makes a longer trail.
pub proof fn lemma_walked_push(
    layout: Layout,
    cached: Sectors,
    reach: Set<u64>,
    trail: Seq<EntryView>,
    components: Seq<String>,
    next: EntryView,
)
    requires
        layout.walked(cached, reach, trail, components),
        trail.len() <= components.len(),
        layout.leads(cached, reach, trail.last(), components[trail.len() - 1]@, next),
    ensures
        layout.walked(cached, reach, trail.push(next), components),
{
    let longer = trail.push(next);
    assert forall|j: int| 0 <= j < longer.len() - 1 implies #[trigger] layout.leads_at(
        cached,
        reach,
        longer,
        components,
        j,
    ) by {
        if j < trail.len() - 1 {
            assert(layout.leads_at(cached, reach, trail, components, j));
            assert(longer[j] == trail[j] && longer[j + 1] == trail[j + 1]);
        } else {
            assert(longer[j] == trail.last() && longer[j + 1] == next);
        }
    }
}

/// What the components lead to from entry `k` of a trail on is what they
/// lead to from its last entry on.
pub proof fn lemma_walked_resolves(
    layout: Layout,
    cached: Sectors,
    reach: Set<u64>,
    trail: Seq<EntryView>,
    components: Seq<String>,
    k: int,
)
    requires
        layout.walked(cached, reach, trail, components),
        0 <= k < trail.len(),
    ensures
        layout.resolved_from(cached, trail[k], components, k) == layout.resolved_from(
            cached,
            trail.last(),
            components,
            trail.len() - 1,
        ),
    decreases trail.len() - k,
{
    if k < trail.len() - 1 {
        assert(layout.leads_at(cached, reach, trail, components, k));
        lemma_walked_resolves(layout, cached, reach, trail, components, k + 1);
    }
}

/// Every directory that the components lead through from entry `k` of a
/// trail on can be read from memory, if those from its last entry on can.
pub proof fn lemma_walked_at_hand(
    layout: Layout,
    cached: Sectors,
    reach: Set<u64>,
    trail: Seq<EntryView>,
    components: Seq<String>,
    k: int,
)
    requires
        layout.walked(cached, reach, trail, components),
        0 <= k < trail.len(),
        layout.path_at_hand(cached, reach, trail.last(), components, trail.len() - 1),
    ensures
        layout.path_at_hand(cached, reach, trail[k], components, k),
    decreases trail.len() - k,
{
    if k < trail.len() - 1 {
        assert(layout.leads_at(cached, reach, trail, components, k));
        lemma_walked_at_hand(layout, cached, reach, trail, components, k + 1);
    }
}

/// More sectors in the cache leave a cluster at hand that was at hand.
pub proof fn lemma_cluster_at_hand_stable(
    layout: Layout,
    before: Sectors,
    after: Sectors,
    reach: Set<u64>,
    cluster: Cluster,
)
    requires
        extends(after, before),
        layout.cluster_at_hand(before, reach, cluster),
    ensures
        layout.cluster_at_hand(after, reach, cluster),
{
    assert forall|i: int| 0 <= i < layout.sectors_per_cluster implies reach.contains(
        #[trigger] layout.nth_sector(cluster, i),
    ) && after.contains_key(layout.nth_sector(cluster, i)) by {
        assert(before.contains_key(layout.nth_sector(cluster, i)));
    }
}

/// Clusters that are at hand with their entries stay so with one more
/// cluster that is.
pub proof fn lemma_at_hand_push(
    layout: Layout,
    cached: Sectors,
    reach: Set<u64>,
    visited: Seq<Cluster>,
    cluster: Cluster,
)
    requires
        layout.all_at_hand(cached, reach, visited),
        cluster.0 >= 2,
        layout.cluster_at_hand(cached, reach, cluster),
        layout.entry_at_hand(cached, reach, cluster),
    ensures
        layout.all_at_hand(cached, reach, visited.push(cluster)),
{
    let longer = visited.push(cluster);
    assert forall|j: int| 0 <= j < longer.len() implies {
        &&& (#[trigger] longer[j]).0 >= 2
        &&& layout.cluster_at_hand(cached, reach, longer[j])
        &&& layout.entry_at_hand(cached, reach, longer[j])
    } by {
        if j < visited.len() {
            assert(longer[j] == visited[j]);
        }
    }
}

/// More sectors in the cache leave clusters at hand that were at hand.
pub proof fn lemma_at_hand_stable(
    layout: Layout,
    before: Sectors,
    after: Sectors,
    reach: Set<u64>,
    visited: Seq<Cluster>,
)
    requires
        extends(after, before),
        layout.all_at_hand(before, reach, visited),
    ensures
        layout.all_at_hand(after, reach, visited),
{
    assert forall|j: int| 0 <= j < visited.len() implies {
        &&& (#[trigger] visited[j]).0 >= 2
        &&& layout.cluster_at_hand(after, reach, visited[j])
        &&& layout.entry_at_hand(after, reach, visited[j])
    } by {
        let cluster = visited[j];
        lemma_cluster_at_hand_stable(layout, before, after, reach, cluster);
        assert(before.contains_key(layout.fat_sector_of(cluster) as u64));
    }
}

/// The first sectors of a cluster hold no more bytes than more of them.
pub proof fn lemma_cluster_data_grows(
    layout: Layout,
    cached: Sectors,
    cluster: Cluster,
    fewer: nat,
    more: nat,
)
    requires
        fewer <= more,
    ensures
        layout.cluster_data(cached, cluster, fewer).len() <= layout.cluster_data(
            cached,
            cluster,
            more,
        ).len(),
    decreases more,
{
    if fewer < more {
        lemma_cluster_data_grows(layout, cached, cluster, fewer, (more - 1) as nat);
    }
}

/// More sectors in the cache leave the bytes of a cluster that was in the
/// cache as they are.
pub proof fn lemma_cluster_data_stable(
    layout: Layout,
    before: Sectors,
    after: Sectors,
    cluster: Cluster,
    sectors: nat,
)
    requires
        extends(after, before),
        layout.has_sectors(before, cluster, sectors as int),
    ensures
        layout.has_sectors(after, cluster, sectors as int),
        layout.cluster_data(after, cluster, sectors) == layout.cluster_data(before, cluster, sectors),
    decreases sectors,
{
    assert forall|i: int| 0 <= i < sectors implies after.contains_key(
        #[trigger] layout.nth_sector(cluster, i),
    ) by {
        assert(before.contains_key(layout.nth_sector(cluster, i)));
    }
    if sectors > 0 {
        lemma_cluster_data_stable(layout, before, after, cluster, (sectors - 1) as nat);
        assert(before.contains_key(layout.nth_sector(cluster, sectors - 1)));
    }
}

/// More sectors in the cache leave clusters that were in the cache linked
/// as they are, with the bytes they have.
pub proof fn lemma_linked_stable(
    layout: Layout,
    before: Sectors,
    after: Sectors,
    visited: Seq<Cluster>,
    then: Cluster,
)
    requires
        extends(after, before),
        layout.linked(before, visited, then),
    ensures
        layout.linked(after, visited, then),
        layout.gathered(after, visited) == layout.gathered(before, visited),
    decreases visited.len(),
{
    assert forall|j: int| 0 <= j < visited.len() implies {
        &&& layout.has_sectors(after, #[trigger] visited[j], layout.sectors_per_cluster as int)
        &&& after.contains_key(layout.fat_sector_of(visited[j]) as u64)
        &&& layout.entry_of(after, visited[j]).status_of() == Status::Data(
            if j + 1 < visited.len() {
                visited[j + 1]
            } else {
                then
            },
        )
    } by {
        lemma_cluster_data_stable(
            layout,
            before,
            after,
            visited[j],
            layout.sectors_per_cluster as nat,
        );
        assert(before.contains_key(layout.fat_sector_of(visited[j]) as u64));
    }
    if visited.len() > 0 {
        let rest = visited.drop_last();
        assert forall|j: int| 0 <= j < rest.len() implies {
            &&& layout.has_sectors(before, #[trigger] rest[j], layout.sectors_per_cluster as int)
            &&& before.contains_key(layout.fat_sector_of(rest[j]) as u64)
            &&& layout.entry_of(before, rest[j]).status_of() == Status::Data(
                if j + 1 < rest.len() {
                    rest[j + 1]
                } else {
                    visited.last()
                },
            )
        } by {
            assert(rest[j] == visited[j]);
        }
        lemma_linked_stable(layout, before, after, rest, visited.last());
        lemma_cluster_data_stable(
            layout,
            before,
            after,
            visited.last(),
            layout.sectors_per_cluster as nat,
        );
    }
}

/// Walking a chain from its first cluster comes, past the clusters
/// `visited`, to the cluster `then` with the bytes of the clusters that
/// were passed.
pub proof fn lemma_walk(
    layout: Layout,
    cached: Sectors,
    visited: Seq<Cluster>,
    then: Cluster,
    fuel: nat,
)
    requires
        layout.linked(cached, visited, then),
        fuel >= visited.len(),
    ensures
        layout.chain_from(
            cached,
            if visited.len() > 0 {
                visited[0]
            } else {
                then
            },
            fuel,
            Seq::empty(),
        ) == layout.chain_from(
            cached,
            then,
            (fuel - visited.len()) as nat,
            layout.gathered(cached, visited),
        ),
    decreases visited.len(),
{
    if visited.len() > 0 {
        let rest = visited.drop_last();
        let last = visited.last();
        assert forall|j: int| 0 <= j < rest.len() implies {
            &&& layout.has_sectors(cached, #[trigger] rest[j], layout.sectors_per_cluster as int)
            &&& cached.contains_key(layout.fat_sector_of(rest[j]) as u64)
            &&& layout.entry_of(cached, rest[j]).status_of() == Status::Data(
                if j + 1 < rest.len() {
                    rest[j + 1]
                } else {
                    last
                },
            )
        } by {
            assert(rest[j] == visited[j]);
        }
        lemma_walk(layout, cached, rest, last, fuel);
        assert(layout.entry_of(cached, visited[visited.len() - 1]).status_of() == Status::Data(
            then,
        ));
        if rest.len() > 0 {
            assert(rest[0] == visited[0]);
        }
    }
}

impl<D: BlockDevice> VFat<D> {
    /// The layout of the file system.
    pub closed spec fn layout(&self) -> Layout {
        Layout {
            bytes_per_sector: self.bytes_per_sector,
            sectors_per_cluster: self.sectors_per_cluster,
            sectors_per_fat: self.sectors_per_fat,
            fat_start_sector: self.fat_start_sector,
            data_start_sector: self.data_start_sector,
            rootdir_cluster: self.rootdir_cluster,
        }
    }

    /// The sectors that were read so far.
    pub closed spec fn cached(&self) -> Sectors {
        self.device.cached()
    }

    /// The partition that the file system lies on.
    pub closed spec fn partition(&self) -> Partition {
        self.device.partition()
    }

    /// The device that the file system lies on.
    pub closed spec fn device(&self) -> D {
        self.device.device()
    }

    /// The logical sectors that can be asked for: the sectors of the
    /// partition that begin at a sector of the device with a number.
    pub closed spec fn reach(&self) -> Set<u64> {
        Set::new(|sector: u64| self.device.physical_of(sector) is Some)
    }

    /// The logical sector `sector` is served from memory: it can be asked
    /// for and was read before, so the device is not asked.
    pub open spec fn serves(&self, sector: u64) -> bool {
        self.reach().contains(sector) && self.cached().contains_key(sector)
    }

    /// The chain of clusters that begins at `start` is read from memory:
    /// the device is not asked for any of its sectors, nor for the entries
    /// of its clusters in the file allocation table.
    pub open spec fn holds_chain(&self, start: Cluster) -> bool {
        self.layout().readable(
            self.cached(),
            self.reach(),
            start,
            (self.layout().fat_entries() + 1) as nat,
            usize::MAX as int,
        )
    }

    /// Sectors and clusters are not empty, a sector holds whole entries of
    /// the file allocation table, and the data lies behind the tables.
    pub closed spec fn wf(&self) -> bool {
        &&& self.device.wf()
        &&& self.bytes_per_sector >= 4
        &&& self.bytes_per_sector % 4 == 0
        &&& self.sectors_per_cluster > 0
        &&& self.fat_start_sector <= self.data_start_sector
        &&& self.data_start_sector <= 0x1_0000 + 0x100 * 0x1_0000_0000
    }

    /// The parameter block `block` describes a file system that can be
    /// read: a sector holds whole entries of the file allocation table, and
    /// a cluster has sectors.
    pub open spec fn usable(block: BiosParameterBlock) -> bool {
        block.bytes_per_sector >= 4 && block.bytes_per_sector % 4 == 0 && block.sectors_per_cluster
            > 0
    }

    /// The file system that the parameter block `block` describes, on the
    /// partition that begins at sector `start` of the device behind `cache`.
    ///
    /// The result is `Io(InvalidData)` if the parameter block gives sectors
    /// that hold no whole entry of the file allocation table, or clusters
    /// without sectors.
    pub fn mount(cache: CachedPartition<D>, block: &BiosParameterBlock) -> (r: Result<VFat<D>, Error>)
        requires
            cache.wf(),
        ensures
            match r {
                Ok(vfat) => {
                    &&& VFat::<D>::usable(*block)
                    &&& vfat.wf()
                    &&& vfat.layout() == Layout::of(*block)
                    &&& vfat.cached() == cache.cached()
                    &&& vfat.partition() == cache.partition()
                    &&& vfat.device() == cache.device()
                },
                Err(e) => !VFat::<D>::usable(*block) && e == Error::Io(ErrorKind::InvalidData),
            },
    {
        if block.bytes_per_sector < 4 || block.bytes_per_sector % 4 != 0 || block.sectors_per_cluster
            == 0 {
            return Err(Error::Io(ErrorKind::InvalidData));
        }
        assert(block.num_fats * block.sectors_per_fat <= 0x100 * 0x1_0000_0000) by (nonlinear_arith)
            requires
                block.num_fats < 0x100,
                block.sectors_per_fat < 0x1_0000_0000,
        ;
        Ok(
            VFat {
                device: cache,
                bytes_per_sector: block.bytes_per_sector,
                sectors_per_cluster: block.sectors_per_cluster,
                sectors_per_fat: block.sectors_per_fat,
                fat_start_sector: block.reserved_sectors as u64,
                data_start_sector: block.reserved_sectors as u64 + block.num_fats as u64
                    * block.sectors_per_fat as u64,
                rootdir_cluster: Cluster::from(block.root_cluster),
            },
        )
    }

    /// `r` is what opening gives once the parameter block `block` was read
    /// from the partition that begins at sector `start`, and `device` gave
    /// `size` as the size of its sectors: the file system that `block`
    /// describes, with nothing read yet, or `Io(InvalidData)` if the
    /// sectors of the partition are not made up of sectors of the device,
    /// or if `block` is not usable.
    pub open spec fn mounted(
        r: Result<VFat<D>, Error>,
        device: D,
        start: u64,
        block: BiosParameterBlock,
        size: u64,
    ) -> bool {
        let partition = Partition {
            start,
            num_sectors: (if block.logical_sectors_1 > 0 {
                block.logical_sectors_1 as u64
            } else {
                block.logical_sectors_2 as u64
            }),
            sector_size: block.bytes_per_sector as u64,
        };
        if CachedPartition::<D>::accepts(size, partition) && Self::usable(block) {
            &&& r matches Ok(vfat)
            &&& vfat.wf()
            &&& vfat.layout() == Layout::of(block)
            &&& vfat.partition() == partition
            &&& vfat.device() == device
            &&& vfat.cached() == Sectors::empty()
        } else {
            r matches Err(e) && e == Error::Io(ErrorKind::InvalidData)
        }
    }

    /// `r` is what opening gives once the read of the parameter block at
    /// sector `start` came to `block`: its error, or what `mounted` says
    /// for a size that `device` gives for its sectors.
    pub open spec fn entered(
        r: Result<VFat<D>, Error>,
        device: D,
        start: u64,
        block: Result<BiosParameterBlock, Error>,
    ) -> bool {
        match block {
            Err(e) => r matches Err(err) && err == e,
            Ok(block) => exists|size: u64| #[trigger]
                device.sized(size) && Self::mounted(r, device, start, block, size),
        }
    }

    /// `r` is what opening gives once the read of the master boot record
    /// came to `record`, with `device` left by that read: `Mbr(e)` for its
    /// error `e`, `NotFound` if it lists no FAT32 partition, and otherwise
    /// what `entered` says for one read of the first sector of its first
    /// FAT32 partition.
    pub open spec fn found(
        r: Result<VFat<D>, Error>,
        device: D,
        record: Result<MasterBootRecordView, crate::fat32::mbr::Error>,
    ) -> bool {
        match record {
            Err(e) => r matches Err(err) && err == Error::Mbr(e),
            Ok(view) => match view.first_fat32() {
                None => r matches Err(err) && err == Error::NotFound,
                Some(entry) => exists|second: Result<Seq<u8>, ErrorKind>, then: D| #[trigger]
                    device.reads(entry.sector_offset as u64, then, second) && Self::entered(
                        r,
                        then,
                        entry.sector_offset as u64,
                        crate::fat32::ebpb::received(second),
                    ),
            },
        }
    }

    /// Opens the file system on the first FAT32 partition of `device`: reads
    /// the master boot record from the first sector, then the parameter
    /// block from the first sector of that partition, and asks the device
    /// for the size of its sectors.
    ///
    /// The result is `Mbr(e)` if the master boot record cannot be read,
    /// `NotFound` if it lists no FAT32 partition, the error of the
    /// parameter block if that cannot be read, and `Io(InvalidData)` if the
    /// sectors that the parameter block gives are not made up of sectors of
    /// the device, or if `mount` refuses the parameter block.
    pub fn from(device: D) -> (r: Result<VFat<D>, Error>)
        ensures
            exists|first: Result<Seq<u8>, ErrorKind>, then: D| #[trigger]
                device.reads(0, then, first) && Self::found(
                    r,
                    then,
                    crate::fat32::mbr::received(first),
                ),
            r matches Ok(vfat) ==> {
                &&& vfat.wf()
                &&& vfat.cached() == Sectors::empty()
                &&& vfat.partition().sector_size == vfat.layout().bytes_per_sector
            },
    {
        let ghost begun = device;
        let mut device = device;
        let record = MasterBootRecord::from(&mut device);
        let ghost after_record = device;
        let ghost first = choose|outcome: Result<Seq<u8>, ErrorKind>| #[trigger]
            begun.reads(0, after_record, outcome) && crate::fat32::mbr::agrees(
                record,
                crate::fat32::mbr::received(outcome),
            );
        proof {
            assert(begun.reads(0, after_record, first));
            assert(crate::fat32::mbr::agrees(record, crate::fat32::mbr::received(first)));
        }
        let mbr = match record {
            Err(e) => {
                return Err(Error::from(e));
            },
            Ok(mbr) => mbr,
        };
        let start = match mbr.fat32_partition() {
            None => {
                return Err(Error::NotFound);
            },
            Some(part) => part.starting_sector() as u64,
        };
        let read = BiosParameterBlock::from(&mut device, start);
        let ghost after_block = device;
        let ghost second = choose|outcome: Result<Seq<u8>, ErrorKind>| #[trigger]
            after_record.reads(start, after_block, outcome) && read
                == crate::fat32::ebpb::received(outcome);
        proof {
            assert(after_record.reads(start, after_block, second));
            assert(read == crate::fat32::ebpb::received(second));
            assert(crate::fat32::mbr::received(first)->Ok_0.first_fat32()->Some_0.sector_offset
                == start);
        }
        let block = match read {
            Err(e) => {
                proof {
                    let r = Err::<VFat<D>, Error>(e);
                    assert(Self::entered(r, after_block, start, read));
                    assert(after_record.reads(start, after_block, second));
                    assert(Self::found(r, after_record, crate::fat32::mbr::received(first)));
                }
                return Err(e);
            },
            Ok(block) => block,
        };
        let partition = Partition {
            start,
            num_sectors: block.logical_sectors() as u64,
            sector_size: block.bytes_per_sector as u64,
        };
        let cache = match CachedPartition::new(device, partition) {
            None => {
                proof {
                    let size = choose|size: u64| #[trigger]
                        after_block.sized(size) && !CachedPartition::<D>::accepts(size, partition);
                    let r = Err::<VFat<D>, Error>(Error::Io(ErrorKind::InvalidData));
                    assert(Self::mounted(r, after_block, start, block, size));
                    assert(Self::entered(r, after_block, start, read));
                    assert(after_record.reads(start, after_block, second));
                    assert(Self::found(r, after_record, crate::fat32::mbr::received(first)));
                }
                return Err(Error::Io(ErrorKind::InvalidData));
            },
            Some(cache) => cache,
        };
        let ghost size = cache.device_sector();
        let r = VFat::mount(cache, &block);
        proof {
            assert(after_block.sized(size));
            assert(Self::mounted(r, after_block, start, block, size));
            assert(Self::entered(r, after_block, start, read));
            assert(after_record.reads(start, after_block, second));
            assert(Self::found(r, after_record, crate::fat32::mbr::received(first)));
        }
        r
    }

    /// The result `r` is the entry with the contents `expected`, or the
    /// same error.
    pub open spec fn agrees(r: Result<Entry, ErrorKind>, expected: Result<EntryView, ErrorKind>) -> bool {
        match expected {
            Ok(view) => r matches Ok(entry) && entry@ == view,
            Err(kind) => r matches Err(e) && e == kind,
        }
    }

    /// The entry that the path with the components `components` leads to,
    /// from the root directory on. The path without components leads to
    /// the root directory itself.
    ///
    /// The result is `InvalidInput` if a component is to be looked up in a
    /// file, or in a directory that begins in a cluster below 2,
    /// `NotFound` if a directory has no entry with the name of a component,
    /// and the error of reading a directory if that fails. Directories that
    /// are held in memory are searched as they stand there: where all on
    /// the path are, the device is not asked, and `resolved` says what the
    /// path leads to.
    pub fn open(&mut self, components: &Vec<String>) -> (r: Result<Entry, ErrorKind>)
        requires
            old(self).wf(),
        ensures
            final(self).wf(),
            final(self).layout() == old(self).layout(),
            final(self).reach() == old(self).reach(),
            extends(final(self).cached(), old(self).cached()),
            old(self).layout().path_at_hand(
                old(self).cached(),
                old(self).reach(),
                old(self).layout().root(),
                components@,
                0,
            ) ==> {
                &&& final(self).cached() == old(self).cached()
                &&& final(self).device() == old(self).device()
                &&& Self::agrees(r, old(self).layout().resolved(old(self).cached(), components@))
            },
            r is Ok ==> Self::agrees(
                r,
                final(self).layout().resolved(final(self).cached(), components@),
            ),
            r is Ok ==> final(self).layout().path_at_hand(
                final(self).cached(),
                final(self).reach(),
                final(self).layout().root(),
                components@,
                0,
            ),
            components@.len() == 0 ==> (r matches Ok(entry) && entry@ == old(self).layout().root()),
            components@.len() > 0 ==> (r matches Ok(entry) ==> folded(entry@.name) == folded(
                components@.last()@,
            )),
    {
        let mut entry = Entry::Dir_(Dir::rootdir(self.rootdir_cluster));
        let n = components.len();
        let mut i: usize = 0;
        let ghost layout = self.layout();
        let ghost reach = self.reach();
        let ghost begun = self.cached();
        let ghost at_hand = layout.path_at_hand(begun, reach, layout.root(), components@, 0);
        let ghost mut trail: Seq<EntryView> = seq![layout.root()];
        while i < n
            invariant
                i <= n,
                n == components@.len(),
                self.wf(),
                self.layout() == layout,
                self.reach() == reach,
                layout == old(self).layout(),
                reach == old(self).reach(),
                begun == old(self).cached(),
                at_hand == layout.path_at_hand(begun, reach, layout.root(), components@, 0),
                extends(self.cached(), begun),
                i == 0 ==> entry@ == layout.root(),
                i > 0 ==> folded(entry@.name) == folded(components@[i - 1]@),
                trail.len() == i + 1,
                trail[0] == layout.root(),
                trail.last() == entry@,
                layout.walked(self.cached(), reach, trail, components@),
                at_hand ==> {
                    &&& self.cached() == begun
                    &&& self.device() == old(self).device()
                    &&& layout.path_at_hand(begun, reach, entry@, components@, i as int)
                    &&& layout.resolved_from(begun, entry@, components@, i as int)
                        == layout.resolved(begun, components@)
                },
            decreases n - i,
        {
            let ghost here = entry@;
            let ghost before = self.cached();
            let dir = match entry.into_dir() {
                None => {
                    return Err(ErrorKind::InvalidInput);
                },
                Some(dir) => dir,
            };
            entry = match dir.find(self, components[i].as_str()) {
                Err(kind) => {
                    return Err(kind);
                },
                Ok(entry) => entry,
            };
            proof {
                lemma_walked_stable(layout, before, self.cached(), reach, trail, components@);
                assert(layout.leads(self.cached(), reach, here, components@[i as int]@, entry@));
                lemma_walked_push(layout, self.cached(), reach, trail, components@, entry@);
                trail = trail.push(entry@);
            }
            i = i + 1;
        }
        proof {
            lemma_walked_resolves(layout, self.cached(), reach, trail, components@, 0);
            lemma_walked_at_hand(layout, self.cached(), reach, trail, components@, 0);
        }
        Ok(entry)
    }

    /// The cluster at which the root directory begins.
    pub fn rootdir_cluster(&self) -> (r: Cluster)
        ensures
            r == self.layout().rootdir_cluster,
    {
        self.rootdir_cluster
    }

    /// The first sector of `cluster`, or `InvalidInput` for a cluster
    /// below 2.
    fn start_sector(&self, cluster: Cluster) -> (r: Result<u64, ErrorKind>)
        requires
            self.wf(),
        ensures
            r == self.layout().start_sector_of(cluster),
            r matches Ok(sector) ==> sector <= 0x1_0000 + 0x100 * 0x1_0000_0000 + 0x1_0000_0000
                * 0x100,
            r matches Ok(sector) ==> sector == self.layout().data_start_sector + (cluster.0 - 2)
                * self.layout().sectors_per_cluster,
    {
        if cluster.num() < 2 {
            Err(ErrorKind::InvalidInput)
        } else {
            assert((cluster.0 - 2) * self.sectors_per_cluster <= 0x1_0000_0000 * 0x100)
                by (nonlinear_arith)
                requires
                    2 <= cluster.0 < 0x1_0000_0000,
                    self.sectors_per_cluster < 0x100,
            ;
            Ok(self.data_start_sector + (cluster.num() - 2) as u64 * self.sectors_per_cluster as u64)
        }
    }

    /// The size of a cluster in bytes.
    pub fn cluster_size(&self) -> (r: u64)
        requires
            self.wf(),
        ensures
            r == self.layout().cluster_bytes(),
            0 < r <= 0x100_0000,
    {
        assert(0 < self.bytes_per_sector * self.sectors_per_cluster <= 0x1_0000 * 0x100)
            by (nonlinear_arith)
            requires
                4 <= self.bytes_per_sector < 0x1_0000,
                0 < self.sectors_per_cluster < 0x100,
        ;
        self.bytes_per_sector as u64 * self.sectors_per_cluster as u64
    }

    /// Reads from `cluster`, beginning at the byte `offset` of the cluster,
    /// and appends what was read to `buf`: `len` bytes, or as many as the
    /// cluster has from `offset` on if those are fewer. Returns the number
    /// of bytes that were appended.
    ///
    /// The result is `InvalidInput` for a cluster below 2, `UnexpectedEof`
    /// if a sector has another size than the parameter block says, and the
    /// error of the device if reading fails. Sectors that are served from
    /// memory are taken as they stand there: where all that the read needs
    /// are, the device is not asked and the read succeeds unless one of
    /// them has another size.
    #[verifier::loop_isolation(false)]
    pub fn read_cluster(&mut self, cluster: Cluster, offset: usize, len: usize, buf: &mut Vec<u8>) -> (r:
        Result<usize, ErrorKind>)
        requires
            old(self).wf(),
        ensures
            final(self).wf(),
            final(self).layout() == old(self).layout(),
            final(self).reach() == old(self).reach(),
            cluster.0 < 2 ==> r == Err::<usize, ErrorKind>(ErrorKind::InvalidInput)
                && final(self).cached() == old(self).cached() && final(self).device() == old(
                self,
            ).device() && final(buf)@ == old(buf)@,
            extends(final(self).cached(), old(self).cached()),
            cluster.0 >= 2 && old(self).layout().span_at_hand(
                old(self).cached(),
                old(self).reach(),
                cluster,
                offset as int,
                old(self).layout().span(offset as int, len as int),
            ) ==> {
                &&& final(self).cached() == old(self).cached()
                &&& final(self).device() == old(self).device()
                &&& r == (if old(self).layout().span_whole(
                    old(self).cached(),
                    cluster,
                    offset as int,
                    old(self).layout().span(offset as int, len as int),
                ) {
                    Ok::<usize, ErrorKind>(old(self).layout().span(offset as int, len as int) as usize)
                } else {
                    Err(ErrorKind::UnexpectedEof)
                })
            },
            match r {
                Ok(count) => {
                    &&& count == old(self).layout().span(offset as int, len as int)
                    &&& final(buf)@.len() == old(buf)@.len() + count
                    &&& final(buf)@.subrange(0, old(buf)@.len() as int) == old(buf)@
                    &&& forall|k: int|
                        0 <= k < count ==> #[trigger] final(self).layout().copied(
                            final(self).cached(),
                            cluster,
                            offset + k,
                            final(buf)@,
                            old(buf)@.len() + k,
                        )
                },
                Err(_) => final(buf)@.len() >= old(buf)@.len() && final(buf)@.subrange(
                    0,
                    old(buf)@.len() as int,
                ) == old(buf)@,
            },
    {
        let start_sector = match self.start_sector(cluster) {
            Err(kind) => {
                return Err(kind);
            },
            Ok(sector) => sector,
        };
        let sec_size = self.bytes_per_sector as usize;
        let sectors = self.sectors_per_cluster as usize;
        let ghost cluster_bytes = self.layout().cluster_bytes();
        let ghost span = self.layout().span(offset as int, len as int);
        let ghost at_hand = self.layout().span_at_hand(
            self.cached(),
            self.reach(),
            cluster,
            offset as int,
            span,
        );
        let mut n: usize = 0;
        let mut i: usize = 0;
        while i < sectors && n < len
            invariant
                i <= sectors,
                n <= len,
                self.wf(),
                self.layout() == old(self).layout(),
                self.reach() == old(self).reach(),
                at_hand ==> self.cached() == old(self).cached() && self.device() == old(self).device(),
                sec_size == self.layout().bytes_per_sector,
                sectors == self.layout().sectors_per_cluster,
                cluster_bytes == sec_size * sectors,
                sec_size >= 4,
                start_sector <= 0x1_0000 + 0x100 * 0x1_0000_0000 + 0x1_0000_0000 * 0x100,
                buf@.len() == old(buf)@.len() + n,
                buf@.subrange(0, old(buf)@.len() as int) == old(buf)@,
                n == (if offset >= i * sec_size {
                    0
                } else if len <= i * sec_size - offset {
                    len as int
                } else {
                    i * sec_size - offset
                }),
                cluster.0 >= 2,
                start_sector == self.layout().data_start_sector + (cluster.0 - 2)
                    * self.layout().sectors_per_cluster,
                extends(self.cached(), old(self).cached()),
                forall|k: int|
                    0 <= k < n ==> #[trigger] self.layout().copied(
                        self.cached(),
                        cluster,
                        offset + k,
                        buf@,
                        old(buf)@.len() + k,
                    ),
            decreases sectors - i,
        {
            assert((i + 1) * sec_size <= 0x100 * 0x1_0000 && i * sec_size + sec_size == (i + 1)
                * sec_size) by (nonlinear_arith)
                requires
                    i < sectors,
                    sectors < 0x100,
                    sec_size < 0x1_0000,
            ;
            let sector_end = (i + 1) * sec_size;
            if offset >= sector_end {
                i = i + 1;
                continue;
            }
            let ghost cached_before = self.cached();
            let ghost buf_before = buf@;
            let ghost first = offset + n;
            proof {
                assert(i * sec_size <= first < (i + 1) * sec_size);
                assert(i * sec_size + sec_size == (i + 1) * sec_size) by (nonlinear_arith);
                vstd::arithmetic::div_mod::lemma_fundamental_div_mod_converse(
                    first,
                    sec_size as int,
                    i as int,
                    first - i * sec_size,
                );
                assert(self.layout().sector_of(cluster, first) == start_sector + i);
                assert((i + 1) * sec_size <= sectors * sec_size) by (nonlinear_arith)
                    requires
                        i < sectors,
                        sec_size >= 0,
                ;
                assert(sectors * sec_size == sec_size * sectors) by (nonlinear_arith);
                assert(n < span);
                if at_hand {
                    assert(self.device.serves((start_sector + i) as u64));
                }
            }
            let bytes = match self.device.get(start_sector + i as u64) {
                Err(kind) => {
                    return Err(kind);
                },
                Ok(bytes) => bytes,
            };
            let whole = bytes.len() == sec_size;
            if !whole {
                proof {
                    assert(!self.layout().holds(self.cached(), cluster, first));
                    assert(self.reach() =~= old(self).reach());
                }
                return Err(ErrorKind::UnexpectedEof);
            }
            let ghost data = bytes@;
            let start = if offset > i * sec_size {
                offset - i * sec_size
            } else {
                0
            };
            let room = sec_size - start;
            let count = if room < len - n {
                room
            } else {
                len - n
            };
            let ghost before = buf@;
            let mut k: usize = 0;
            while k < count
                invariant
                    k <= count,
                    start + count <= bytes@.len(),
                    buf@.len() == before.len() + k,
                    buf@.subrange(0, before.len() as int) == before,
                    data == bytes@,
                    forall|j: int| 0 <= j < k ==> #[trigger] buf@[before.len() + j] == data[start + j],
                decreases count - k,
            {
                buf.push(bytes[start + k]);
                k = k + 1;
                assert(buf@.subrange(0, before.len() as int) =~= before);
            }
            assert(buf@.subrange(0, old(buf)@.len() as int) =~= old(buf)@);
            let ghost layout = self.layout();
            let ghost cached = self.cached();
            proof {
                assert(data == cached[(start_sector + i) as u64].0);
                assert(offset + n == i * sec_size + start);
                assert forall|j: int| 0 <= j < n + count implies #[trigger] layout.copied(
                    cached,
                    cluster,
                    offset + j,
                    buf@,
                    old(buf)@.len() + j,
                ) by {
                    if j < n {
                        assert(buf@[old(buf)@.len() + j] == before[old(buf)@.len() + j]) by {
                            assert(buf@.subrange(0, before.len() as int)[old(buf)@.len() + j]
                                == buf@[old(buf)@.len() + j]);
                        }
                        assert(before == buf_before);
                        assert(layout.copied(
                            cached_before,
                            cluster,
                            offset + j,
                            buf_before,
                            old(buf)@.len() + j,
                        ));
                        assert(cached_before.contains_key(layout.sector_of(cluster, offset + j)));
                    } else {
                        let pos = offset + j;
                        let within = start + (j - n);
                        assert(pos == i * sec_size + within);
                        vstd::arithmetic::div_mod::lemma_fundamental_div_mod_converse(
                            pos,
                            sec_size as int,
                            i as int,
                            within,
                        );
                        assert(layout.sector_of(cluster, pos) == start_sector + i);
                        assert(buf@[before.len() + (j - n)] == data[start + (j - n)]);
                    }
                }
            }
            n = n + count;
            i = i + 1;
        }
        proof {
            assert(i * sec_size <= sectors * sec_size && sectors * sec_size == sec_size * sectors)
                by (nonlinear_arith)
                requires
                    i <= sectors,
                    sec_size >= 0,
            ;
            assert(i == sectors ==> i * sec_size == cluster_bytes);
            assert(n == span);
            assert forall|k: int| 0 <= k < span implies #[trigger] self.layout().holds(
                self.cached(),
                cluster,
                offset + k,
            ) by {
                assert(self.layout().copied(
                    self.cached(),
                    cluster,
                    offset + k,
                    buf@,
                    old(buf)@.len() + k,
                ));
            }
        }
        Ok(n)
    }

    /// Appends all of `cluster` to `buf`. Returns the number of bytes that
    /// were appended.
    #[verifier::loop_isolation(false)]
    fn read_cluster_all(&mut self, cluster: Cluster, buf: &mut Vec<u8>) -> (r: Result<
        usize,
        ErrorKind,
    >)
        requires
            old(self).wf(),
        ensures
            final(self).wf(),
            final(self).layout() == old(self).layout(),
            final(self).reach() == old(self).reach(),
            cluster.0 < 2 ==> r == Err::<usize, ErrorKind>(ErrorKind::InvalidInput),
            extends(final(self).cached(), old(self).cached()),
            cluster.0 >= 2 && old(self).layout().cluster_at_hand(
                old(self).cached(),
                old(self).reach(),
                cluster,
            ) && old(self).layout().whole_cluster(old(self).cached(), cluster).len() <= usize::MAX
                ==> r is Ok && final(self).cached() == old(self).cached() && final(self).device()
                == old(self).device(),
            r matches Ok(count) ==> {
                &&& final(buf)@.len() == old(buf)@.len() + count
                &&& cluster.0 >= 2
                &&& final(self).layout().has_sectors(
                    final(self).cached(),
                    cluster,
                    final(self).layout().sectors_per_cluster as int,
                )
                &&& final(buf)@ == old(buf)@ + final(self).layout().whole_cluster(
                    final(self).cached(),
                    cluster,
                )
                &&& final(self).layout().cluster_at_hand(
                    final(self).cached(),
                    final(self).reach(),
                    cluster,
                )
            },
            final(buf)@.len() >= old(buf)@.len(),
            final(buf)@.subrange(0, old(buf)@.len() as int) == old(buf)@,
    {
        let start_sector = match self.start_sector(cluster) {
            Err(kind) => {
                return Err(kind);
            },
            Ok(sector) => sector,
        };
        let sectors = self.sectors_per_cluster as usize;
        let ghost at_hand = old(self).layout().cluster_at_hand(
            old(self).cached(),
            old(self).reach(),
            cluster,
        ) && old(self).layout().whole_cluster(old(self).cached(), cluster).len() <= usize::MAX;
        let mut n: usize = 0;
        let mut i: usize = 0;
        while i < sectors
            invariant
                i <= sectors,
                sectors < 0x100,
                self.wf(),
                self.layout() == old(self).layout(),
                self.reach() == old(self).reach(),
                start_sector <= 0x1_0000 + 0x100 * 0x1_0000_0000 + 0x1_0000_0000 * 0x100,
                buf@.len() == old(buf)@.len() + n,
                buf@.subrange(0, old(buf)@.len() as int) == old(buf)@,
                extends(self.cached(), old(self).cached()),
                self.layout().has_sectors(self.cached(), cluster, i as int),
                buf@ == old(buf)@ + self.layout().cluster_data(self.cached(), cluster, i as nat),
                at_hand ==> self.cached() == old(self).cached() && self.device() == old(self).device(),
                forall|k: int|
                    0 <= k < i ==> self.reach().contains(#[trigger] self.layout().nth_sector(cluster, k)),
            decreases sectors - i,
        {
            let ghost before = buf@;
            let ghost cached_before = self.cached();
            proof {
                let layout = self.layout();
                assert(layout.nth_sector(cluster, i as int) == start_sector + i);
                if at_hand {
                    assert(self.device.serves((start_sector + i) as u64));
                    lemma_cluster_data_grows(
                        layout,
                        cached_before,
                        cluster,
                        (i + 1) as nat,
                        sectors as nat,
                    );
                }
            }
            match self.device.read_sector(start_sector + i as u64, buf) {
                Err(kind) => {
                    return Err(kind);
                },
                Ok(count) => {
                    assert(buf@.subrange(0, old(buf)@.len() as int) =~= old(buf)@);
                    proof {
                        let layout = self.layout();
                        lemma_cluster_data_stable(
                            layout,
                            cached_before,
                            self.cached(),
                            cluster,
                            i as nat,
                        );
                        assert(buf@ =~= old(buf)@ + layout.cluster_data(
                            self.cached(),
                            cluster,
                            (i + 1) as nat,
                        ));
                        assert(self.reach() =~= old(self).reach());
                    }
                    if count > usize::MAX - n {
                        return Err(ErrorKind::InvalidData);
                    }
                    n = n + count;
                },
            }
            i = i + 1;
        }
        Ok(n)
    }

    /// Appends the clusters of the chain that begins at `start` to `buf`,
    /// one after the other. Returns the number of bytes that were appended.
    ///
    /// The result is `InvalidData` if the chain runs into a cluster that is
    /// free, reserved or bad, or is longer than the file allocation table
    /// has entries.
    #[verifier::loop_isolation(false)]
    #[verifier::rlimit(100)]
    pub fn read_chain(&mut self, start: Cluster, buf: &mut Vec<u8>) -> (r: Result<usize, ErrorKind>)
        requires
            old(self).wf(),
        ensures
            final(self).wf(),
            final(self).layout() == old(self).layout(),
            final(self).reach() == old(self).reach(),
            start.0 < 2 ==> r == Err::<usize, ErrorKind>(ErrorKind::InvalidInput),
            extends(final(self).cached(), old(self).cached()),
            old(self).holds_chain(start) ==> r is Ok && final(self).cached() == old(self).cached()
                && final(self).device() == old(self).device(),
            r is Ok ==> final(self).holds_chain(start),
            r matches Ok(count) ==> {
                &&& final(buf)@.len() == old(buf)@.len() + count
                &&& final(self).layout().chain_data(final(self).cached(), start) == Some(
                    final(buf)@.subrange(old(buf)@.len() as int, final(buf)@.len() as int),
                )
            },
            final(buf)@.len() >= old(buf)@.len(),
            final(buf)@.subrange(0, old(buf)@.len() as int) == old(buf)@,
    {
        let limit = self.fat_capacity();
        let ghost at_hand = old(self).holds_chain(start);
        let mut n: usize = 0;
        let mut cluster = start;
        let mut steps: u64 = 0;
        let ghost mut visited: Seq<Cluster> = Seq::empty();
        proof {
            assert(buf@ =~= old(buf)@ + self.layout().gathered(self.cached(), visited));
        }
        loop
            invariant
                steps <= limit,
                limit == self.layout().fat_entries(),
                self.wf(),
                self.layout() == old(self).layout(),
                buf@.len() >= old(buf)@.len(),
                buf@.len() == old(buf)@.len() + n,
                buf@.subrange(0, old(buf)@.len() as int) == old(buf)@,
                steps == 0 ==> cluster == start,
                steps > 0 ==> start.0 >= 2,
                extends(self.cached(), old(self).cached()),
                visited.len() == steps,
                steps > 0 ==> visited[0] == start,
                self.layout().linked(self.cached(), visited, cluster),
                buf@ == old(buf)@ + self.layout().gathered(self.cached(), visited),
                self.reach() == old(self).reach(),
                self.layout().all_at_hand(self.cached(), self.reach(), visited),
                at_hand ==> self.device() == old(self).device(),
                at_hand ==> self.cached() == old(self).cached() && self.layout().readable(
                    self.cached(),
                    self.reach(),
                    cluster,
                    (limit + 1 - steps) as nat,
                    usize::MAX - n,
                ),
            decreases limit - steps,
        {
            let ghost layout = self.layout();
            let ghost c0 = self.cached();
            let ghost size = layout.whole_cluster(c0, cluster).len();
            let ghost read_before = n;
            proof {
                if at_hand {
                    lemma_readable_step(
                        layout,
                        c0,
                        self.reach(),
                        cluster,
                        (limit + 1 - steps) as nat,
                        usize::MAX - n,
                    );
                }
            }
            match self.read_cluster_all(cluster, buf) {
                Err(kind) => {
                    return Err(kind);
                },
                Ok(count) => {
                    assert(buf@.subrange(0, old(buf)@.len() as int) =~= old(buf)@);
                    assert(at_hand ==> count == size);
                    if count > usize::MAX - n {
                        return Err(ErrorKind::InvalidData);
                    }
                    n = n + count;
                },
            }
            let ghost c1 = self.cached();
            assert(at_hand ==> c1 == c0 && self.serves(layout.fat_sector_of(cluster) as u64)
                && layout.entry_at_hand(c1, self.reach(), cluster) && n == read_before + size);
            match self.next_cluster(cluster) {
                Err(kind) => {
                    return Err(kind);
                },
                Ok(Some(next)) => {
                    proof {
                        let c2 = self.cached();
                        lemma_linked_stable(layout, c0, c1, visited, cluster);
                        lemma_linked_stable(layout, c1, c2, visited, cluster);
                        lemma_cluster_data_stable(
                            layout,
                            c1,
                            c2,
                            cluster,
                            layout.sectors_per_cluster as nat,
                        );
                        lemma_at_hand_stable(layout, c0, c2, self.reach(), visited);
                        lemma_cluster_at_hand_stable(layout, c1, c2, self.reach(), cluster);
                        lemma_at_hand_push(layout, c2, self.reach(), visited, cluster);
                        let longer = visited.push(cluster);
                        assert(longer.drop_last() =~= visited);
                        assert forall|j: int| 0 <= j < longer.len() implies {
                            &&& layout.has_sectors(
                                c2,
                                #[trigger] longer[j],
                                layout.sectors_per_cluster as int,
                            )
                            &&& c2.contains_key(layout.fat_sector_of(longer[j]) as u64)
                            &&& layout.entry_of(c2, longer[j]).status_of() == Status::Data(
                                if j + 1 < longer.len() {
                                    longer[j + 1]
                                } else {
                                    next
                                },
                            )
                        } by {
                            if j < visited.len() {
                                assert(longer[j] == visited[j]);
                            }
                        }
                        visited = longer;
                    }
                    cluster = next;
                },
                Ok(None) => {
                    proof {
                        let c2 = self.cached();
                        lemma_linked_stable(layout, c0, c1, visited, cluster);
                        lemma_linked_stable(layout, c1, c2, visited, cluster);
                        lemma_cluster_data_stable(
                            layout,
                            c1,
                            c2,
                            cluster,
                            layout.sectors_per_cluster as nat,
                        );
                        lemma_walk(layout, c2, visited, cluster, (limit + 1) as nat);
                        assert(buf@.subrange(old(buf)@.len() as int, buf@.len() as int)
                            =~= layout.gathered(c2, visited) + layout.whole_cluster(c2, cluster));
                        let reach = self.reach();
                        lemma_at_hand_stable(layout, c0, c2, reach, visited);
                        lemma_cluster_at_hand_stable(layout, c1, c2, reach, cluster);
                        assert(layout.gathered(c2, visited).len() + layout.whole_cluster(
                            c2,
                            cluster,
                        ).len() == n);
                        assert(layout.entry_of(c2, cluster).status_of() is Eoc);
                        assert(layout.entry_at_hand(c2, reach, cluster));
                        assert(cluster.0 >= 2);
                        lemma_chain_held(layout, c2, reach, visited, cluster, limit as int);
                    }
                    return Ok(n);
                },
            }
            if steps >= limit {
                return Err(ErrorKind::InvalidData);
            }
            steps = steps + 1;
        }
    }

    /// The number of entries that the file allocation table has room for.
    fn fat_capacity(&self) -> (r: u64)
        requires
            self.wf(),
        ensures
            r == self.layout().fat_entries(),
    {
        assert(self.sectors_per_fat * self.bytes_per_sector <= 0x1_0000_0000 * 0x1_0000)
            by (nonlinear_arith)
            requires
                self.sectors_per_fat < 0x1_0000_0000,
                self.bytes_per_sector < 0x1_0000,
        ;
        self.sectors_per_fat as u64 * self.bytes_per_sector as u64 / 4
    }

    /// What `next_cluster` gives for a cluster with the entry `entry`.
    pub open spec fn link(entry: FatEntry) -> Result<Option<Cluster>, ErrorKind> {
        match entry.status_of() {
            Status::Data(next) => Ok(Some(next)),
            Status::Eoc(_) => Ok(None),
            _ => Err(ErrorKind::InvalidData),
        }
    }

    /// The cluster that follows `current` in its chain, or `None` if
    /// `current` is the last.
    ///
    /// The result is `InvalidData` if the entry of `current` says that the
    /// cluster is free, reserved or bad, `InvalidInput` if the sector of
    /// the entry cannot be asked for, and `UnexpectedEof` if that sector is
    /// too short for the entry. A sector that is served from memory is
    /// taken as it stands there; any other is read from the device first,
    /// and the result is the error of the device if that fails.
    pub fn next_cluster(&mut self, current: Cluster) -> (r: Result<Option<Cluster>, ErrorKind>)
        requires
            old(self).wf(),
        ensures
            final(self).wf(),
            final(self).layout() == old(self).layout(),
            final(self).reach() == old(self).reach(),
            extends(final(self).cached(), old(self).cached()),
            !old(self).reach().contains(old(self).layout().fat_sector_of(current) as u64) ==> r
                == Err::<Option<Cluster>, ErrorKind>(ErrorKind::InvalidInput),
            old(self).serves(old(self).layout().fat_sector_of(current) as u64) ==> {
                &&& final(self).cached() == old(self).cached()
                &&& final(self).device() == old(self).device()
                &&& r == (if old(self).layout().entry_at_hand(
                    old(self).cached(),
                    old(self).reach(),
                    current,
                ) {
                    Self::link(old(self).layout().entry_of(old(self).cached(), current))
                } else {
                    Err(ErrorKind::UnexpectedEof)
                })
            },
            old(self).serves(old(self).layout().fat_sector_of(current) as u64) ==> r == old(
                self,
            ).layout().next_of(old(self).cached(), current),
            r is Ok ==> r == final(self).layout().next_of(final(self).cached(), current),
            r matches Ok(Some(next)) ==> next.0 >= 2,
            r matches Ok(link) ==> final(self).layout().entry_at_hand(
                final(self).cached(),
                final(self).reach(),
                current,
            ) && r == Self::link(final(self).layout().entry_of(final(self).cached(), current)),
    {
        match self.fat_entry(current) {
            Err(kind) => Err(kind),
            Ok(entry) => VFat::<D>::link_of(entry),
        }
    }

    /// What the entry `entry` of a cluster says of the chain: the next
    /// cluster, the end of the chain, or `InvalidData` for a cluster that is
    /// free, reserved or bad.
    pub fn link_of(entry: FatEntry) -> (r: Result<Option<Cluster>, ErrorKind>)
        ensures
            r == Self::link(entry),
    {
        match entry.status() {
            Status::Data(next) => Ok(Some(next)),
            Status::Eoc(_) => Ok(None),
            _ => Err(ErrorKind::InvalidData),
        }
    }

    /// The entry of `cluster` in the file allocation table.
    ///
    /// The result is `InvalidInput` if the sector that should hold the
    /// entry cannot be asked for, and `UnexpectedEof` if that sector is too
    /// short for the entry. A sector that is served from memory is taken as
    /// it stands there; any other is read from the device first, and the
    /// result is the error of the device if that fails.
    fn fat_entry(&mut self, cluster: Cluster) -> (r: Result<FatEntry, ErrorKind>)
        requires
            old(self).wf(),
        ensures
            final(self).wf(),
            final(self).layout() == old(self).layout(),
            final(self).reach() == old(self).reach(),
            extends(final(self).cached(), old(self).cached()),
            !old(self).reach().contains(old(self).layout().fat_sector_of(cluster) as u64) ==> r
                == Err::<FatEntry, ErrorKind>(ErrorKind::InvalidInput),
            old(self).serves(old(self).layout().fat_sector_of(cluster) as u64) ==> {
                &&& final(self).cached() == old(self).cached()
                &&& final(self).device() == old(self).device()
                &&& r == (if old(self).layout().entry_at_hand(
                    old(self).cached(),
                    old(self).reach(),
                    cluster,
                ) {
                    Ok::<FatEntry, ErrorKind>(
                        old(self).layout().entry_of(old(self).cached(), cluster),
                    )
                } else {
                    Err(ErrorKind::UnexpectedEof)
                })
            },
            r matches Ok(entry) ==> {
                let sector = old(self).layout().fat_sector_of(cluster);
                let at = old(self).layout().fat_offset_of(cluster);
                &&& final(self).serves(sector as u64)
                &&& at + 4 <= final(self).cached()[sector as u64].0.len()
                &&& entry == final(self).layout().entry_of(final(self).cached(), cluster)
            },
    {
        assert(self.reach() =~= old(self).reach());
        let entry_offset = cluster.num() as u64 * 4;
        let bps = self.bytes_per_sector as u64;
        let logical_sector = self.fat_start_sector + entry_offset / bps;
        let at = (entry_offset % bps) as usize;
        let bytes = match self.device.get(logical_sector) {
            Err(kind) => {
                return Err(kind);
            },
            Ok(bytes) => bytes,
        };
        if bytes.len() < 4 || at > bytes.len() - 4 {
            return Err(ErrorKind::UnexpectedEof);
        }
        Ok(FatEntry(read_u32(bytes.as_slice(), at)))
    }
}

} // verus!
