//! A partition of a block device, read through a cache of its sectors.

use vstd::prelude::*;
use crate::fat32::traits::BlockDevice;
use crate::ioerr::ErrorKind;

verus! {

/// Where a partition lies on its device.
#[derive(Debug, Copy, Clone, PartialEq, Eq, Structural)]
pub struct Partition {
    /// The physical sector where the partition begins.
    pub start: u64,
    /// The number of logical sectors of the partition.
    pub num_sectors: u64,
    /// The size, in bytes, of a logical sector of the partition.
    pub sector_size: u64,
}

/// A logical sector in the cache.
#[derive(Debug)]
pub struct CacheEntry {
    /// The bytes of the sector.
    pub data: Vec<u8>,
    /// Whether the sector was handed out for writing.
    pub dirty: bool,
}

/// The cached sectors by their number, in a hash map.
#[verifier::external_body]
pub struct SectorMap {
    map: hashbrown::HashMap<u64, CacheEntry>,
}

/// Sectors by their number: the bytes of each, and whether it is dirty.
pub type Sectors = Map<u64, (Seq<u8>, bool)>;

/// What a sector map holds: for each cached sector its bytes and whether it
/// is dirty.
pub uninterp spec fn sectors_of(map: SectorMap) -> Map<u64, (Seq<u8>, bool)>;

/// `hashbrown::HashMap::new`: the map that holds nothing.
#[verifier::external_body]
fn sectors_new() -> (r: SectorMap)
    ensures
        sectors_of(r) =~= Map::empty(),
{
    SectorMap { map: hashbrown::HashMap::new() }
}

/// `hashbrown::HashMap::contains_key`: whether the map holds a value for
/// the key.
#[verifier::external_body]
fn sectors_contains(map: &SectorMap, sector: u64) -> (r: bool)
    ensures
        r == sectors_of(*map).contains_key(sector),
{
    map.map.contains_key(&sector)
}

/// `hashbrown::HashMap::insert`: afterwards the map holds the value for
/// the key, in place of any value it held for the key before, and is
/// otherwise unchanged.
#[verifier::external_body]
fn sectors_insert(map: &mut SectorMap, sector: u64, entry: CacheEntry)
    ensures
        sectors_of(*final(map)) == sectors_of(*old(map)).insert(sector, (entry.data@, entry.dirty)),
{
    map.map.insert(sector, entry);
}

/// `hashbrown::HashMap::get`: the value that the map holds for the key, if
/// it holds one.
#[verifier::external_body]
fn sectors_get(map: &SectorMap, sector: u64) -> (r: Option<&CacheEntry>)
    ensures
        match r {
            Some(entry) => sectors_of(*map).contains_key(sector) && sectors_of(*map)[sector] == (
                entry.data@,
                entry.dirty,
            ),
            None => !sectors_of(*map).contains_key(sector),
        },
{
    map.map.get(&sector)
}

/// `hashbrown::HashMap::get_mut`: the value that the map holds for the
/// key, if it holds one, for the caller to change in place; the map is
/// otherwise unchanged.
#[verifier::external_body]
fn sectors_get_mut(map: &mut SectorMap, sector: u64) -> (r: Option<&mut CacheEntry>)
    ensures
        match r {
            Some(entry) => {
                &&& sectors_of(*old(map)).contains_key(sector)
                &&& sectors_of(*old(map))[sector] == (entry.data@, entry.dirty)
                &&& sectors_of(*final(map)) == sectors_of(*old(map)).insert(
                    sector,
                    (final(entry).data@, final(entry).dirty),
                )
            },
            None => !sectors_of(*old(map)).contains_key(sector) && sectors_of(*final(map))
                == sectors_of(*old(map)),
        },
{
    map.map.get_mut(&sector)
}

/// Every sector that `before` holds `after` holds too, with the same bytes
/// and the same mark.
pub open spec fn extends(after: Sectors, before: Sectors) -> bool {
    forall|k: u64| #[trigger]
        before.contains_key(k) ==> after.contains_key(k) && after[k] == before[k]
}

/// What `count` reads of `device` may do, of the sectors from `start` on
/// and one after the other, when each of them hands back bytes: leave the
/// device as `then`, with `data` as the bytes of all of them in a row.
pub open spec fn fetched<D: BlockDevice>(
    device: D,
    start: u64,
    count: nat,
    then: D,
    data: Seq<u8>,
) -> bool
    decreases count,
{
    if count == 0 {
        then == device && data == Seq::<u8>::empty()
    } else {
        exists|between: D, cut: int|
            {
                &&& 0 <= cut <= data.len()
                &&& start + count - 1 <= u64::MAX
                &&& fetched(device, start, (count - 1) as nat, between, data.subrange(0, cut))
                &&& #[trigger] between.reads(
                    (start + count - 1) as u64,
                    then,
                    Ok(data.subrange(cut, data.len() as int)),
                )
            }
    }
}

/// One more read that hands back bytes, after reads that did, makes reads
/// that did.
pub proof fn lemma_fetched_more<D: BlockDevice>(
    device: D,
    start: u64,
    count: nat,
    between: D,
    head: Seq<u8>,
    then: D,
    tail: Seq<u8>,
)
    requires
        start + count <= u64::MAX,
        fetched(device, start, count, between, head),
        between.reads((start + count) as u64, then, Ok(tail)),
    ensures
        fetched(device, start, count + 1, then, head + tail),
{
    let more = count + 1;
    let data = head + tail;
    let cut = head.len() as int;
    assert(data.subrange(0, cut) =~= head);
    assert(data.subrange(cut, data.len() as int) =~= tail);
    assert((more - 1) as nat == count);
    assert(between.reads((start + more - 1) as u64, then, Ok(data.subrange(cut, data.len() as int))));
}

/// A partition of a device whose logical sectors are read once and then
/// kept in memory.
pub struct CachedPartition<D: BlockDevice> {
    device: D,
    device_sector: u64,
    cache: SectorMap,
    partition: Partition,
}

impl<D: BlockDevice> CachedPartition<D> {
    /// The sectors in the cache.
    pub closed spec fn cached(&self) -> Sectors {
        sectors_of(self.cache)
    }

    /// Where the partition lies.
    pub closed spec fn partition(&self) -> Partition {
        self.partition
    }

    /// The size of a sector of the device.
    pub closed spec fn device_sector(&self) -> u64 {
        self.device_sector
    }

    /// The device below the cache.
    pub closed spec fn device(&self) -> D {
        self.device
    }

    /// Logical sectors of the partition `partition` are made up of sectors
    /// of `device_sector` bytes: their size is a multiple of that size, and
    /// not zero.
    pub open spec fn accepts(device_sector: u64, partition: Partition) -> bool {
        device_sector != 0 && partition.sector_size >= device_sector && partition.sector_size
            % device_sector == 0
    }

    /// A logical sector is a whole number of sectors of the device, and at
    /// least one.
    pub open spec fn wf(&self) -> bool {
        &&& self.device_sector() > 0
        &&& self.partition().sector_size >= self.device_sector()
        &&& self.partition().sector_size % self.device_sector() == 0
    }

    /// The number of sectors of the device that make up a logical sector.
    pub open spec fn factor_of(&self) -> int {
        self.partition().sector_size as int / self.device_sector() as int
    }

    /// The sector of the device at which the logical sector `virt` begins,
    /// if `virt` is a sector of the partition.
    pub open spec fn physical_of(&self, virt: u64) -> Option<u64> {
        if virt < self.partition().num_sectors && self.partition().start + virt * self.factor_of()
            <= u64::MAX {
            Some((self.partition().start + virt * self.factor_of()) as u64)
        } else {
            None
        }
    }

    /// The logical sector `sector` is served from memory: it is a sector of
    /// the partition and was read before, so the device is not asked.
    pub open spec fn serves(&self, sector: u64) -> bool {
        self.physical_of(sector) is Some && self.cached().contains_key(sector)
    }

    /// What `write_sector` leaves of a sector that held `data`, given
    /// `buf`: the bytes of `buf` as far as the sector reaches, then the
    /// rest of `data`.
    pub open spec fn overwritten(data: Seq<u8>, buf: Seq<u8>) -> Seq<u8> {
        if buf.len() < data.len() {
            buf + data.subrange(buf.len() as int, data.len() as int)
        } else {
            buf.subrange(0, data.len() as int)
        }
    }

    /// Creates a cache for the partition `partition` of `device`, whose
    /// sectors have `device_sector` bytes. A sector `n` of the cache is the
    /// logical sector `n` of the partition. The result is `None` unless the
    /// size of a logical sector is a multiple of the size of a sector of the
    /// device, and not zero.
    pub fn with_sector_size(device: D, device_sector: u64, partition: Partition) -> (r: Option<
        CachedPartition<D>,
    >)
        ensures
            match r {
                Some(cache) => {
                    &&& cache.wf()
                    &&& cache.partition() == partition
                    &&& cache.device_sector() == device_sector
                    &&& cache.device() == device
                    &&& cache.cached() == Sectors::empty()
                },
                None => true,
            },
            r is Some <==> Self::accepts(device_sector, partition),
    {
        if device_sector == 0 || partition.sector_size < device_sector || partition.sector_size
            % device_sector != 0 {
            return None;
        }
        Some(CachedPartition { device, device_sector, cache: sectors_new(), partition })
    }

    /// Creates a cache for the partition `partition` of `device`, with the
    /// size of a sector that the device gives when asked once; see
    /// `with_sector_size`.
    pub fn new(device: D, partition: Partition) -> (r: Option<CachedPartition<D>>)
        ensures
            match r {
                Some(cache) => {
                    &&& cache.wf()
                    &&& cache.partition() == partition
                    &&& cache.device() == device
                    &&& cache.cached() == Sectors::empty()
                    &&& device.sized(cache.device_sector())
                },
                None => exists|size: u64| #[trigger]
                    device.sized(size) && !Self::accepts(size, partition),
            },
    {
        let size = device.sector_size();
        assert(device.sized(size));
        CachedPartition::with_sector_size(device, size, partition)
    }

    /// The number of sectors of the device that make up a logical sector.
    fn factor(&self) -> (r: u64)
        requires
            self.wf(),
        ensures
            r == self.factor_of(),
            r > 0,
    {
        let size = self.device_sector;
        proof {
            vstd::arithmetic::div_mod::lemma_div_non_zero(
                self.partition.sector_size as int,
                size as int,
            );
        }
        self.partition.sector_size / size
    }

    /// The sector of the device at which the logical sector `virt` begins,
    /// or `None` if `virt` is not a sector of the partition.
    fn virtual_to_physical(&self, virt: u64) -> (r: Option<u64>)
        requires
            self.wf(),
        ensures
            r == self.physical_of(virt),
    {
        if virt >= self.partition.num_sectors {
            return None;
        }
        let factor = self.factor();
        proof {
            if virt > 0 && factor > u64::MAX / virt {
                assert(virt * factor > u64::MAX) by (nonlinear_arith)
                    requires
                        virt > 0,
                        factor > u64::MAX / virt,
                ;
            }
        }
        if virt > 0 && factor > u64::MAX / virt {
            return None;
        }
        assert(virt * factor <= u64::MAX) by (nonlinear_arith)
            requires
                virt == 0 || factor <= u64::MAX / virt,
        ;
        let offset = virt * factor;
        if offset > u64::MAX - self.partition.start {
            return None;
        }
        Some(self.partition.start + offset)
    }

    /// Makes sure that the logical sector `sector` is in the cache: reads
    /// it from the device unless it is there already.
    ///
    /// The result is `InvalidInput` if `sector` is not a sector of the
    /// partition, and the error of the device if reading fails.
    #[verifier::loop_isolation(false)]
    fn cache_entry(&mut self, sector: u64) -> (r: Result<(), ErrorKind>)
        requires
            old(self).wf(),
        ensures
            final(self).wf(),
            final(self).partition() == old(self).partition(),
            final(self).device_sector() == old(self).device_sector(),
            old(self).physical_of(sector) is None ==> r == Err::<(), ErrorKind>(
                ErrorKind::InvalidInput,
            ),
            r is Err ==> final(self).cached() == old(self).cached(),
            r is Ok ==> final(self).cached().contains_key(sector),
            r is Ok && old(self).cached().contains_key(sector) ==> final(self).cached() == old(self).cached(),
            r is Ok && !old(self).cached().contains_key(sector) ==> {
                &&& final(self).cached() == old(self).cached().insert(
                    sector,
                    final(self).cached()[sector],
                )
                &&& !final(self).cached()[sector].1
                &&& fetched(
                    old(self).device(),
                    old(self).physical_of(sector)->Some_0,
                    old(self).factor_of() as nat,
                    final(self).device(),
                    final(self).cached()[sector].0,
                )
            },
            old(self).serves(sector) ==> r is Ok,
            old(self).serves(sector) || old(self).physical_of(sector) is None ==> final(self).device()
                == old(self).device(),
    {
        let start = match self.virtual_to_physical(sector) {
            None => {
                return Err(ErrorKind::InvalidInput);
            },
            Some(start) => start,
        };
        if sectors_contains(&self.cache, sector) {
            return Ok(());
        }
        let factor = self.factor();
        let mut data: Vec<u8> = Vec::new();
        let mut i: u64 = 0;
        while i < factor
            invariant
                i <= factor,
                self.wf(),
                self.partition() == old(self).partition(),
                self.device_sector() == old(self).device_sector(),
                self.cached() == old(self).cached(),
                fetched(old(self).device(), start, i as nat, self.device(), data@),
            decreases factor - i,
        {
            if start > u64::MAX - i {
                return Err(ErrorKind::InvalidInput);
            }
            let ghost between = self.device();
            let ghost head = data@;
            match self.device.read_sector(start + i, &mut data) {
                Err(kind) => {
                    return Err(kind);
                },
                Ok(_) => {
                    proof {
                        let tail = data@.subrange(head.len() as int, data@.len() as int);
                        assert(data@ =~= head + tail);
                        assert(between.reads((start + i) as u64, self.device(), Ok(tail)));
                        assert(fetched(old(self).device(), start, i as nat, between, head));
                        lemma_fetched_more(
                            old(self).device(),
                            start,
                            i as nat,
                            between,
                            head,
                            self.device(),
                            tail,
                        );
                    }
                },
            }
            i = i + 1;
        }
        sectors_insert(&mut self.cache, sector, CacheEntry { data, dirty: false });
        Ok(())
    }

    /// The bytes of the logical sector `sector`, for writing; the sector is
    /// marked dirty. A sector that is not in the cache is read from the
    /// device first.
    pub fn get_mut(&mut self, sector: u64) -> (r: Result<&mut Vec<u8>, ErrorKind>)
        requires
            old(self).wf(),
        ensures
            old(self).physical_of(sector) is None ==> (r matches Err(kind) && kind
                == ErrorKind::InvalidInput),
            old(self).serves(sector) ==> r is Ok,
            match r {
                Ok(data) => {
                    &&& old(self).cached().contains_key(sector) ==> data@ == old(self).cached()[sector].0
                    &&& !old(self).cached().contains_key(sector) ==> fetched(
                        old(self).device(),
                        old(self).physical_of(sector)->Some_0,
                        old(self).factor_of() as nat,
                        final(self).device(),
                        data@,
                    )
                    &&& final(self).cached().contains_key(sector)
                    &&& final(self).cached()[sector] == (final(data)@, true)
                    &&& forall|other: u64|
                        other != sector ==> (final(self).cached().contains_key(other)
                            <==> old(self).cached().contains_key(other))
                    &&& forall|other: u64|
                        other != sector && old(self).cached().contains_key(other)
                            ==> final(self).cached()[other] == old(self).cached()[other]
                },
                Err(_) => final(self).cached() == old(self).cached(),
            },
            final(self).wf(),
            final(self).partition() == old(self).partition(),
            final(self).device_sector() == old(self).device_sector(),
            old(self).serves(sector) || old(self).physical_of(sector) is None ==> final(self).device()
                == old(self).device(),
    {
        match self.cache_entry(sector) {
            Err(kind) => Err(kind),
            Ok(()) => {
                let entry = sectors_get_mut(&mut self.cache, sector).unwrap();
                entry.dirty = true;
                Ok(&mut entry.data)
            },
        }
    }

    /// The bytes of the logical sector `sector`. A sector that is not in
    /// the cache is read from the device first.
    pub fn get(&mut self, sector: u64) -> (r: Result<&Vec<u8>, ErrorKind>)
        requires
            old(self).wf(),
        ensures
            final(self).wf(),
            final(self).partition() == old(self).partition(),
            final(self).device_sector() == old(self).device_sector(),
            old(self).physical_of(sector) is None ==> (r matches Err(kind) && kind
                == ErrorKind::InvalidInput),
            old(self).serves(sector) ==> r is Ok,
            old(self).serves(sector) || old(self).physical_of(sector) is None ==> final(self).device()
                == old(self).device(),
            extends(final(self).cached(), old(self).cached()),
            match r {
                Ok(data) => {
                    &&& final(self).cached().contains_key(sector)
                    &&& data@ == final(self).cached()[sector].0
                    &&& old(self).cached().contains_key(sector) ==> final(self).cached() == old(self).cached()
                    &&& !old(self).cached().contains_key(sector) ==> final(self).cached()
                        == old(self).cached().insert(sector, (data@, false))
                    &&& !old(self).cached().contains_key(sector) ==> fetched(
                        old(self).device(),
                        old(self).physical_of(sector)->Some_0,
                        old(self).factor_of() as nat,
                        final(self).device(),
                        data@,
                    )
                },
                Err(_) => final(self).cached() == old(self).cached(),
            },
    {
        match self.cache_entry(sector) {
            Err(kind) => Err(kind),
            Ok(()) => Ok(&sectors_get(&self.cache, sector).unwrap().data),
        }
    }

    /// The size of a logical sector.
    pub fn sector_size(&self) -> (r: u64)
        ensures
            r == self.partition().sector_size,
    {
        self.partition.sector_size
    }

    /// Appends the bytes of the logical sector `sector` to `buf`, through
    /// the cache. Returns the number of bytes that were appended.
    ///
    /// A sector that the cache holds is handed out as it stands there, and
    /// the device is not asked. Any other sector of the partition is read
    /// from the device first, with one read for each sector of the device
    /// that it is made up of, and the result is the error of the device if
    /// one of them fails. The result is `InvalidInput` if `sector` is not a sector
    /// of the partition.
    pub fn read_sector(&mut self, sector: u64, buf: &mut Vec<u8>) -> (r: Result<usize, ErrorKind>)
        requires
            old(self).wf(),
        ensures
            final(self).wf(),
            final(self).partition() == old(self).partition(),
            final(self).device_sector() == old(self).device_sector(),
            old(self).physical_of(sector) is None ==> r == Err::<usize, ErrorKind>(
                ErrorKind::InvalidInput,
            ),
            old(self).serves(sector) ==> r == Ok::<usize, ErrorKind>(
                old(self).cached()[sector].0.len() as usize,
            ),
            old(self).serves(sector) || old(self).physical_of(sector) is None ==> final(self).device()
                == old(self).device(),
            extends(final(self).cached(), old(self).cached()),
            match r {
                Ok(count) => {
                    &&& final(self).cached().contains_key(sector)
                    &&& count == final(self).cached()[sector].0.len()
                    &&& final(buf)@ == old(buf)@ + final(self).cached()[sector].0
                    &&& old(self).cached().contains_key(sector) ==> final(self).cached() == old(self).cached()
                    &&& !old(self).cached().contains_key(sector) ==> final(self).cached()
                        == old(self).cached().insert(sector, (final(self).cached()[sector].0, false))
                    &&& !old(self).cached().contains_key(sector) ==> fetched(
                        old(self).device(),
                        old(self).physical_of(sector)->Some_0,
                        old(self).factor_of() as nat,
                        final(self).device(),
                        final(self).cached()[sector].0,
                    )
                },
                Err(_) => final(buf)@ == old(buf)@ && final(self).cached() == old(self).cached(),
            },
    {
        match self.get(sector) {
            Err(kind) => Err(kind),
            Ok(data) => {
                let count = data.len();
                let mut i: usize = 0;
                while i < count
                    invariant
                        i <= count,
                        count == data@.len(),
                        buf@ == old(buf)@ + data@.subrange(0, i as int),
                    decreases count - i,
                {
                    buf.push(data[i]);
                    i = i + 1;
                    assert(buf@ =~= old(buf)@ + data@.subrange(0, i as int));
                }
                assert(buf@ =~= old(buf)@ + data@);
                Ok(count)
            },
        }
    }

    /// Writes `buf` over the beginning of the logical sector `sector` in
    /// the cache, as far as the sector reaches, and marks the sector dirty.
    /// Returns the number of bytes that were written.
    ///
    /// A sector that the cache holds is written over as it stands there,
    /// and the device is not asked. Any other sector of the partition is
    /// read from the device first, and the result is the error of the
    /// device if that fails. The result is `InvalidInput` if `sector` is not
    /// a sector of the partition.
    pub fn write_sector(&mut self, sector: u64, buf: &Vec<u8>) -> (r: Result<usize, ErrorKind>)
        requires
            old(self).wf(),
        ensures
            final(self).wf(),
            final(self).partition() == old(self).partition(),
            final(self).device_sector() == old(self).device_sector(),
            old(self).physical_of(sector) is None ==> r == Err::<usize, ErrorKind>(
                ErrorKind::InvalidInput,
            ),
            old(self).serves(sector) || old(self).physical_of(sector) is None ==> final(self).device()
                == old(self).device(),
            old(self).serves(sector) ==> {
                &&& r is Ok
                &&& final(self).cached() == old(self).cached().insert(
                    sector,
                    (Self::overwritten(old(self).cached()[sector].0, buf@), true),
                )
            },
            match r {
                Ok(count) => {
                    &&& final(self).cached().contains_key(sector)
                    &&& final(self).cached()[sector].1
                    &&& count <= buf@.len()
                    &&& count == final(self).cached()[sector].0.len() || count == buf@.len()
                    &&& final(self).cached()[sector].0.subrange(0, count as int) == buf@.subrange(
                        0,
                        count as int,
                    )
                    &&& !old(self).cached().contains_key(sector) ==> exists|read: Seq<u8>|
                        #[trigger] fetched(
                            old(self).device(),
                            old(self).physical_of(sector)->Some_0,
                            old(self).factor_of() as nat,
                            final(self).device(),
                            read,
                        ) && final(self).cached()[sector].0 == Self::overwritten(read, buf@)
                    &&& forall|other: u64|
                        other != sector ==> (final(self).cached().contains_key(other)
                            <==> old(self).cached().contains_key(other))
                    &&& forall|other: u64|
                        other != sector && old(self).cached().contains_key(other)
                            ==> final(self).cached()[other] == old(self).cached()[other]
                },
                Err(_) => final(self).cached() == old(self).cached(),
            },
    {
        match self.get_mut(sector) {
            Err(kind) => Err(kind),
            Ok(data) => {
                let size = data.len();
                let count = if buf.len() < size {
                    buf.len()
                } else {
                    size
                };
                let ghost held = data@;
                let mut i: usize = 0;
                while i < count
                    invariant
                        i <= count,
                        count <= buf@.len(),
                        count <= data@.len(),
                        data@.len() == size,
                        held.len() == size,
                        data@.subrange(0, i as int) == buf@.subrange(0, i as int),
                        forall|j: int| i <= j < size ==> data@[j] == held[j],
                    decreases count - i,
                {
                    data[i] = buf[i];
                    i = i + 1;
                    assert(data@.subrange(0, i as int) =~= buf@.subrange(0, i as int));
                }
                proof {
                    assert(data@.subrange(count as int, size as int) =~= held.subrange(
                        count as int,
                        size as int,
                    ));
                    assert(data@ =~= data@.subrange(0, count as int) + data@.subrange(
                        count as int,
                        size as int,
                    ));
                    assert(buf@.len() < size ==> buf@.subrange(0, count as int) =~= buf@);
                    assert(data@ == Self::overwritten(held, buf@));
                    if old(self).serves(sector) {
                        assert(final(self).cached() =~= old(self).cached().insert(
                            sector,
                            (Self::overwritten(old(self).cached()[sector].0, buf@), true),
                        ));
                    }
                }
                Ok(count)
            },
        }
    }
}

} // verus!
