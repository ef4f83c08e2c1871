//! Two-level translation tables: one level 2 table whose first two entries
//! point to two level 3 tables, which together map a window of 1 GiB in
//! pages of 64 KiB.

use vstd::prelude::*;
use vstd::arithmetic::power2::{is_pow2, lemma2_to64, lemma_pow2_pos};
use crate::allocator::bin::{Allocator, Heap, bin_size, class_of, lemma_ceil_log2};
use crate::param::{IO_BASE, IO_BASE_END, PAGE_SIZE, USER_IMG_BASE, USER_IMG_MASK, USER_MAX_VM_SIZE};
use crate::vm::address::{PhysicalAddr, VirtualAddr};
use crate::vm::entry::{
    ADDR, ADDR_LIMIT, ATTR_DEVICE, ATTR_NORMAL, PERM_KERN_RW, PERM_USER_RW, RawL2Entry,
    RawL3Entry, SH_INNER, SH_OUTER, VALID, addr_of, descriptor, lemma_descriptor_fields,
    valid_of,
};

verus! {

/// Number of entries in one table.
pub const ENTRIES: usize = 8192;

/// Number of level 3 tables.
pub const TABLES: usize = 2;

/// Number of pages that one translation table maps.
pub const SLOTS: usize = 16384;

/// Size in bytes of the level 2 table and the level 3 tables together.
pub const TABLE_BYTES: u64 = 0x3_0000;

/// Size class of a page.
pub const PAGE_CLASS: usize = 13;

/// Size class of the block that holds the tables.
pub const TABLE_CLASS: usize = 15;

/// The classes of a page and of the tables are what the allocator assigns
/// to their sizes, and their blocks have room for them.
pub proof fn lemma_classes()
    ensures
        class_of(PAGE_SIZE, PAGE_SIZE) == PAGE_CLASS,
        class_of(TABLE_BYTES, PAGE_SIZE) == TABLE_CLASS,
        bin_size(PAGE_CLASS as nat) == PAGE_SIZE,
        bin_size(TABLE_CLASS as nat) == 0x4_0000,
        is_pow2(PAGE_SIZE as int),
{
    lemma2_to64();
    lemma_ceil_log2(PAGE_SIZE as nat, 16);
    lemma_ceil_log2(PAGE_SIZE as nat, 15);
    lemma_ceil_log2(TABLE_BYTES as nat, 18);
    lemma_ceil_log2(TABLE_BYTES as nat, 17);
    reveal_with_fuel(is_pow2, 18);
}

/// One page of memory.
pub struct Page;

impl Page {
    /// Size of a page in bytes.
    pub const SIZE: u64 = PAGE_SIZE;

    /// Alignment of a page in bytes.
    pub const ALIGN: u64 = PAGE_SIZE;
}

/// The level 2 table.
pub struct L2PageTable {
    /// Where the table stands in physical memory.
    pub addr: PhysicalAddr,
    pub entries: [RawL2Entry; 8192],
}

impl L2PageTable {
    /// The table at `addr` with every entry invalid.
    fn new(addr: PhysicalAddr) -> (r: L2PageTable)
        ensures
            r.addr == addr,
            forall|i: int| 0 <= i < ENTRIES ==> (#[trigger] r.entries[i]).0 == 0,
    {
        L2PageTable { addr, entries: [RawL2Entry(0); 8192] }
    }

    /// The physical address of the table.
    pub fn as_ptr(&self) -> (r: PhysicalAddr)
        ensures
            r == self.addr,
    {
        self.addr
    }
}

/// An entry of a level 3 table.
#[derive(Debug, Copy, Clone, PartialEq, Eq, Structural)]
pub struct L3Entry(pub RawL3Entry);

impl L3Entry {
    /// The invalid entry.
    fn new() -> (r: L3Entry)
        ensures
            r.0.0 == 0,
    {
        L3Entry(RawL3Entry::new(0))
    }

    /// Whether the entry maps a page.
    pub fn is_valid(&self) -> (r: bool)
        ensures
            r == valid_of(self.0.0),
    {
        let raw = self.0.get();
        assert((raw & 0x1 != 0) == (raw % 2 == 1)) by (bit_vector);
        self.0.get_masked(VALID) != 0
    }

    /// The address of the page that the entry maps, if it maps one.
    pub fn get_page_addr(&self) -> (r: Option<PhysicalAddr>)
        ensures
            r == (if valid_of(self.0.0) {
                Some(PhysicalAddr(addr_of(self.0.0)))
            } else {
                None
            }),
    {
        if self.is_valid() {
            let raw = self.0.get();
            assert(raw & 0x0000_ffff_ffff_0000 == ((raw / 0x1_0000 % 0x1_0000_0000) * 0x1_0000) as u64)
                by (bit_vector);
            Some(PhysicalAddr(self.0.get_masked(ADDR)))
        } else {
            None
        }
    }
}

/// A level 3 table.
pub struct L3PageTable {
    /// Where the table stands in physical memory.
    pub addr: PhysicalAddr,
    pub entries: [L3Entry; 8192],
}

impl L3PageTable {
    /// The table at `addr` with every entry invalid.
    fn new(addr: PhysicalAddr) -> (r: L3PageTable)
        ensures
            r.addr == addr,
            forall|i: int| 0 <= i < ENTRIES ==> (#[trigger] r.entries[i]).0.0 == 0,
    {
        L3PageTable { addr, entries: [L3Entry(RawL3Entry(0)); 8192] }
    }

    /// The physical address of the table.
    pub fn as_ptr(&self) -> (r: PhysicalAddr)
        ensures
            r == self.addr,
    {
        self.addr
    }
}

/// The offset of `va` in its window: the user window starts at
/// `USER_IMG_BASE`, the kernel window at 0.
pub open spec fn window_offset(va: u64) -> int {
    if va >= USER_IMG_BASE {
        va - USER_IMG_BASE
    } else {
        va as int
    }
}

/// The index into the level 2 table that `va` selects: bits 41 to 29 of its
/// offset.
pub open spec fn l2_index(va: u64) -> int {
    window_offset(va) / 0x2000_0000 % 8192
}

/// The index into a level 3 table that `va` selects: bits 28 to 16 of its
/// offset.
pub open spec fn l3_index(va: u64) -> int {
    window_offset(va) / 0x1_0000 % 8192
}

/// `va` is the address of a page inside the window that the tables map.
pub open spec fn locatable(va: u64) -> bool {
    va % PAGE_SIZE == 0 && l2_index(va) < TABLES
}

/// The position of the page of `va` among all pages of the window.
pub open spec fn slot_of(va: u64) -> int {
    l2_index(va) * ENTRIES + l3_index(va)
}

/// A level 2 table and the two level 3 tables it points to, which stand
/// behind one another in physical memory.
pub struct PageTable {
    pub l2: L2PageTable,
    pub l3: [L3PageTable; 2],
}

impl PageTable {
    /// The physical address of the tables.
    pub open spec fn base(&self) -> u64 {
        self.l2.addr.0
    }

    /// The level 3 descriptor for page `slot` of the window.
    pub open spec fn slot(&self, slot: int) -> u64 {
        self.l3[slot / ENTRIES as int].entries[slot % ENTRIES as int].0.0
    }

    /// The tables stand at a page boundary, behind one another, below the
    /// largest address that a descriptor can hold.
    pub open spec fn wf(&self) -> bool {
        &&& self.base() % PAGE_SIZE == 0
        &&& self.base() + TABLE_BYTES <= ADDR_LIMIT
        &&& self.l3[0].addr.0 == self.base() + PAGE_SIZE
        &&& self.l3[1].addr.0 == self.base() + 2 * PAGE_SIZE
    }

    /// The first two level 2 entries point to the level 3 tables with
    /// permission `perm`, and every other entry of every table is invalid.
    pub open spec fn is_blank(&self, perm: u64) -> bool {
        &&& forall|i: int|
            0 <= i < TABLES ==> (#[trigger] self.l2.entries[i]).0 == descriptor(
                self.l3[i].addr.0,
                perm,
                0,
                0,
            )
        &&& forall|i: int| TABLES <= i < ENTRIES ==> (#[trigger] self.l2.entries[i]).0 == 0
        &&& forall|s: int| 0 <= s < SLOTS ==> #[trigger] self.slot(s) == 0
    }

    /// The first two level 2 entries point to the level 3 tables with
    /// permission `perm`, and every other level 2 entry is invalid.
    pub open spec fn is_blank_l2(&self, perm: u64) -> bool {
        &&& forall|i: int|
            0 <= i < TABLES ==> (#[trigger] self.l2.entries[i]).0 == descriptor(
                self.l3[i].addr.0,
                perm,
                0,
                0,
            )
        &&& forall|i: int| TABLES <= i < ENTRIES ==> (#[trigger] self.l2.entries[i]).0 == 0
    }

    /// This table with the level 3 descriptor for page `slot` replaced.
    pub open spec fn same_but(&self, other: PageTable, slot: int) -> bool {
        &&& self.l2 == other.l2
        &&& self.l3[0].addr == other.l3[0].addr
        &&& self.l3[1].addr == other.l3[1].addr
        &&& forall|s: int| 0 <= s < SLOTS && s != slot ==> #[trigger] self.slot(s) == other.slot(s)
    }

    /// Page `slot` of the window is mapped.
    pub open spec fn mapped(&self, slot: int) -> bool {
        0 <= slot < SLOTS && valid_of(self.slot(slot))
    }

    /// The address of the page that page `slot` of the window is mapped to.
    pub open spec fn page_of(&self, slot: int) -> u64 {
        addr_of(self.slot(slot))
    }

    /// The block of the tables and every mapped page are live blocks of
    /// `heap`; every mapped page stands at a page boundary, and no two
    /// positions are mapped to the same page.
    pub open spec fn owns_pages(&self, heap: Heap) -> bool {
        &&& heap.live.contains_pair(self.base(), TABLE_CLASS as nat)
        &&& forall|s: int| #[trigger]
            self.mapped(s) ==> self.page_of(s) % PAGE_SIZE == 0 && heap.live.contains_pair(
                self.page_of(s),
                PAGE_CLASS as nat,
            )
        &&& forall|s: int, t: int|
            #![trigger self.mapped(s), self.mapped(t)]
            self.mapped(s) && self.mapped(t) && s != t ==> self.page_of(s) != self.page_of(t)
    }

    /// The block of the tables and the pages that are mapped are other
    /// blocks than those of `other`.
    pub open spec fn apart_from(&self, other: PageTable) -> bool {
        &&& self.base() != other.base()
        &&& forall|s: int, t: int|
            #![trigger self.mapped(s), other.mapped(t)]
            self.mapped(s) && other.mapped(t) ==> self.page_of(s) != other.page_of(t)
    }

    /// Neither the block of the tables nor a page that is mapped is a live
    /// block of `heap`.
    pub open spec fn fresh_in(&self, heap: Heap) -> bool {
        &&& !heap.live.contains_key(self.base())
        &&& forall|s: int| #[trigger] self.mapped(s) ==> !heap.live.contains_key(self.page_of(s))
    }

    /// The tables stand where those of `before` stand, and every page that
    /// is mapped is either mapped as in `before`, or no live block of
    /// `heap`.
    pub open spec fn grown_from(&self, before: PageTable, heap: Heap) -> bool {
        &&& self.base() == before.base()
        &&& forall|s: int| #[trigger]
            self.mapped(s) ==> (before.mapped(s) && self.page_of(s) == before.page_of(s))
                || !heap.live.contains_key(self.page_of(s))
    }

    /// The heap after the pages that the first `n` positions of the window
    /// are mapped to were given back, in the order of the positions.
    pub open spec fn released(&self, heap: Heap, n: nat) -> Heap
        decreases n,
    {
        if n == 0 {
            heap
        } else {
            let before = self.released(heap, (n - 1) as nat);
            if self.mapped(n - 1) {
                before.dealloc(self.page_of(n - 1), PAGE_SIZE, PAGE_SIZE)
            } else {
                before
            }
        }
    }

    /// The tables at `base`, with the level 2 entries for the level 3 tables
    /// filled in with permission `perm`.
    fn new(perm: u64, base: PhysicalAddr) -> (r: Box<PageTable>)
        requires
            base.0 % PAGE_SIZE == 0,
            base.0 + TABLE_BYTES <= ADDR_LIMIT,
        ensures
            r.wf(),
            r.base() == base.0,
            r.is_blank(perm),
    {
        let first = PhysicalAddr(base.0 + PAGE_SIZE);
        let second = PhysicalAddr(base.0 + 2 * PAGE_SIZE);
        let mut table = Box::new(
            PageTable {
                l2: L2PageTable::new(base),
                l3: [L3PageTable::new(first), L3PageTable::new(second)],
            },
        );
        table.l2.entries[0] = RawL2Entry::table(first.0, perm);
        table.l2.entries[1] = RawL2Entry::table(second.0, perm);
        assert forall|s: int| 0 <= s < SLOTS implies #[trigger] table.slot(s) == 0 by {
            assert(0 <= s / 8192 < 2);
            assert(table.l3[s / 8192].entries[s % 8192].0.0 == 0);
        }
        table
    }

    /// The tables in a block of their own from `allocator`, or `None` if the
    /// allocator has no such block.
    fn from_allocator(perm: u64, allocator: &mut Allocator) -> (r: Option<Box<PageTable>>)
        requires
            old(allocator)@.inv(),
            old(allocator)@.end <= ADDR_LIMIT,
        ensures
            final(allocator)@ == old(allocator)@.allocate(TABLE_BYTES, PAGE_SIZE).0,
            final(allocator)@.inv(),
            match old(allocator)@.allocate(TABLE_BYTES, PAGE_SIZE).1 {
                None => r is None,
                Some(base) => {
                    &&& r matches Some(t)
                    &&& t.wf()
                    &&& t.base() == base
                    &&& t.is_blank(perm)
                    &&& final(allocator)@.live.contains_pair(base, TABLE_CLASS as nat)
                    &&& !old(allocator)@.live.contains_key(base)
                },
            },
            final(allocator)@.keeps_live(old(allocator)@),
            final(allocator)@.end == old(allocator)@.end,
    {
        proof {
            lemma_classes();
        }
        match allocator.allocate(TABLE_BYTES, PAGE_SIZE) {
            None => None,
            Some(base) => {
                proof {
                    assert(allocator@.live.contains_pair(base, TABLE_CLASS as nat));
                    assert(allocator@.below_mark(base, TABLE_CLASS as nat));
                }
                Some(PageTable::new(perm, PhysicalAddr(base)))
            },
        }
    }

    /// The level 3 entry for the page at `va`.
    pub fn get_entry(&self, va: VirtualAddr) -> (r: L3Entry)
        requires
            locatable(va.0),
        ensures
            r.0.0 == self.slot(slot_of(va.0)),
    {
        let (l2idx, l3idx) = PageTable::locate(va);
        proof {
            lemma_slot_parts(l2idx as int, l3idx as int);
        }
        self.l3[l2idx].entries[l3idx]
    }

    /// The indices into the level 2 table and into the level 3 table that the
    /// page at `va` selects.
    fn locate(va: VirtualAddr) -> (r: (usize, usize))
        requires
            locatable(va.0),
        ensures
            r.0 == l2_index(va.0),
            r.1 == l3_index(va.0),
            r.0 < TABLES,
            r.1 < ENTRIES,
    {
        let mut v = va.as_u64();
        if v >= USER_IMG_BASE {
            assert(v >= 0xffff_ffff_c000_0000 ==> v & 0x3fff_ffff == v - 0xffff_ffff_c000_0000)
                by (bit_vector);
            v = v & USER_IMG_MASK;
        }
        assert((v >> 29) & 0x1fff == v / 0x2000_0000 % 8192) by (bit_vector);
        assert((v >> 16) & 0x1fff == v / 0x1_0000 % 8192) by (bit_vector);
        let l2idx = (v >> 29) & 0x1fff;
        let l3idx = (v >> 16) & 0x1fff;
        (l2idx as usize, l3idx as usize)
    }

    /// The level 3 entry for the page at `va`.
    pub fn entry(&mut self, va: VirtualAddr) -> (r: &mut L3Entry)
        requires
            locatable(va.0),
        ensures
            r.0.0 == old(self).slot(slot_of(va.0)),
            final(self).slot(slot_of(va.0)) == final(r).0.0,
            final(self).same_but(*old(self), slot_of(va.0)),
    {
        let (l2idx, l3idx) = PageTable::locate(va);
        proof {
            lemma_slot_parts(l2idx as int, l3idx as int);
        }
        &mut self.l3[l2idx].entries[l3idx]
    }

    /// Makes `entry` the level 3 entry for the page at `va`.
    pub fn set_entry(&mut self, va: VirtualAddr, entry: RawL3Entry)
        requires
            locatable(va.0),
        ensures
            final(self).slot(slot_of(va.0)) == entry.0,
            final(self).same_but(*old(self), slot_of(va.0)),
    {
        let (l2idx, l3idx) = PageTable::locate(va);
        proof {
            lemma_slot_parts(l2idx as int, l3idx as int);
        }
        self.l3[l2idx].entries[l3idx].0 = entry;
    }

    /// The physical address of the tables, which is that of the level 2
    /// table.
    pub fn get_baddr(&self) -> (r: PhysicalAddr)
        ensures
            r.0 == self.base(),
    {
        self.l2.as_ptr()
    }
}

/// A position among the pages splits into a table and an entry, and no
/// other pair of a table and an entry gives the same position.
proof fn lemma_slot_parts(l2: int, l3: int)
    requires
        0 <= l2 < TABLES,
        0 <= l3 < ENTRIES,
    ensures
        0 <= l2 * ENTRIES + l3 < SLOTS,
        (l2 * ENTRIES + l3) / ENTRIES as int == l2,
        (l2 * ENTRIES + l3) % ENTRIES as int == l3,
        forall|s: int|
            0 <= s < SLOTS && s != l2 * ENTRIES + l3 ==> #[trigger] (s / ENTRIES as int) != l2
                || #[trigger] (s % ENTRIES as int) != l3,
{
}

/// In the kernel window the pages are numbered from address 0.
proof fn lemma_kernel_slot(va: u64)
    requires
        va < USER_MAX_VM_SIZE,
        va % PAGE_SIZE == 0,
    ensures
        locatable(va),
        slot_of(va) == va / PAGE_SIZE,
        0 <= slot_of(va) < SLOTS,
{
    let q = va as int / 0x1_0000;
    assert(va as int / 0x2000_0000 == q / 8192);
}

/// In the user window the pages are numbered from `USER_IMG_BASE`.
pub proof fn lemma_user_slot(va: u64)
    requires
        va >= USER_IMG_BASE,
        va % PAGE_SIZE == 0,
    ensures
        locatable(va),
        slot_of(va) == (va - USER_IMG_BASE) / PAGE_SIZE as int,
        0 <= slot_of(va) < SLOTS,
{
    let off = va - USER_IMG_BASE;
    let q = off / 0x1_0000;
    assert(off / 0x2000_0000 == q / 8192);
}

/// Whatever happened to the heap between `before` and `after` on behalf of
/// the table `mine`, every other table that owned its pages before, and
/// shares no block with `mine`, owns its pages afterwards.
pub open spec fn spares(after: Heap, before: Heap, mine: PageTable) -> bool {
    forall|other: PageTable| #[trigger]
        other.owns_pages(before) && mine.apart_from(other) ==> other.owns_pages(after)
}

/// Every table that owned its pages in `before` owns them in `after`.
pub open spec fn spares_all(after: Heap, before: Heap) -> bool {
    forall|other: PageTable| #[trigger] other.owns_pages(before) ==> other.owns_pages(after)
}

/// A heap that keeps the live blocks of another spares all tables.
pub proof fn lemma_kept_spares_all(after: Heap, before: Heap)
    requires
        after.keeps_live(before),
    ensures
        spares_all(after, before),
{
    assert forall|other: PageTable| #[trigger] other.owns_pages(before) implies other.owns_pages(
        after,
    ) by {
        lemma_owns_kept(other, before, after);
    }
}

/// Tables that share no block do so either way round.
pub proof fn lemma_apart_symmetric(a: PageTable, b: PageTable)
    requires
        a.apart_from(b),
    ensures
        b.apart_from(a),
{
    assert forall|s: int, t: int| b.mapped(s) && a.mapped(t) implies b.page_of(s) != a.page_of(t) by {
        assert(a.mapped(t) && b.mapped(s));
    }
}

/// A table that owns its pages in a heap owns them in every heap that
/// keeps the live blocks of that heap.
pub proof fn lemma_owns_kept(table: PageTable, before: Heap, after: Heap)
    requires
        table.owns_pages(before),
        after.keeps_live(before),
    ensures
        table.owns_pages(after),
{
    assert(before.live.contains_key(table.base()));
    assert forall|s: int| #[trigger] table.mapped(s) implies table.page_of(s) % PAGE_SIZE == 0
        && after.live.contains_pair(table.page_of(s), PAGE_CLASS as nat) by {
        assert(before.live.contains_key(table.page_of(s)));
    }
}

/// A heap that keeps the live blocks of another spares every table.
pub proof fn lemma_kept_spares(after: Heap, before: Heap, mine: PageTable)
    requires
        after.keeps_live(before),
    ensures
        spares(after, before, mine),
{
    assert forall|other: PageTable| #[trigger]
        other.owns_pages(before) && mine.apart_from(other) implies other.owns_pages(after) by {
        lemma_owns_kept(other, before, after);
    }
}

/// Sparing goes on from heap to heap as long as the table only grows.
pub proof fn lemma_spares_chain(h0: Heap, h1: Heap, h2: Heap, t0: PageTable, t1: PageTable)
    requires
        spares(h1, h0, t0),
        t1.grown_from(t0, h0),
        spares(h2, h1, t1),
    ensures
        spares(h2, h0, t0),
{
    assert forall|other: PageTable| #[trigger]
        other.owns_pages(h0) && t0.apart_from(other) implies other.owns_pages(h2) by {
        lemma_grown_apart(t1, t0, h0, other);
    }
}

/// A table that is fresh in a heap shares no block with a table that owns
/// its pages in that heap.
pub proof fn lemma_fresh_apart(table: PageTable, heap: Heap, other: PageTable)
    requires
        table.fresh_in(heap),
        other.owns_pages(heap),
    ensures
        table.apart_from(other),
{
    assert(heap.live.contains_key(other.base()));
    assert forall|s: int, t: int| table.mapped(s) && other.mapped(t) implies table.page_of(s)
        != other.page_of(t) by {
        assert(heap.live.contains_key(other.page_of(t)));
    }
}

/// A table that grew by pages that were not live shares no block with a
/// table that owns its pages, if it shared none before.
pub proof fn lemma_grown_apart(table: PageTable, before: PageTable, heap: Heap, other: PageTable)
    requires
        table.grown_from(before, heap),
        before.apart_from(other),
        other.owns_pages(heap),
    ensures
        table.apart_from(other),
{
    assert forall|s: int, t: int| table.mapped(s) && other.mapped(t) implies table.page_of(s)
        != other.page_of(t) by {
        assert(heap.live.contains_key(other.page_of(t)));
        if before.mapped(s) && table.page_of(s) == before.page_of(s) {
            assert(before.mapped(s) && other.mapped(t));
        }
    }
}

/// A table that grew from a fresh table by pages that were not live is
/// fresh.
pub proof fn lemma_grown_fresh(table: PageTable, before: PageTable, heap: Heap, start: Heap)
    requires
        table.grown_from(before, heap),
        before.fresh_in(start),
        heap.keeps_live(start),
    ensures
        table.fresh_in(start),
{
    assert forall|s: int| #[trigger] table.mapped(s) implies !start.live.contains_key(
        table.page_of(s),
    ) by {
        if before.mapped(s) && table.page_of(s) == before.page_of(s) {
        } else if start.live.contains_key(table.page_of(s)) {
            assert(heap.live.contains_key(table.page_of(s)));
        }
    }
}

/// Growing goes on from table to table as long as the heap keeps its live
/// blocks.
pub proof fn lemma_grown_chain(t2: PageTable, t1: PageTable, t0: PageTable, h1: Heap, h0: Heap)
    requires
        t1.grown_from(t0, h0),
        t2.grown_from(t1, h1),
        h1.keeps_live(h0),
    ensures
        t2.grown_from(t0, h0),
{
    assert forall|s: int| #[trigger] t2.mapped(s) implies (t0.mapped(s) && t2.page_of(s)
        == t0.page_of(s)) || !h0.live.contains_key(t2.page_of(s)) by {
        if t1.mapped(s) && t2.page_of(s) == t1.page_of(s) {
            assert(t1.mapped(s));
        } else if h0.live.contains_key(t2.page_of(s)) {
            assert(h1.live.contains_key(t2.page_of(s)));
        }
    }
}

/// What is live after the pages of the first `n` positions were given back:
/// what was live before, but for those pages.
pub proof fn lemma_released_live(table: PageTable, heap: Heap, n: nat, a: u64)
    requires
        n <= SLOTS,
    ensures
        table.released(heap, n).live.contains_key(a) <==> heap.live.contains_key(a) && !exists|
            s: int,
        |
            0 <= s < n && #[trigger] table.mapped(s) && table.page_of(s) == a,
        table.released(heap, n).live.contains_key(a) ==> table.released(heap, n).live[a]
            == heap.live[a],
    decreases n,
{
    if n > 0 {
        lemma_released_live(table, heap, (n - 1) as nat, a);
        if table.mapped(n - 1) && table.page_of(n - 1) == a {
            assert(0 <= n - 1 < n && table.mapped(n - 1) && table.page_of(n - 1) == a);
        } else {
            if exists|s: int| 0 <= s < n && #[trigger] table.mapped(s) && table.page_of(s) == a {
                let s = choose|s: int| 0 <= s < n && #[trigger] table.mapped(s) && table.page_of(s) == a;
                assert(0 <= s < n - 1 && table.mapped(s) && table.page_of(s) == a);
            }
            if exists|s: int| 0 <= s < n - 1 && #[trigger] table.mapped(s) && table.page_of(s) == a {
                let s = choose|s: int| 0 <= s < n - 1 && #[trigger] table.mapped(s) && table.page_of(s) == a;
                assert(0 <= s < n && table.mapped(s) && table.page_of(s) == a);
            }
        }
    }
}

/// Giving back the pages and the block of a table that owns them spares
/// every other table.
pub proof fn lemma_release_spares(table: PageTable, heap: Heap)
    requires
        table.owns_pages(heap),
    ensures
        spares(
            table.released(heap, SLOTS as nat).dealloc(table.base(), TABLE_BYTES, PAGE_SIZE),
            heap,
            table,
        ),
{
    let after = table.released(heap, SLOTS as nat).dealloc(table.base(), TABLE_BYTES, PAGE_SIZE);
    assert forall|other: PageTable| #[trigger]
        other.owns_pages(heap) && table.apart_from(other) implies other.owns_pages(after) by {
        lemma_released_live(table, heap, SLOTS as nat, other.base());
        assert(heap.live.contains_key(other.base()));
        assert(heap.live.contains_key(table.base()));
        assert(after.live.contains_pair(other.base(), TABLE_CLASS as nat)) by {
            if exists|s: int|
                0 <= s < SLOTS && #[trigger] table.mapped(s) && table.page_of(s) == other.base() {
                let s = choose|s: int|
                    0 <= s < SLOTS && #[trigger] table.mapped(s) && table.page_of(s)
                        == other.base();
                assert(heap.live.contains_pair(table.page_of(s), PAGE_CLASS as nat));
            }
        }
        assert forall|t: int| #[trigger] other.mapped(t) implies other.page_of(t) % PAGE_SIZE == 0
            && after.live.contains_pair(other.page_of(t), PAGE_CLASS as nat) by {
            let a = other.page_of(t);
            lemma_released_live(table, heap, SLOTS as nat, a);
            assert(heap.live.contains_pair(a, PAGE_CLASS as nat));
            if exists|s: int| 0 <= s < SLOTS && #[trigger] table.mapped(s) && table.page_of(s) == a {
                let s = choose|s: int|
                    0 <= s < SLOTS && #[trigger] table.mapped(s) && table.page_of(s) == a;
                assert(table.mapped(s) && other.mapped(t));
            }
        }
    }
}

/// Giving back the pages of positions that map nothing changes nothing.
pub proof fn lemma_released_unmapped(table: PageTable, heap: Heap, n: nat)
    requires
        forall|s: int| 0 <= s < n ==> !#[trigger] table.mapped(s),
    ensures
        table.released(heap, n) == heap,
    decreases n,
{
    if n > 0 {
        lemma_released_unmapped(table, heap, (n - 1) as nat);
        assert(!table.mapped(n - 1));
    }
}

/// A table without mappings owns its pages in every heap in which the
/// block it stands in is live.
pub proof fn lemma_blank_owns(table: PageTable, perm: u64, heap: Heap)
    requires
        table.is_blank(perm),
        heap.live.contains_pair(table.base(), TABLE_CLASS as nat),
    ensures
        table.owns_pages(heap),
        forall|s: int| 0 <= s < SLOTS ==> !#[trigger] table.mapped(s),
{
    assert forall|s: int| 0 <= s < SLOTS implies !#[trigger] table.mapped(s) by {
        assert(table.slot(s) == 0);
    }
}

/// The level 3 descriptor of the kernel table for page `slot` of the
/// window, where main memory has `ram_pages` pages: device memory in the
/// peripheral range, normal memory below the end of main memory, and no
/// mapping for the rest. Each page is mapped to itself.
pub open spec fn kernel_slot(slot: int, ram_pages: int) -> u64 {
    if IO_BASE / PAGE_SIZE <= slot < IO_BASE_END / PAGE_SIZE {
        descriptor((slot * PAGE_SIZE) as u64, PERM_KERN_RW, ATTR_DEVICE, SH_OUTER)
    } else if slot < ram_pages {
        descriptor((slot * PAGE_SIZE) as u64, PERM_KERN_RW, ATTR_NORMAL, SH_INNER)
    } else {
        0
    }
}

/// The translation table of the kernel.
pub struct KernPageTable(Box<PageTable>);

impl View for KernPageTable {
    type V = PageTable;

    closed spec fn view(&self) -> PageTable {
        *self.0
    }
}

impl KernPageTable {
    /// Builds the kernel table in a block from `allocator`: main memory
    /// from address 0 to `end_of_ram`, rounded down to a page, is mapped
    /// to itself as normal, inner shareable memory, and the peripherals
    /// from `IO_BASE` to `IO_BASE_END` as outer shareable device memory,
    /// both for the kernel alone to read and write.
    ///
    /// The result is `None` if the allocator has no block for the tables.
    pub fn new(allocator: &mut Allocator, end_of_ram: u64) -> (r: Option<KernPageTable>)
        requires
            old(allocator)@.inv(),
            old(allocator)@.end <= ADDR_LIMIT,
            end_of_ram <= USER_MAX_VM_SIZE,
        ensures
            final(allocator)@ == old(allocator)@.allocate(TABLE_BYTES, PAGE_SIZE).0,
            final(allocator)@.inv(),
            final(allocator)@.keeps_live(old(allocator)@),
            match old(allocator)@.allocate(TABLE_BYTES, PAGE_SIZE).1 {
                None => r is None,
                Some(base) => {
                    &&& r matches Some(t)
                    &&& t@.wf()
                    &&& t@.base() == base
                    &&& t@.is_blank_l2(PERM_KERN_RW)
                    &&& forall|s: int|
                        0 <= s < SLOTS ==> #[trigger] t@.slot(s) == kernel_slot(
                            s,
                            end_of_ram as int / PAGE_SIZE as int,
                        )
                },
            },
    {
        let perm = PERM_KERN_RW;
        let mut table = match PageTable::from_allocator(perm, allocator) {
            None => {
                return None;
            },
            Some(t) => t,
        };
        let end = end_of_ram - end_of_ram % PAGE_SIZE;
        let ghost ram_pages = end_of_ram as int / PAGE_SIZE as int;
        let ghost blank = *table;

        let mut addr: u64 = 0;
        while addr < end
            invariant
                perm == PERM_KERN_RW,
                end == ram_pages * PAGE_SIZE,
                end <= USER_MAX_VM_SIZE,
                addr % PAGE_SIZE == 0,
                addr <= end,
                table.l2 == blank.l2,
                table.l3[0].addr == blank.l3[0].addr,
                table.l3[1].addr == blank.l3[1].addr,
                forall|s: int|
                    0 <= s < SLOTS ==> #[trigger] table.slot(s) == (if s < addr / PAGE_SIZE {
                        descriptor((s * PAGE_SIZE) as u64, PERM_KERN_RW, ATTR_NORMAL, SH_INNER)
                    } else {
                        0
                    }),
            decreases end - addr,
        {
            proof {
                lemma_kernel_slot(addr);
            }
            let ghost prev = *table;
            let entry = RawL3Entry::page(addr, perm, ATTR_NORMAL, SH_INNER);
            table.set_entry(VirtualAddr(addr), entry);
            proof {
                let q = addr as int / PAGE_SIZE as int;
                assert(q * PAGE_SIZE == addr);
                assert((addr + PAGE_SIZE) / PAGE_SIZE as int == q + 1);
                assert forall|s: int| 0 <= s < SLOTS implies #[trigger] table.slot(s) == (if s < q
                    + 1 {
                    descriptor((s * PAGE_SIZE) as u64, PERM_KERN_RW, ATTR_NORMAL, SH_INNER)
                } else {
                    0
                }) by {
                    if s != q {
                        assert(table.slot(s) == prev.slot(s));
                    } else {
                        assert(slot_of(addr) == q);
                        assert(table.slot(q) == entry.0);
                        assert((s * PAGE_SIZE) as u64 == addr);
                    }
                }
            }
            addr = addr + PAGE_SIZE;
        }

        let mut addr: u64 = IO_BASE;
        while addr < IO_BASE_END
            invariant
                perm == PERM_KERN_RW,
                end == ram_pages * PAGE_SIZE,
                addr % PAGE_SIZE == 0,
                IO_BASE <= addr <= IO_BASE_END,
                table.l2 == blank.l2,
                table.l3[0].addr == blank.l3[0].addr,
                table.l3[1].addr == blank.l3[1].addr,
                forall|s: int|
                    0 <= s < SLOTS ==> #[trigger] table.slot(s) == (if IO_BASE / PAGE_SIZE <= s
                        < addr / PAGE_SIZE {
                        descriptor((s * PAGE_SIZE) as u64, PERM_KERN_RW, ATTR_DEVICE, SH_OUTER)
                    } else if s < ram_pages {
                        descriptor((s * PAGE_SIZE) as u64, PERM_KERN_RW, ATTR_NORMAL, SH_INNER)
                    } else {
                        0
                    }),
            decreases IO_BASE_END - addr,
        {
            proof {
                lemma_kernel_slot(addr);
            }
            let ghost prev = *table;
            let entry = RawL3Entry::page(addr, perm, ATTR_DEVICE, SH_OUTER);
            table.set_entry(VirtualAddr(addr), entry);
            proof {
                let q = addr as int / PAGE_SIZE as int;
                assert(q * PAGE_SIZE == addr);
                assert((addr + PAGE_SIZE) / PAGE_SIZE as int == q + 1);
                assert forall|s: int| 0 <= s < SLOTS implies #[trigger] table.slot(s) == (if IO_BASE
                    / PAGE_SIZE <= s < q + 1 {
                    descriptor((s * PAGE_SIZE) as u64, PERM_KERN_RW, ATTR_DEVICE, SH_OUTER)
                } else if s < ram_pages {
                    descriptor((s * PAGE_SIZE) as u64, PERM_KERN_RW, ATTR_NORMAL, SH_INNER)
                } else {
                    0
                }) by {
                    if s != q {
                        assert(table.slot(s) == prev.slot(s));
                    } else {
                        assert(slot_of(addr) == q);
                        assert(table.slot(q) == entry.0);
                        assert((s * PAGE_SIZE) as u64 == addr);
                    }
                }
            }
            addr = addr + PAGE_SIZE;
        }
        Some(KernPageTable(table))
    }

    /// The tables, for reading.
    pub fn table(&self) -> (r: &PageTable)
        ensures
            *r == self@,
    {
        &self.0
    }

    /// The physical address of the tables.
    pub fn get_baddr(&self) -> (r: PhysicalAddr)
        ensures
            r.0 == self@.base(),
    {
        self.0.get_baddr()
    }

    /// The level 3 entry for the page at `va`.
    pub fn get_entry(&self, va: VirtualAddr) -> (r: L3Entry)
        requires
            locatable(va.0),
        ensures
            r.0.0 == self@.slot(slot_of(va.0)),
    {
        self.0.get_entry(va)
    }
}

/// What a user page may be used for.
#[derive(Debug, Copy, Clone, PartialEq, Eq, Structural)]
pub enum PagePerm {
    RW,
    RO,
    RWX,
}

/// The translation table of a process.
pub struct UserPageTable(Box<PageTable>);

impl View for UserPageTable {
    type V = PageTable;

    closed spec fn view(&self) -> PageTable {
        *self.0
    }
}

impl UserPageTable {
    /// Builds an empty user table in a block from `allocator`; the level 2
    /// entries allow access from user level.
    ///
    /// The result is `None` if the allocator has no block for the tables.
    pub fn new(allocator: &mut Allocator) -> (r: Option<UserPageTable>)
        requires
            old(allocator)@.inv(),
            old(allocator)@.end <= ADDR_LIMIT,
        ensures
            final(allocator)@ == old(allocator)@.allocate(TABLE_BYTES, PAGE_SIZE).0,
            final(allocator)@.inv(),
            match old(allocator)@.allocate(TABLE_BYTES, PAGE_SIZE).1 {
                None => r is None,
                Some(base) => {
                    &&& r matches Some(t)
                    &&& t@.wf()
                    &&& t@.base() == base
                    &&& t@.is_blank(PERM_USER_RW)
                    &&& t@.owns_pages(final(allocator)@)
                    &&& t@.fresh_in(old(allocator)@)
                },
            },
            final(allocator)@.keeps_live(old(allocator)@),
            final(allocator)@.end == old(allocator)@.end,
    {
        match PageTable::from_allocator(PERM_USER_RW, allocator) {
            None => None,
            Some(table) => {
                proof {
                    lemma_blank_owns(*table, PERM_USER_RW, allocator@);
                }
                Some(UserPageTable(table))
            },
        }
    }

    /// Maps the page at `va` to a page from `allocator` and returns the
    /// address of that page. The mapping lets user code read and write the
    /// page as normal, inner shareable memory.
    ///
    /// The result is `None`, and the table unchanged, if the allocator has
    /// no page. Running out of memory is not fatal here:
    /// it is handed to the caller, so that a load can give the process up
    /// and report `NoMemory` while the kernel goes on.
    pub fn allocate(&mut self, va: VirtualAddr, _perm: PagePerm, allocator: &mut Allocator) -> (r:
        Option<PhysicalAddr>)
        requires
            old(self)@.wf(),
            va.0 >= USER_IMG_BASE,
            va.0 % PAGE_SIZE == 0,
            !old(self)@.mapped(slot_of(va.0)),
            old(allocator)@.inv(),
            old(allocator)@.end <= ADDR_LIMIT,
        ensures
            final(self)@.wf(),
            final(self)@.base() == old(self)@.base(),
            final(allocator)@ == old(allocator)@.allocate(PAGE_SIZE, PAGE_SIZE).0,
            final(allocator)@.inv(),
            match old(allocator)@.allocate(PAGE_SIZE, PAGE_SIZE).1 {
                None => r is None && final(self)@ == old(self)@,
                Some(page) => {
                    &&& r == Some(PhysicalAddr(page))
                    &&& page % PAGE_SIZE == 0
                    &&& !old(allocator)@.live.contains_key(page)
                    &&& final(self)@.slot(slot_of(va.0)) == descriptor(
                        page,
                        PERM_USER_RW,
                        ATTR_NORMAL,
                        SH_INNER,
                    )
                    &&& final(self)@.mapped(slot_of(va.0))
                    &&& final(self)@.page_of(slot_of(va.0)) == page
                    &&& final(self)@.same_but(old(self)@, slot_of(va.0))
                },
            },
            old(self)@.owns_pages(old(allocator)@) ==> final(self)@.owns_pages(final(allocator)@),
            final(self)@.grown_from(old(self)@, old(allocator)@),
            final(allocator)@.keeps_live(old(allocator)@),
            final(allocator)@.end == old(allocator)@.end,
    {
        proof {
            lemma_user_slot(va.0);
            lemma_classes();
            broadcast use lemma_pow2_pos;

        }
        let ptr = allocator.allocate(Page::SIZE, Page::ALIGN);
        match ptr {
            None => None,
            Some(page) => {
                proof {
                    lemma_descriptor_fields(page, PERM_USER_RW, ATTR_NORMAL, SH_INNER);
                    assert(allocator@.live.contains_pair(page, PAGE_CLASS as nat));
                    assert(allocator@.below_mark(page, PAGE_CLASS as nat));
                }
                let entry = RawL3Entry::page(page, PERM_USER_RW, ATTR_NORMAL, SH_INNER);
                self.0.set_entry(va, entry);
                proof {
                    let slot = slot_of(va.0);
                    assert forall|s: int| #[trigger] self@.mapped(s) implies (old(self)@.mapped(s)
                        && self@.page_of(s) == old(self)@.page_of(s))
                        || !old(allocator)@.live.contains_key(self@.page_of(s)) by {
                        if s != slot {
                            assert(self@.slot(s) == old(self)@.slot(s));
                        }
                    }
                    if old(self)@.owns_pages(old(allocator)@) {
                        assert forall|s: int| #[trigger] self@.mapped(s) implies self@.page_of(s)
                            % PAGE_SIZE == 0 && allocator@.live.contains_pair(
                            self@.page_of(s),
                            PAGE_CLASS as nat,
                        ) by {
                            if s != slot {
                                assert(self@.slot(s) == old(self)@.slot(s));
                                assert(old(self)@.mapped(s));
                            }
                        }
                        assert forall|s: int, t: int|
                            #![trigger self@.mapped(s), self@.mapped(t)]
                            self@.mapped(s) && self@.mapped(t) && s != t implies self@.page_of(s)
                            != self@.page_of(t) by {
                            if s != slot {
                                assert(self@.slot(s) == old(self)@.slot(s));
                                assert(old(self)@.mapped(s));
                            }
                            if t != slot {
                                assert(self@.slot(t) == old(self)@.slot(t));
                                assert(old(self)@.mapped(t));
                            }
                        }
                    }
                }
                Some(PhysicalAddr(page))
            },
        }
    }

    /// Gives every mapped page, and then the block of the tables, back to
    /// `allocator`.
    pub fn release(self, allocator: &mut Allocator)
        requires
            self@.wf(),
            old(allocator)@.well_formed(),
        ensures
            final(allocator)@ == self@.released(old(allocator)@, SLOTS as nat).dealloc(
                self@.base(),
                TABLE_BYTES,
                PAGE_SIZE,
            ),
            final(allocator)@.well_formed(),
            old(allocator)@.inv() && self@.owns_pages(old(allocator)@) ==> final(allocator)@.inv(),
            self@.owns_pages(old(allocator)@) ==> spares(final(allocator)@, old(allocator)@, self@),
            final(allocator)@.end == old(allocator)@.end,
    {
        proof {
            lemma_classes();
            if self@.owns_pages(allocator@) {
                lemma_release_spares(self@, allocator@);
            }
        }
        let ghost start = allocator@;
        let ghost owned = start.inv() && self@.owns_pages(start);
        let mut s: usize = 0;
        while s < SLOTS
            invariant
                s <= SLOTS,
                allocator@.well_formed(),
                allocator@.end == start.end,
                allocator@ == self@.released(start, s as nat),
                owned ==> allocator@.inv(),
                owned ==> allocator@.live.contains_pair(self@.base(), TABLE_CLASS as nat),
                owned ==> self@.owns_pages(start),
                owned ==> forall|t: int| #[trigger]
                    self@.mapped(t) && t >= s ==> allocator@.live.contains_pair(
                        self@.page_of(t),
                        PAGE_CLASS as nat,
                    ),
                class_of(PAGE_SIZE, PAGE_SIZE) == PAGE_CLASS,
                is_pow2(PAGE_SIZE as int),
            decreases SLOTS - s,
        {
            let entry = self.0.l3[s / ENTRIES].entries[s % ENTRIES];
            let ghost before = allocator@;
            match entry.get_page_addr() {
                Some(addr) => {
                    assert(self@.mapped(s as int));
                    allocator.dealloc(addr.0, Page::SIZE, Page::ALIGN);
                    proof {
                        if owned {
                            assert forall|t: int| #[trigger]
                                self@.mapped(t) && t >= s + 1 implies allocator@.live.contains_pair(
                                self@.page_of(t),
                                PAGE_CLASS as nat,
                            ) by {
                                assert(self@.mapped(s as int));
                                assert(self@.page_of(t) != self@.page_of(s as int));
                                assert(before.live.contains_pair(
                                    self@.page_of(t),
                                    PAGE_CLASS as nat,
                                ));
                            }
                            assert(before.live.contains_pair(self@.base(), TABLE_CLASS as nat));
                            assert(before.live.contains_pair(addr.0, PAGE_CLASS as nat));
                        }
                    }
                },
                None => {
                    assert(!self@.mapped(s as int));
                },
            }
            s = s + 1;
        }
        allocator.dealloc(self.0.get_baddr().0, TABLE_BYTES, Page::ALIGN);
    }

    /// The tables, for reading.
    pub fn table(&self) -> (r: &PageTable)
        ensures
            *r == self@,
    {
        &self.0
    }

    /// The physical address of the tables.
    pub fn get_baddr(&self) -> (r: PhysicalAddr)
        ensures
            r.0 == self@.base(),
    {
        self.0.get_baddr()
    }

    /// The level 3 entry for the page at `va`.
    pub fn get_entry(&self, va: VirtualAddr) -> (r: L3Entry)
        requires
            locatable(va.0),
        ensures
            r.0.0 == self@.slot(slot_of(va.0)),
    {
        self.0.get_entry(va)
    }
}

} // verus!
