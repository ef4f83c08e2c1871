//! A process: a saved context, an address space and a scheduling state.

use vstd::prelude::*;
use crate::allocator::bin::{Allocator, Heap};
use crate::ioerr::ErrorKind;
use crate::kernel_api::{OsError, OsResult};
use crate::param::{PAGE_SIZE, USER_IMG_BASE, USER_STACK_BASE, USER_STACK_TOP};
use crate::process::state::{Event, State};
use crate::traps::frame::{TrapFrame, REG_ARG0, REG_STATUS};
use crate::vm::address::{PhysicalAddr, VirtualAddr};
use crate::vm::entry::ADDR_LIMIT;
use crate::vm::pagetable::{
    PagePerm, PageTable, UserPageTable, SLOTS, TABLE_BYTES, lemma_blank_owns, lemma_fresh_apart,
    lemma_grown_chain, lemma_grown_fresh, lemma_kept_spares, lemma_kept_spares_all,
    lemma_released_unmapped, lemma_spares_chain, lemma_user_slot, slot_of, spares, spares_all,
};

verus! {

/// The identifier of a process.
pub type Id = u64;

/// Saved program status of a new process: user level with its own stack
/// pointer, with FIQ, SError and debug exceptions masked and IRQ open.
pub const SPSR_INITIAL: u64 = 0x340;

/// A process.
pub struct Process {
    /// The saved trap frame of the process.
    pub context: Box<TrapFrame>,
    /// The translation table of the process.
    pub vmap: UserPageTable,
    /// The scheduling state of the process.
    pub state: State,
}

/// The context, the state and the translation table of a process.
pub struct ProcessView {
    pub context: TrapFrame,
    pub state: State,
    pub vmap: PageTable,
}

impl ProcessView {
    /// The identifier of the process.
    pub open spec fn id(self) -> u64 {
        self.context.tpidr
    }

    /// The process can be scheduled at time `now`: it is ready, or the
    /// event that it waits for has come about.
    pub open spec fn ready_at(self, now: u64) -> bool {
        match self.state {
            State::Ready => true,
            State::Waiting(event) => event.arrived(now),
            _ => false,
        }
    }

    /// The process after it was asked at time `now` whether it can be
    /// scheduled. A process whose sleep has ended becomes ready, and finds
    /// the milliseconds that went by in its first register and the status
    /// of success in its status register. Any other process is unchanged.
    pub open spec fn polled(self, now: u64) -> ProcessView {
        match self.state {
            State::Waiting(event) => if event.arrived(now) {
                ProcessView {
                    context: self.context.with_xreg(
                        REG_ARG0 as int,
                        event.elapsed_ms(now),
                    ).with_xreg(REG_STATUS as int, OsError::Success.code_of()),
                    state: State::Ready,
                    ..self
                }
            } else {
                self
            },
            _ => self,
        }
    }
}

impl View for Process {
    type V = ProcessView;

    open spec fn view(&self) -> ProcessView {
        ProcessView { context: *self.context, state: self.state, vmap: self.vmap@ }
    }
}

/// A process whose sleep of `ms` milliseconds has ended becomes ready when
/// it is asked, and then finds in its first register a number of
/// milliseconds that is no less than `ms`, and success as its status.
pub proof fn lemma_sleeper_wakes(p: ProcessView, start: u64, ms: u32, now: u64)
    requires
        p.state == State::Waiting(Event::Sleep { start, ms }),
        p.ready_at(now),
    ensures
        p.polled(now).state == State::Ready,
        p.polled(now).context.xregs[REG_ARG0 as int] >= ms,
        p.polled(now).context.xregs[REG_ARG0 as int] == (now - start) / 1000,
        p.polled(now).context.xregs[REG_STATUS as int] == OsError::Success.code_of(),
        p.polled(now).context.tpidr == p.context.tpidr,
{
    broadcast use vstd::array::group_array_axioms;

}

/// `tf` is the context of a process that was just made: execution starts
/// at the image base with the stack pointer at the top of the stack, the
/// translation bases are those of the kernel table and of the table of the
/// process, and every other register is zero.
pub open spec fn is_initial_context(tf: TrapFrame, kern_baddr: u64, user_baddr: u64) -> bool {
    &&& tf.ttbr@ == seq![kern_baddr, user_baddr]
    &&& tf.elr == USER_IMG_BASE
    &&& tf.spsr == SPSR_INITIAL
    &&& tf.sp == USER_STACK_TOP
    &&& tf.tpidr == 0
    &&& tf.qregs == TrapFrame::zeroed().qregs
    &&& tf.xregs == TrapFrame::zeroed().xregs
}

impl Process {
    /// Creates a process with an empty address space whose tables come from
    /// `allocator`, a context to start from, and the state `Ready`.
    /// `kern_baddr` is the address of the kernel table.
    ///
    /// The result is `NoMemory` if the allocator has no block for the
    /// tables.
    pub fn new(kern_baddr: PhysicalAddr, allocator: &mut Allocator) -> (r: OsResult<Process>)
        requires
            old(allocator)@.inv(),
            old(allocator)@.end <= ADDR_LIMIT,
        ensures
            final(allocator)@ == old(allocator)@.allocate(TABLE_BYTES, PAGE_SIZE).0,
            final(allocator)@.inv(),
            match old(allocator)@.allocate(TABLE_BYTES, PAGE_SIZE).1 {
                None => r == Err::<Process, OsError>(OsError::NoMemory),
                Some(base) => {
                    &&& r matches Ok(p)
                    &&& p@.state == State::Ready
                    &&& is_initial_context(p@.context, kern_baddr.0, base)
                    &&& p@.vmap.wf()
                    &&& p@.vmap.base() == base
                    &&& p@.vmap.is_blank(crate::vm::entry::PERM_USER_RW)
                    &&& p@.vmap.owns_pages(final(allocator)@)
                    &&& p@.vmap.fresh_in(old(allocator)@)
                },
            },
            final(allocator)@.keeps_live(old(allocator)@),
            final(allocator)@.end == old(allocator)@.end,
    {
        let vmap = match UserPageTable::new(allocator) {
            None => {
                return Err(OsError::NoMemory);
            },
            Some(vmap) => vmap,
        };
        let mut context = Box::new(TrapFrame::default());
        context.sp = Process::get_stack_top().as_u64();
        context.elr = Process::get_image_base().as_u64();
        context.ttbr[0] = kern_baddr.as_u64();
        context.ttbr[1] = vmap.get_baddr().as_u64();
        context.spsr = SPSR_INITIAL;
        assert(context.ttbr@ =~= seq![kern_baddr.0, vmap@.base()]);
        Ok(Process { context, vmap, state: State::Ready })
    }

    /// Ends the process: gives its pages and its tables back to
    /// `allocator`.
    pub fn release(self, allocator: &mut Allocator)
        requires
            self@.vmap.wf(),
            old(allocator)@.well_formed(),
        ensures
            final(allocator)@ == self@.vmap.released(old(allocator)@, SLOTS as nat).dealloc(
                self@.vmap.base(),
                TABLE_BYTES,
                PAGE_SIZE,
            ),
            final(allocator)@.well_formed(),
            old(allocator)@.inv() && self@.vmap.owns_pages(old(allocator)@) ==> final(allocator)@.inv(),
            self@.vmap.owns_pages(old(allocator)@) ==> spares(
                final(allocator)@,
                old(allocator)@,
                self@.vmap,
            ),
            final(allocator)@.end == old(allocator)@.end,
    {
        self.vmap.release(allocator);
    }

    /// The lowest address of the image of a user program.
    pub fn get_image_base() -> (r: VirtualAddr)
        ensures
            r.0 == USER_IMG_BASE,
    {
        VirtualAddr(USER_IMG_BASE)
    }

    /// The lowest address of the stack of a user program.
    pub fn get_stack_base() -> (r: VirtualAddr)
        ensures
            r.0 == USER_STACK_BASE,
    {
        VirtualAddr(USER_STACK_BASE)
    }

    /// The top of the stack of a user program.
    pub fn get_stack_top() -> (r: VirtualAddr)
        ensures
            r.0 == USER_STACK_TOP,
    {
        VirtualAddr(USER_STACK_TOP)
    }

    /// Whether the process could be scheduled at time `now`; the process
    /// stays as it is.
    pub fn is_due(&self, now: u64) -> (r: bool)
        ensures
            r == self@.ready_at(now),
    {
        match self.state {
            State::Ready => true,
            State::Waiting(event) => event.has_arrived(now),
            _ => false,
        }
    }

    /// Whether the process can be scheduled at time `now`, in microseconds
    /// since boot. A process that waited for an event that has come about
    /// becomes ready, and is handed the result of its wait.
    pub fn is_ready(&mut self, now: u64) -> (r: bool)
        ensures
            r == old(self)@.ready_at(now),
            final(self)@ == old(self)@.polled(now),
    {
        match self.state {
            State::Ready => true,
            State::Waiting(event) => {
                if event.has_arrived(now) {
                    let elapsed = event.elapsed(now);
                    self.context.set_xreg(REG_ARG0, elapsed);
                    self.context.set_xreg(REG_STATUS, OsError::Success.code());
                    self.state = State::Ready;
                    true
                } else {
                    false
                }
            },
            _ => false,
        }
    }
}

/// What a read from the file of a program gave.
#[derive(Debug, PartialEq, Eq)]
pub enum ReadOutcome {
    /// These bytes were read; none at the end of the file.
    Read(Vec<u8>),
    /// The read was interrupted and is to be tried again.
    Interrupted,
    /// The read failed.
    Failed(ErrorKind),
}

/// Position of the first page of the stack among the pages of the window.
pub const STACK_SLOT: usize = 16367;

/// Number of pages of the stack.
pub const STACK_PAGES: usize = 16;

/// The heap after `n` pages were taken from it one after the other, or
/// `None` if it runs out before.
pub open spec fn after_pages(heap: Heap, n: nat) -> Option<Heap>
    decreases n,
{
    if n == 0 {
        Some(heap)
    } else {
        match after_pages(heap, (n - 1) as nat) {
            None => None,
            Some(before) => match before.allocate(PAGE_SIZE, PAGE_SIZE).1 {
                None => None,
                Some(_) => Some(before.allocate(PAGE_SIZE, PAGE_SIZE).0),
            },
        }
    }
}

/// A heap that runs out within `m` pages runs out within any larger
/// number of pages.
pub proof fn lemma_after_pages_none(heap: Heap, m: nat, n: nat)
    requires
        m <= n,
        after_pages(heap, m) is None,
    ensures
        after_pages(heap, n) is None,
    decreases n - m,
{
    if m < n {
        lemma_after_pages_none(heap, m, (n - 1) as nat);
    }
}

/// A program that is being loaded: a process whose image is read from a
/// file page by page, from the image base upwards.
pub struct Load {
    process: Process,
    addr: u64,
    page: PhysicalAddr,
    filled: u64,
    total: u64,
    image: Ghost<Seq<u8>>,
}

/// The state of a load.
pub struct LoadView {
    /// The process that is being made.
    pub process: ProcessView,
    /// The virtual address of the page that is being filled.
    pub addr: u64,
    /// The physical address of that page.
    pub page: u64,
    /// The number of bytes of that page that are filled.
    pub filled: u64,
    /// The number of bytes that were read so far.
    pub total: u64,
    /// The bytes that were read so far, in the order of the reads: the
    /// image of the program, which begins at the image base.
    pub image: Seq<u8>,
}

impl LoadView {
    /// The page that is being filled is mapped and lies between the image
    /// base and the stack; the pages from the image base up to it are the
    /// ones that are mapped; and the next byte goes to the address that is
    /// as far from the image base as bytes were read.
    pub open spec fn wf(self) -> bool {
        &&& self.process.vmap.wf()
        &&& USER_IMG_BASE <= self.addr < USER_STACK_BASE
        &&& self.addr % PAGE_SIZE == 0
        &&& self.filled < PAGE_SIZE
        &&& self.addr + self.filled == USER_IMG_BASE + self.total
        &&& self.image.len() == self.total
        &&& forall|s: int|
            0 <= s < SLOTS ==> (#[trigger] self.process.vmap.mapped(s) <==> s <= slot_of(self.addr))
        &&& self.process.vmap.page_of(slot_of(self.addr)) == self.page
    }

    /// The number of bytes that the page that is being filled has room for.
    pub open spec fn room(self) -> int {
        PAGE_SIZE - self.filled
    }

    /// The user address of byte `i` of the image.
    pub open spec fn address_of(i: int) -> int {
        USER_IMG_BASE + i
    }

    /// The user address at which the page of byte `i` of the image begins.
    pub open spec fn page_address_of(i: int) -> int {
        USER_IMG_BASE + i - i % (PAGE_SIZE as int)
    }

    /// The byte that belongs at the user address `va`, which lies in the
    /// image: the byte of the image that is as far from its start as `va`
    /// is from the image base.
    pub open spec fn byte_at(self, va: int) -> u8 {
        self.image[va - USER_IMG_BASE]
    }
}

/// Where the image of a program lies: byte `i` of what was read belongs at
/// the user address `USER_IMG_BASE + i`. The page of that address is
/// mapped, and so is every page from the image base up to it; the byte has
/// the offset `i % PAGE_SIZE` in its page. The bytes of the next read
/// belong at the target: in the page that is being filled, from the offset
/// on up to which it is filled.
pub proof fn lemma_image_in_place(load: LoadView, i: int)
    requires
        load.wf(),
        0 <= i < load.total,
    ensures
        load.byte_at(LoadView::address_of(i)) == load.image[i],
        USER_IMG_BASE <= LoadView::page_address_of(i) <= load.addr,
        LoadView::page_address_of(i) % (PAGE_SIZE as int) == 0,
        LoadView::address_of(i) == LoadView::page_address_of(i) + i % (PAGE_SIZE as int),
        LoadView::address_of(i) < USER_STACK_BASE,
        load.process.vmap.mapped(slot_of(LoadView::page_address_of(i) as u64)),
        forall|s: int|
            0 <= s <= slot_of(LoadView::page_address_of(i) as u64)
                ==> #[trigger] load.process.vmap.mapped(s),
        load.filled == load.total % PAGE_SIZE,
        load.addr == LoadView::page_address_of(load.total as int),
        load.process.vmap.page_of(slot_of(load.addr)) == load.page,
{
    let at = LoadView::page_address_of(i);
    assert(at == USER_IMG_BASE + 0x1_0000 * (i / 0x1_0000));
    assert(load.addr == USER_IMG_BASE + 0x1_0000 * (load.total as int / 0x1_0000));
    lemma_user_slot(at as u64);
    lemma_user_slot(load.addr);
    assert(slot_of(at as u64) <= slot_of(load.addr));
}

impl View for Load {
    type V = LoadView;

    closed spec fn view(&self) -> LoadView {
        LoadView {
            process: self.process@,
            addr: self.addr,
            page: self.page.0,
            filled: self.filled,
            total: self.total,
            image: self.image@,
        }
    }
}

/// What `Load::advance` does: the load `before` with the heap
/// `heap_before` becomes the load `after` with the heap `heap_after`, and
/// the result is `r`, when the read gave `outcome`.
pub open spec fn advanced(
    before: LoadView,
    heap_before: Heap,
    outcome: ReadOutcome,
    after: LoadView,
    heap_after: Heap,
    r: OsResult<bool>,
) -> bool {
    match outcome {
        ReadOutcome::Interrupted => r == Ok::<bool, OsError>(false) && after == before
            && heap_after == heap_before,
        ReadOutcome::Failed(kind) => r == Err::<bool, OsError>(OsError::of_io(kind))
            && after == before && heap_after == heap_before,
        ReadOutcome::Read(bytes) => if bytes@.len() == 0 {
            r == Ok::<bool, OsError>(true) && after == before && heap_after == heap_before
        } else if bytes@.len() < before.room() {
            &&& r == Ok::<bool, OsError>(false)
            &&& after == (LoadView {
                filled: (before.filled + bytes@.len()) as u64,
                total: (before.total + bytes@.len()) as u64,
                image: before.image + bytes@,
                ..before
            })
            &&& heap_after == heap_before
        } else if before.addr + PAGE_SIZE >= USER_STACK_BASE {
            r == Err::<bool, OsError>(OsError::NoVmSpace) && after == before
                && heap_after == heap_before
        } else {
            &&& heap_after == heap_before.allocate(PAGE_SIZE, PAGE_SIZE).0
            &&& match heap_before.allocate(PAGE_SIZE, PAGE_SIZE).1 {
                None => r == Err::<bool, OsError>(OsError::NoMemory) && after
                    == before,
                Some(page) => {
                    &&& r == Ok::<bool, OsError>(false)
                    &&& after.addr == before.addr + PAGE_SIZE
                    &&& after.page == page
                    &&& after.filled == 0
                    &&& after.total == before.total + bytes@.len()
                    &&& after.image == before.image + bytes@
                },
            }
        },
    }
}

impl Process {
    /// Begins to load a program: creates a process and maps the first page
    /// of its image. `kern_baddr` is the address of the kernel table.
    ///
    /// The result is `NoMemory` if the allocator has no block for the
    /// tables or no page; a block that was taken for the tables is then
    /// given back.
    pub fn load(kern_baddr: PhysicalAddr, allocator: &mut Allocator) -> (r: OsResult<Load>)
        requires
            old(allocator)@.inv(),
            old(allocator)@.end <= ADDR_LIMIT,
        ensures
            final(allocator)@.inv(),
            final(allocator)@.end == old(allocator)@.end,
            spares_all(final(allocator)@, old(allocator)@),
            r matches Ok(load) ==> load@.process.vmap.fresh_in(old(allocator)@),
            match old(allocator)@.allocate(TABLE_BYTES, PAGE_SIZE).1 {
                None => r matches Err(e) && e == OsError::NoMemory && final(allocator)@
                    == old(allocator)@.allocate(TABLE_BYTES, PAGE_SIZE).0,
                Some(base) => {
                    let tabled = old(allocator)@.allocate(TABLE_BYTES, PAGE_SIZE).0;
                    match tabled.allocate(PAGE_SIZE, PAGE_SIZE).1 {
                        None => r matches Err(e) && e == OsError::NoMemory && final(allocator)@
                            == tabled.allocate(PAGE_SIZE, PAGE_SIZE).0.dealloc(
                            base,
                            TABLE_BYTES,
                            PAGE_SIZE,
                        ),
                        Some(page) => {
                            &&& r matches Ok(load)
                            &&& final(allocator)@ == tabled.allocate(PAGE_SIZE, PAGE_SIZE).0
                            &&& load@.wf()
                            &&& load@.addr == USER_IMG_BASE
                            &&& load@.page == page
                            &&& load@.filled == 0
                            &&& load@.total == 0
                            &&& load@.image == Seq::<u8>::empty()
                            &&& load@.process.state == State::Ready
                            &&& is_initial_context(load@.process.context, kern_baddr.0, base)
                            &&& load@.process.vmap.base() == base
                            &&& load@.process.vmap.owns_pages(final(allocator)@)
                        },
                    }
                },
            },
    {
        let mut process = match Process::new(kern_baddr, allocator) {
            Err(e) => {
                proof {
                    lemma_kept_spares_all(allocator@, old(allocator)@);
                }
                return Err(e);
            },
            Ok(process) => process,
        };
        proof {
            lemma_user_slot(USER_IMG_BASE);
            lemma_blank_owns(process@.vmap, crate::vm::entry::PERM_USER_RW, allocator@);
        }
        let ghost blank = process@.vmap;
        let ghost tabled = allocator@;
        match process.vmap.allocate(VirtualAddr(USER_IMG_BASE), PagePerm::RWX, allocator) {
            None => {
                proof {
                    lemma_released_unmapped(process@.vmap, allocator@, SLOTS as nat);
                }
                let ghost held = allocator@;
                process.release(allocator);
                proof {
                    assert forall|other: PageTable| #[trigger]
                        other.owns_pages(old(allocator)@) implies other.owns_pages(allocator@) by {
                        crate::vm::pagetable::lemma_owns_kept(other, old(allocator)@, held);
                        lemma_fresh_apart(blank, old(allocator)@, other);
                    }
                }
                Err(OsError::NoMemory)
            },
            Some(page) => {
                let load = Load {
                    process,
                    addr: USER_IMG_BASE,
                    page,
                    filled: 0,
                    total: 0,
                    image: Ghost(Seq::empty()),
                };
                proof {
                    lemma_grown_fresh(load@.process.vmap, blank, tabled, old(allocator)@);
                    assert(allocator@.keeps_live(old(allocator)@));
                    lemma_kept_spares_all(allocator@, old(allocator)@);
                    assert forall|s: int| 0 <= s < SLOTS implies (
                    #[trigger] load@.process.vmap.mapped(s) <==> s <= slot_of(load@.addr)) by {
                        if s != 0 {
                            assert(load@.process.vmap.slot(s) == blank.slot(s));
                            assert(!blank.mapped(s));
                        }
                    }
                }
                Ok(load)
            },
        }
    }
}

impl Load {
    /// Where the next read goes: the physical address of the page that is
    /// being filled, the offset in it and the number of bytes it has room
    /// for.
    pub fn target(&self) -> (r: (PhysicalAddr, u64, u64))
        requires
            self@.wf(),
        ensures
            r.0.0 == self@.page,
            r.1 == self@.filled,
            r.2 == self@.room(),
    {
        (self.page, self.filled, PAGE_SIZE - self.filled)
    }

    /// The number of bytes that were read so far.
    pub fn total(&self) -> (r: u64)
        ensures
            r == self@.total,
    {
        self.total
    }

    /// Takes note of what a read gave, whose bytes belong at the target:
    /// they are the next bytes of the image. Returns `Ok(true)` once the end
    /// of the file was reached, and `Ok(false)` while more is to be read.
    ///
    /// An interrupted read changes nothing. A failed read gives the status
    /// for its kind. A read that fills the page maps the next page; that
    /// gives `NoVmSpace` if the next page would reach the stack, and
    /// `NoMemory` if the allocator has no page. After an error the load is
    /// as it was.
    pub fn advance(&mut self, outcome: ReadOutcome, allocator: &mut Allocator) -> (r: OsResult<bool>)
        requires
            old(self)@.wf(),
            old(allocator)@.inv(),
            old(allocator)@.end <= ADDR_LIMIT,
            outcome matches ReadOutcome::Read(bytes) ==> bytes@.len() <= old(self)@.room(),
        ensures
            final(self)@.wf(),
            final(allocator)@.inv(),
            final(self)@.process.context == old(self)@.process.context,
            final(self)@.process.state == old(self)@.process.state,
            final(self)@.process.vmap.base() == old(self)@.process.vmap.base(),
            old(self)@.process.vmap.owns_pages(old(allocator)@)
                ==> final(self)@.process.vmap.owns_pages(final(allocator)@),
            final(self)@.process.vmap.grown_from(old(self)@.process.vmap, old(allocator)@),
            final(allocator)@.keeps_live(old(allocator)@),
            final(allocator)@.end == old(allocator)@.end,
            forall|s: int|
                0 <= s <= slot_of(old(self)@.addr) ==> #[trigger] final(self)@.process.vmap.slot(s)
                    == old(self)@.process.vmap.slot(s),
            advanced(
                old(self)@,
                old(allocator)@,
                outcome,
                final(self)@,
                final(allocator)@,
                r,
            ),
    {
        match outcome {
            ReadOutcome::Interrupted => Ok(false),
            ReadOutcome::Failed(kind) => Err(OsError::from(kind)),
            ReadOutcome::Read(bytes) => {
                let n = bytes.len() as u64;
                if n == 0 {
                    return Ok(true);
                }
                if n < PAGE_SIZE - self.filled {
                    self.filled = self.filled + n;
                    self.total = self.total + n;
                    self.image = Ghost(self.image@ + bytes@);
                    return Ok(false);
                }
                if self.addr >= USER_STACK_BASE - PAGE_SIZE {
                    return Err(OsError::NoVmSpace);
                }
                let next = self.addr + PAGE_SIZE;
                proof {
                    lemma_user_slot(self.addr);
                    lemma_user_slot(next);
                }
                let ghost before = self.process@.vmap;
                match self.process.vmap.allocate(VirtualAddr(next), PagePerm::RWX, allocator) {
                    None => Err(OsError::NoMemory),
                    Some(page) => {
                        self.addr = next;
                        self.page = page;
                        self.filled = 0;
                        self.total = self.total + n;
                        self.image = Ghost(self.image@ + bytes@);
                        proof {
                            let slot = slot_of(next);
                            assert forall|s: int| 0 <= s < SLOTS implies (
                            #[trigger] self@.process.vmap.mapped(s) <==> s <= slot) by {
                                if s != slot {
                                    assert(self@.process.vmap.slot(s) == before.slot(s));
                                    assert(before.mapped(s) <==> s <= slot - 1);
                                }
                            }
                            assert forall|s: int| 0 <= s <= slot - 1 implies
                                #[trigger] self@.process.vmap.slot(s) == before.slot(s) by {}
                        }
                        Ok(false)
                    },
                }
            },
        }
    }

    /// Gives the load up: the pages and the tables of the process go back
    /// to `allocator`.
    pub fn abandon(self, allocator: &mut Allocator)
        requires
            self@.wf(),
            old(allocator)@.well_formed(),
        ensures
            final(allocator)@ == self@.process.vmap.released(old(allocator)@, SLOTS as nat).dealloc(
                self@.process.vmap.base(),
                TABLE_BYTES,
                PAGE_SIZE,
            ),
            final(allocator)@.well_formed(),
            old(allocator)@.inv() && self@.process.vmap.owns_pages(old(allocator)@)
                ==> final(allocator)@.inv(),
            self@.process.vmap.owns_pages(old(allocator)@) ==> spares(
                final(allocator)@,
                old(allocator)@,
                self@.process.vmap,
            ),
            final(allocator)@.end == old(allocator)@.end,
    {
        self.process.release(allocator);
    }

    /// Ends the load: maps the pages of the stack and hands the process
    /// over.
    ///
    /// The result is `NoMemory` if the allocator runs out of pages; the
    /// pages and the tables of the process are then given back.
    pub fn finish(self, allocator: &mut Allocator) -> (r: OsResult<Process>)
        requires
            self@.wf(),
            self@.process.vmap.owns_pages(old(allocator)@),
            old(allocator)@.inv(),
            old(allocator)@.end <= ADDR_LIMIT,
        ensures
            final(allocator)@.inv(),
            final(allocator)@.end == old(allocator)@.end,
            spares(final(allocator)@, old(allocator)@, self@.process.vmap),
            match after_pages(old(allocator)@, STACK_PAGES as nat) {
                None => r matches Err(e) && e == OsError::NoMemory,
                Some(heap) => {
                    &&& r matches Ok(p)
                    &&& final(allocator)@ == heap
                    &&& final(allocator)@.keeps_live(old(allocator)@)
                    &&& p@.vmap.grown_from(self@.process.vmap, old(allocator)@)
                    &&& p@.context == self@.process.context
                    &&& p@.state == self@.process.state
                    &&& p@.vmap.wf()
                    &&& p@.vmap.base() == self@.process.vmap.base()
                    &&& p@.vmap.owns_pages(final(allocator)@)
                    &&& forall|s: int|
                        0 <= s < SLOTS ==> (#[trigger] p@.vmap.mapped(s) <==> s <= slot_of(
                            self@.addr,
                        ) || STACK_SLOT <= s < STACK_SLOT + STACK_PAGES)
                    &&& forall|s: int|
                        0 <= s <= slot_of(self@.addr) ==> #[trigger] p@.vmap.slot(s)
                            == self@.process.vmap.slot(s)
                },
            },
    {
        let mut process = self.process;
        let ghost start = allocator@;
        let ghost image = process@.vmap;
        proof {
            assert(image.grown_from(image, start));
        }
        let ghost top = slot_of(self.addr);
        proof {
            lemma_user_slot(self.addr);
        }
        let mut i: usize = 0;
        while i < STACK_PAGES
            invariant
                i <= STACK_PAGES,
                start == old(allocator)@,
                image == self@.process.vmap,
                allocator@.inv(),
                allocator@.end <= ADDR_LIMIT,
                allocator@.end == start.end,
                allocator@.keeps_live(start),
                process@.vmap.grown_from(image, start),
                after_pages(start, i as nat) == Some(allocator@),
                process@.vmap.wf(),
                process@.vmap.base() == image.base(),
                process@.vmap.owns_pages(allocator@),
                process@.context == self@.process.context,
                process@.state == self@.process.state,
                0 <= top < STACK_SLOT,
                forall|s: int|
                    0 <= s < SLOTS ==> (#[trigger] process@.vmap.mapped(s) <==> s <= top
                        || STACK_SLOT <= s < STACK_SLOT + i),
                forall|s: int| 0 <= s <= top ==> #[trigger] process@.vmap.slot(s) == image.slot(s),
            decreases STACK_PAGES - i,
        {
            let va = USER_STACK_BASE + (i as u64) * PAGE_SIZE;
            proof {
                lemma_user_slot(va);
                assert(slot_of(va) == STACK_SLOT + i);
            }
            let ghost before = process@.vmap;
            let ghost heap = allocator@;
            match process.vmap.allocate(VirtualAddr(va), PagePerm::RW, allocator) {
                None => {
                    proof {
                        assert(after_pages(start, (i + 1) as nat) is None);
                        lemma_after_pages_none(start, (i + 1) as nat, STACK_PAGES as nat);
                    }
                    let ghost held = allocator@;
                    let ghost table = process@.vmap;
                    process.release(allocator);
                    proof {
                        lemma_kept_spares(held, start, image);
                        lemma_spares_chain(start, held, allocator@, image, table);
                    }
                    return Err(OsError::NoMemory);
                },
                Some(_) => {
                    proof {
                        lemma_grown_chain(process@.vmap, before, image, heap, start);
                        let slot = slot_of(va);
                        assert forall|s: int| 0 <= s < SLOTS implies (
                        #[trigger] process@.vmap.mapped(s) <==> s <= top || STACK_SLOT <= s
                            < STACK_SLOT + i + 1) by {
                            if s != slot {
                                assert(process@.vmap.slot(s) == before.slot(s));
                                assert(before.mapped(s) <==> s <= top || STACK_SLOT <= s
                                    < STACK_SLOT + i);
                            }
                        }
                        assert forall|s: int| 0 <= s <= top implies #[trigger] process@.vmap.slot(s)
                            == image.slot(s) by {
                            assert(process@.vmap.slot(s) == before.slot(s));
                        }
                    }
                },
            }
            i = i + 1;
        }
        proof {
            lemma_kept_spares(allocator@, start, image);
        }
        Ok(process)
    }
}

} // verus!
