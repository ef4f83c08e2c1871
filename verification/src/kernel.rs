//! The state of the kernel as a whole, and what the timer interrupt does
//! to it.

use vstd::prelude::*;
use crate::allocator::bin::{Allocator, Heap};
use crate::interrupt::{Controller, Interrupt, bit_set};
use crate::kernel_api::{OsError, OsResult};
use crate::param::{PAGE_SIZE, TICK, USER_IMG_BASE};
use crate::process::process::{
    Id, Load, Process, ReadOutcome, STACK_PAGES, advanced, after_pages, is_initial_context,
};
use crate::process::scheduler::{
    GlobalScheduler, Queue, lemma_add, lemma_add_housed, lemma_fresh_apart_from_all,
    lemma_grown_apart_from_all, lemma_schedule_out, lemma_schedule_out_housed,
    lemma_spared_all_housed, lemma_spared_housed, lemma_switch_runs_one, lemma_switch_to,
    lemma_switch_to_housed,
};
use crate::process::state::State;
use crate::traps::frame::TrapFrame;
use crate::traps::irq::{Irq, IrqHandler};
use crate::vm::address::PhysicalAddr;
use crate::vm::entry::ADDR_LIMIT;
use crate::vm::pagetable::{PageTable, SLOTS, TABLE_BYTES};

verus! {

/// How the machine goes on after an exception was handled.
#[derive(Debug, Copy, Clone, PartialEq, Eq, Structural)]
pub enum Next {
    /// Return from the exception with the trap frame as it stands.
    Return,
    /// The trap frame belongs to no process that may run. Before the
    /// return, `switch_to` has to find a process; as long as it finds none
    /// the processor waits for an interrupt.
    Switch,
}

/// How to go on after a switch that returned `id`.
pub open spec fn next_after(id: Option<Id>) -> Next {
    if id is Some {
        Next::Return
    } else {
        Next::Switch
    }
}

/// The time of the tick that follows a tick at time `now`.
pub open spec fn tick_after(now: u64) -> u64 {
    if now + TICK <= u64::MAX {
        (now + TICK) as u64
    } else {
        (now + TICK - u64::MAX - 1) as u64
    }
}

/// The parts of the kernel that exception handling works on.
pub struct Kernel {
    /// The heap.
    pub allocator: Allocator,
    /// The scheduler.
    pub scheduler: GlobalScheduler,
    /// The bytes written to the console that were not sent yet.
    pub console: Vec<u8>,
    /// The time at which the timer is to fire next, in microseconds, if it
    /// is to be armed anew.
    pub tick_at: Option<u64>,
}

impl Kernel {
    /// The scheduler is initialized, its processes have well-formed tables,
    /// and the heap has a free list for each class.
    pub open spec fn wf(&self) -> bool {
        self.scheduler.wf() && self.allocator@.well_formed()
    }

    /// The queue of the scheduler.
    pub open spec fn queue(&self) -> Queue {
        self.scheduler@->Some_0
    }

    /// The memory and the identifiers are in order: the blocks of the heap
    /// lie apart and within reach of the translation tables; the processes
    /// have identifiers of their own; and every process owns its tables and
    /// its pages, which it shares with no other process.
    pub open spec fn sound(&self) -> bool {
        &&& self.wf()
        &&& self.allocator@.inv()
        &&& self.allocator@.end <= ADDR_LIMIT
        &&& self.queue().well_numbered()
        &&& self.queue().housed(self.allocator@)
    }

    /// The kernel is sound, and no process but the one at the front of the
    /// queue is in state `Running`.
    pub open spec fn inv(&self) -> bool {
        self.sound() && self.queue().running_in_front()
    }

    /// The trap frame `tf` belongs to the process at the front of the
    /// queue.
    pub open spec fn fronts(&self, tf: TrapFrame) -> bool {
        self.queue().processes.len() > 0 && self.queue().processes[0].id() == tf.tpidr
    }

    /// The tables `table`, of a process that is not in the queue, own their
    /// pages and share no block with a process in the queue.
    pub open spec fn hosts(&self, table: PageTable) -> bool {
        &&& table.wf()
        &&& table.owns_pages(self.allocator@)
        &&& self.queue().apart_from(table)
    }

    /// A kernel whose heap is the region from `start` to `end`, with an
    /// empty queue, nothing to write and no tick asked for.
    pub fn new(start: u64, end: u64) -> (r: Kernel)
        ensures
            r.wf(),
            r.allocator@ == Heap::empty(start, end),
            r.allocator@.inv(),
            r.queue() == Queue::empty(),
            r.console@ == Seq::<u8>::empty(),
            r.tick_at is None,
            end <= ADDR_LIMIT ==> r.inv(),
    {
        let mut scheduler = GlobalScheduler::uninitialized();
        scheduler.initialize();
        Kernel { allocator: Allocator::new(start, end), scheduler, console: Vec::new(), tick_at: None }
    }

    /// Gets the machine ready to run user processes: enables the timer
    /// interrupt, registers `handler` as what is run when it is taken, and
    /// asks for the first tick one quantum after `now`. Returns the context
    /// of the process at the front of the queue, with which the machine
    /// enters user level.
    ///
    /// The handler is the caller's: on each timer interrupt it is to call
    /// `tick` with the frame of the interrupted process, which asks for the
    /// next tick and switches.
    pub fn start<H: IrqHandler>(
        &mut self,
        controller: &mut Controller,
        irq: &mut Irq<H>,
        handler: H,
        now: u64,
    ) -> (r: TrapFrame)
        requires
            old(self).wf(),
            old(self).queue().processes.len() > 0,
            old(irq).is_initialized(),
        ensures
            final(self).wf(),
            r == old(self).queue().processes[0].context,
            final(self).scheduler@ == old(self).scheduler@,
            final(self).allocator@ == old(self).allocator@,
            final(self).console@ == old(self).console@,
            final(self).tick_at == Some(tick_after(now)),
            bit_set(final(controller).registers.irq_enable[0], 1),
            final(controller).registers.irq_enable[0] == old(controller).registers.irq_enable[0]
                | (1u32 << 1),
            final(controller).registers.irq_enable[1] == old(controller).registers.irq_enable[1],
            final(controller).registers.irq_pending == old(controller).registers.irq_pending,
            final(controller).registers.irq_disable == old(controller).registers.irq_disable,
            final(irq).is_initialized(),
            final(irq).handler(Interrupt::Timer1) == Some(handler),
            forall|other: Interrupt|
                other != Interrupt::Timer1 ==> final(irq).handler(other) == old(irq).handler(other),
            old(self).sound() ==> final(self).sound(),
            old(self).inv() ==> final(self).inv() && final(self).fronts(r),
    {
        self.tick_at = Some(now.wrapping_add(TICK));
        self.scheduler.start(controller, irq, handler)
    }

    /// What the timer interrupt does: asks for the next tick one quantum
    /// after `now`, schedules the process that `tf` belongs to out as
    /// `Ready`, and switches to the first process that can be scheduled.
    pub fn tick(&mut self, tf: &mut TrapFrame, now: u64) -> (r: Next)
        requires
            old(self).wf(),
        ensures
            final(self).wf(),
            final(self).queue() == old(self).queue().switch(State::Ready, *old(tf), now).0,
            *final(tf) == old(self).queue().switch(State::Ready, *old(tf), now).1,
            r == next_after(old(self).queue().switch(State::Ready, *old(tf), now).2),
            final(self).tick_at == Some(tick_after(now)),
            final(self).allocator@ == old(self).allocator@,
            final(self).console@ == old(self).console@,
            old(self).sound() ==> final(self).sound(),
            old(self).inv() && old(self).fronts(*old(tf)) ==> final(self).inv() && switched(
                *final(self),
                *final(tf),
                r,
            ),
    {
        proof {
            if self.sound() {
                lemma_switch_keeps(self.queue(), State::Ready, *tf, now, self.allocator@);
            }
        }
        self.tick_at = Some(now.wrapping_add(TICK));
        match self.scheduler.switch(State::Ready, tf, now) {
            Some(_) => Next::Return,
            None => Next::Switch,
        }
    }

    /// Tries once more to find a process to run, after a switch that found
    /// none.
    pub fn resume(&mut self, tf: &mut TrapFrame, now: u64) -> (r: Next)
        requires
            old(self).wf(),
        ensures
            final(self).wf(),
            final(self).queue() == old(self).queue().switch_to(*old(tf), now).0,
            *final(tf) == old(self).queue().switch_to(*old(tf), now).1,
            r == next_after(old(self).queue().switch_to(*old(tf), now).2),
            final(self).tick_at == old(self).tick_at,
            final(self).allocator@ == old(self).allocator@,
            final(self).console@ == old(self).console@,
            old(self).sound() ==> final(self).sound(),
            old(self).sound() && old(self).queue().none_running() ==> final(self).inv()
                && switched(*final(self), *final(tf), r),
    {
        proof {
            if self.sound() {
                lemma_switch_to(self.queue(), *tf, now);
                lemma_switch_to_housed(self.queue(), *tf, now, self.allocator@, arbitrary());
            }
        }
        match self.scheduler.switch_to(tf, now) {
            Some(_) => Next::Return,
            None => Next::Switch,
        }
    }

    /// Begins to load a program; see `Process::load`. The tables of the
    /// process that is being made share no block with a process in the
    /// queue.
    pub fn load(&mut self, kern_baddr: PhysicalAddr) -> (r: OsResult<Load>)
        requires
            old(self).sound(),
        ensures
            final(self).sound(),
            final(self).queue() == old(self).queue(),
            final(self).console@ == old(self).console@,
            final(self).tick_at == old(self).tick_at,
            match r {
                Ok(load) => {
                    &&& load@.wf()
                    &&& final(self).hosts(load@.process.vmap)
                    &&& load@.addr == USER_IMG_BASE
                    &&& load@.filled == 0
                    &&& load@.total == 0
                    &&& load@.process.state == State::Ready
                    &&& is_initial_context(
                        load@.process.context,
                        kern_baddr.0,
                        load@.process.vmap.base(),
                    )
                },
                Err(e) => e == OsError::NoMemory,
            },
            r is Ok <==> {
                let tabled = old(self).allocator@.allocate(TABLE_BYTES, PAGE_SIZE);
                tabled.1 is Some && tabled.0.allocate(PAGE_SIZE, PAGE_SIZE).1 is Some
            },
    {
        let r = Process::load(kern_baddr, &mut self.allocator);
        proof {
            lemma_spared_all_housed(self.queue(), old(self).allocator@, self.allocator@);
            if r is Ok {
                lemma_fresh_apart_from_all(
                    self.queue(),
                    old(self).allocator@,
                    r->Ok_0@.process.vmap,
                );
            }
        }
        r
    }

    /// Takes note of what a read for the load `load` gave; see
    /// `Load::advance`.
    pub fn advance(&mut self, load: &mut Load, outcome: ReadOutcome) -> (r: OsResult<bool>)
        requires
            old(self).sound(),
            old(load)@.wf(),
            old(self).hosts(old(load)@.process.vmap),
            outcome matches ReadOutcome::Read(bytes) ==> bytes@.len() <= old(load)@.room(),
        ensures
            final(self).sound(),
            final(load)@.wf(),
            final(self).hosts(final(load)@.process.vmap),
            final(self).queue() == old(self).queue(),
            final(self).console@ == old(self).console@,
            final(self).tick_at == old(self).tick_at,
            advanced(
                old(load)@,
                old(self).allocator@,
                outcome,
                final(load)@,
                final(self).allocator@,
                r,
            ),
    {
        let r = load.advance(outcome, &mut self.allocator);
        proof {
            crate::vm::pagetable::lemma_kept_spares_all(self.allocator@, old(self).allocator@);
            lemma_spared_all_housed(self.queue(), old(self).allocator@, self.allocator@);
            lemma_grown_apart_from_all(
                self.queue(),
                old(self).allocator@,
                load@.process.vmap,
                old(load)@.process.vmap,
            );
        }
        r
    }

    /// Gives the load `load` up: the pages that the process maps and the
    /// memory of its tables go back to the allocator of the kernel; see
    /// `Load::abandon`.
    pub fn abandon(&mut self, load: Load)
        requires
            old(self).sound(),
            load@.wf(),
            old(self).hosts(load@.process.vmap),
        ensures
            final(self).sound(),
            final(self).allocator@ == load@.process.vmap.released(
                old(self).allocator@,
                SLOTS as nat,
            ).dealloc(load@.process.vmap.base(), TABLE_BYTES, PAGE_SIZE),
            final(self).queue() == old(self).queue(),
            final(self).console@ == old(self).console@,
            final(self).tick_at == old(self).tick_at,
    {
        load.abandon(&mut self.allocator);
        proof {
            lemma_spared_housed(
                self.queue(),
                old(self).allocator@,
                self.allocator@,
                load@.process.vmap,
            );
        }
    }

    /// Ends the load `load` and hands the process over; see `Load::finish`.
    pub fn finish(&mut self, load: Load) -> (r: OsResult<Process>)
        requires
            old(self).sound(),
            load@.wf(),
            old(self).hosts(load@.process.vmap),
        ensures
            final(self).sound(),
            final(self).queue() == old(self).queue(),
            final(self).console@ == old(self).console@,
            final(self).tick_at == old(self).tick_at,
            match after_pages(old(self).allocator@, STACK_PAGES as nat) {
                None => r matches Err(e) && e == OsError::NoMemory,
                Some(heap) => {
                    &&& r matches Ok(p)
                    &&& final(self).allocator@ == heap
                    &&& final(self).hosts(p@.vmap)
                    &&& p@.context == load@.process.context
                    &&& p@.state == load@.process.state
                },
            },
    {
        let r = load.finish(&mut self.allocator);
        proof {
            lemma_spared_housed(
                self.queue(),
                old(self).allocator@,
                self.allocator@,
                load@.process.vmap,
            );
            if r is Ok {
                lemma_grown_apart_from_all(
                    self.queue(),
                    old(self).allocator@,
                    r->Ok_0@.vmap,
                    load@.process.vmap,
                );
            }
        }
        r
    }

    /// Adds a process to the queue; see `Scheduler::add`.
    pub fn add(&mut self, process: Process) -> (r: Option<Id>)
        requires
            old(self).sound(),
            old(self).hosts(process@.vmap),
        ensures
            final(self).sound(),
            old(self).inv() && !(process@.state is Running) ==> final(self).inv(),
            final(self).queue() == old(self).queue().add(process@).0,
            r == old(self).queue().add(process@).1,
            r is Some ==> final(self).allocator@ == old(self).allocator@,
            r matches Some(id) ==> id > 0 && forall|i: int|
                0 <= i < old(self).queue().processes.len() ==> (
                #[trigger] old(self).queue().processes[i]).id() < id,
            final(self).console@ == old(self).console@,
            final(self).tick_at == old(self).tick_at,
    {
        proof {
            lemma_add(self.queue(), process@);
            lemma_add_housed(self.queue(), process@, self.allocator@);
        }
        let r = self.scheduler.add(process, &mut self.allocator);
        proof {
            if r is None {
                lemma_spared_housed(
                    old(self).queue(),
                    old(self).allocator@,
                    self.allocator@,
                    process@.vmap,
                );
            }
        }
        r
    }
}

/// How things stand after a switch: if it gave `Return`, exactly one
/// process is in state `Running`, which is the process at the front of the
/// queue, and the trap frame `tf` is its own; if it gave `Switch`, no
/// process is in state `Running`.
pub open spec fn switched(kernel: Kernel, tf: TrapFrame, r: Next) -> bool {
    match r {
        Next::Return => kernel.queue().runs(tf.tpidr) && kernel.fronts(tf),
        Next::Switch => kernel.queue().none_running(),
    }
}

/// How things stand when an exception was handled: if the machine goes on
/// with `Return`, the trap frame `tf` belongs to the process at the front
/// of the queue; if it goes on with `Switch`, no process is in state
/// `Running`.
pub open spec fn settled(kernel: Kernel, tf: TrapFrame, r: Next) -> bool {
    match r {
        Next::Return => kernel.fronts(tf),
        Next::Switch => kernel.queue().none_running(),
    }
}

/// A switch keeps the identifiers apart and the processes with their
/// pages. A switch away from the process in front, to a state other than
/// `Running`, leaves either exactly the process that is switched to
/// running, or none.
pub proof fn lemma_switch_keeps(q: Queue, new_state: State, tf: TrapFrame, now: u64, heap: Heap)
    requires
        q.well_numbered(),
        q.housed(heap),
    ensures
        q.switch(new_state, tf, now).0.well_numbered(),
        q.switch(new_state, tf, now).0.housed(heap),
        q.running_in_front() && !(new_state is Running) && q.processes.len() > 0
            && q.processes[0].id() == tf.tpidr ==> {
            &&& q.switch(new_state, tf, now).0.running_in_front()
            &&& q.switch(new_state, tf, now).2 matches Some(id) ==> q.switch(
                new_state,
                tf,
                now,
            ).0.runs(id) && q.switch(new_state, tf, now).1.tpidr == id
            &&& q.switch(new_state, tf, now).2 is None ==> q.switch(
                new_state,
                tf,
                now,
            ).0.none_running()
        },
{
    let mid = q.schedule_out(new_state, tf).0;
    lemma_schedule_out(q, new_state, tf);
    lemma_schedule_out_housed(q, new_state, tf, heap, arbitrary());
    lemma_switch_to(mid, tf, now);
    lemma_switch_to_housed(mid, tf, now, heap, arbitrary());
    if q.running_in_front() && !(new_state is Running) && q.processes.len() > 0
        && q.processes[0].id() == tf.tpidr {
        lemma_switch_runs_one(q, new_state, tf, now);
    }
}

} // verus!
