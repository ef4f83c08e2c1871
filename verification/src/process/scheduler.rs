//! The round-robin scheduler.
//!
//! The processes stand in a queue. The process that runs is taken out of
//! its place and put at the back when it is scheduled out; the first
//! process that can run is brought to the front when it is switched to.

use vstd::prelude::*;
use std::collections::VecDeque;
use crate::allocator::bin::{Allocator, Heap};
use crate::interrupt::{Controller, Interrupt, bit_set};
use crate::vm::pagetable::{
    PageTable, lemma_apart_symmetric, lemma_fresh_apart, lemma_grown_apart, spares, spares_all,
};
use crate::process::process::{Id, Process, ProcessView};
use crate::process::state::State;
use crate::traps::frame::TrapFrame;
use crate::traps::irq::{Irq, IrqHandler};

verus! {

/// The position of the first element of `s` for which `f` holds, or the
/// length of `s` if there is none.
pub open spec fn first_where<T>(s: Seq<T>, f: spec_fn(T) -> bool) -> int
    decreases s.len(),
{
    if s.len() == 0 {
        0
    } else if f(s[0]) {
        0
    } else {
        1 + first_where(s.drop_first(), f)
    }
}

/// What `first_where` returns: a position before which `f` holds nowhere,
/// and at which `f` holds unless it is the length.
pub proof fn lemma_first_where<T>(s: Seq<T>, f: spec_fn(T) -> bool)
    ensures
        0 <= first_where(s, f) <= s.len(),
        forall|j: int| 0 <= j < first_where(s, f) ==> !f(#[trigger] s[j]),
        first_where(s, f) < s.len() ==> f(s[first_where(s, f)]),
    decreases s.len(),
{
    if s.len() > 0 && !f(s[0]) {
        let rest = s.drop_first();
        lemma_first_where(rest, f);
        assert forall|j: int| 0 <= j < first_where(s, f) implies !f(#[trigger] s[j]) by {
            if j > 0 {
                assert(s[j] == rest[j - 1]);
            }
        }
    }
}

/// A position with the two properties of `lemma_first_where` is the one
/// that `first_where` returns.
pub proof fn lemma_first_where_unique<T>(s: Seq<T>, f: spec_fn(T) -> bool, i: int)
    requires
        0 <= i <= s.len(),
        forall|j: int| 0 <= j < i ==> !f(#[trigger] s[j]),
        i < s.len() ==> f(s[i]),
    ensures
        first_where(s, f) == i,
{
    lemma_first_where(s, f);
}

/// The abstract state of the scheduler.
pub struct Queue {
    /// The processes, the front of the queue first.
    pub processes: Seq<ProcessView>,
    /// The identifier that was handed out last, if one was.
    pub last_id: Option<u64>,
}

impl Queue {
    /// The queue without processes, from which no identifier was handed out.
    pub open spec fn empty() -> Queue {
        Queue { processes: Seq::empty(), last_id: None }
    }

    /// The identifier for the next process: 1 at first, then one more than
    /// the last; none once the identifiers are used up.
    pub open spec fn next_id(self) -> Option<u64> {
        match self.last_id {
            None => Some(1),
            Some(last) => if last < u64::MAX {
                Some((last + 1) as u64)
            } else {
                None
            },
        }
    }

    /// The queue after `p` was added, and the identifier `p` was given.
    pub open spec fn add(self, p: ProcessView) -> (Queue, Option<u64>) {
        match self.next_id() {
            None => (self, None),
            Some(id) => (
                Queue {
                    processes: self.processes.push(
                        ProcessView { context: TrapFrame { tpidr: id, ..p.context }, ..p },
                    ),
                    last_id: Some(id),
                },
                Some(id),
            ),
        }
    }

    /// The position of the first process with identifier `id`, or the
    /// length of the queue if there is none.
    pub open spec fn position_of(self, id: u64) -> int {
        first_where(self.processes, |p: ProcessView| p.id() == id)
    }

    /// The position of the first process that can be scheduled at time
    /// `now`, or the length of the queue if there is none.
    pub open spec fn first_ready(self, now: u64) -> int {
        first_where(self.processes, |p: ProcessView| p.ready_at(now))
    }

    /// The queue after the process that `tf` belongs to was scheduled out
    /// with state `new_state`, and whether there is such a process.
    pub open spec fn schedule_out(self, new_state: State, tf: TrapFrame) -> (Queue, bool) {
        let pos = self.position_of(tf.tpidr);
        if pos < self.processes.len() {
            let p = ProcessView { context: tf, state: new_state, ..self.processes[pos] };
            (Queue { processes: self.processes.remove(pos).push(p), ..self }, true)
        } else {
            (self, false)
        }
    }

    /// The queue after the first process that can be scheduled at time
    /// `now` was switched to, the trap frame to return with, and the
    /// identifier of that process. Without such a process nothing changes.
    pub open spec fn switch_to(self, tf: TrapFrame, now: u64) -> (Queue, TrapFrame, Option<u64>) {
        let pos = self.first_ready(now);
        if pos < self.processes.len() {
            let p = self.processes[pos].polled(now);
            let run = ProcessView { state: State::Running, ..p };
            (
                Queue { processes: seq![run] + self.processes.remove(pos), ..self },
                p.context,
                Some(p.id()),
            )
        } else {
            (self, tf, None)
        }
    }

    /// Scheduling out with `new_state`, then switching.
    pub open spec fn switch(self, new_state: State, tf: TrapFrame, now: u64) -> (
        Queue,
        TrapFrame,
        Option<u64>,
    ) {
        self.schedule_out(new_state, tf).0.switch_to(tf, now)
    }

    /// The queue after the process that `tf` belongs to was removed, and
    /// the identifier of that process if there is one.
    pub open spec fn kill(self, tf: TrapFrame) -> (Queue, Option<u64>) {
        let (out, found) = self.schedule_out(State::Dead, tf);
        if found {
            (Queue { processes: out.processes.drop_last(), ..out }, Some(tf.tpidr))
        } else {
            (self, None)
        }
    }

    /// The process that `kill` removes.
    pub open spec fn victim(self, tf: TrapFrame) -> ProcessView {
        self.processes[self.position_of(tf.tpidr)]
    }

    /// Every process has an identifier that is not zero and not above the
    /// one handed out last, and no two processes have the same.
    pub open spec fn well_numbered(self) -> bool {
        &&& forall|i: int|
            0 <= i < self.processes.len() ==> 0 < (#[trigger] self.processes[i]).id()
                && self.last_id is Some && self.processes[i].id() <= self.last_id->Some_0
        &&& forall|i: int, j: int|
            0 <= i < self.processes.len() && 0 <= j < self.processes.len() && i != j ==> (
            #[trigger] self.processes[i]).id() != (#[trigger] self.processes[j]).id()
    }

    /// Every process owns its tables and its pages in `heap`, and no two
    /// processes share a block.
    pub open spec fn housed(self, heap: Heap) -> bool {
        &&& forall|i: int|
            0 <= i < self.processes.len() ==> (#[trigger] self.processes[i]).vmap.owns_pages(heap)
        &&& forall|i: int, j: int|
            0 <= i < self.processes.len() && 0 <= j < self.processes.len() && i != j ==> (
            #[trigger] self.processes[i]).vmap.apart_from((#[trigger] self.processes[j]).vmap)
    }

    /// No process shares a block with the tables `table`.
    pub open spec fn apart_from(self, table: PageTable) -> bool {
        forall|i: int|
            0 <= i < self.processes.len() ==> table.apart_from((#[trigger] self.processes[i]).vmap)
    }

    /// No process is in state `Running`.
    pub open spec fn none_running(self) -> bool {
        forall|i: int|
            0 <= i < self.processes.len() ==> !((#[trigger] self.processes[i]).state is Running)
    }

    /// No process but the one at the front is in state `Running`.
    pub open spec fn running_in_front(self) -> bool {
        forall|i: int|
            0 < i < self.processes.len() ==> !((#[trigger] self.processes[i]).state is Running)
    }

    /// Exactly one process is in state `Running`: the one at the front,
    /// whose identifier is `id`.
    pub open spec fn runs(self, id: u64) -> bool {
        &&& self.processes.len() > 0
        &&& self.processes[0].state is Running
        &&& self.processes[0].id() == id
        &&& self.running_in_front()
    }
}

/// Adding a process hands out an identifier above every earlier one and
/// keeps the identifiers in the queue apart. The processes that run stay
/// the same if the new process does not claim to run.
pub proof fn lemma_add(q: Queue, p: ProcessView)
    requires
        q.well_numbered(),
    ensures
        q.add(p).0.well_numbered(),
        q.add(p).1 matches Some(id) ==> {
            &&& id > 0
            &&& q.last_id matches Some(last) ==> id > last
            &&& q.add(p).0.last_id == Some(id)
            &&& forall|i: int| 0 <= i < q.processes.len() ==> (#[trigger] q.processes[i]).id() < id
        },
        q.add(p).1 is None ==> q.add(p).0 == q,
        !(p.state is Running) && q.running_in_front() ==> q.add(p).0.running_in_front(),
        !(p.state is Running) && q.none_running() ==> q.add(p).0.none_running(),
{
}

/// Scheduling a process out keeps the identifiers and the counter. If the
/// new state is not `Running`, no process but the one in front runs
/// afterwards; and none runs at all if the process scheduled out was the
/// one in front.
pub proof fn lemma_schedule_out(q: Queue, new_state: State, tf: TrapFrame)
    requires
        q.well_numbered(),
    ensures
        q.schedule_out(new_state, tf).0.well_numbered(),
        q.schedule_out(new_state, tf).0.last_id == q.last_id,
        q.schedule_out(new_state, tf).0.processes.len() == q.processes.len(),
        q.schedule_out(new_state, tf).1 <==> exists|i: int|
            0 <= i < q.processes.len() && (#[trigger] q.processes[i]).id() == tf.tpidr,
        !(new_state is Running) && q.running_in_front() ==> q.schedule_out(
            new_state,
            tf,
        ).0.running_in_front(),
        !(new_state is Running) && q.running_in_front() && q.processes.len() > 0
            && q.processes[0].id() == tf.tpidr ==> q.schedule_out(new_state, tf).0.none_running(),
        !(new_state is Running) && q.none_running() ==> q.schedule_out(
            new_state,
            tf,
        ).0.none_running(),
{
    let f = |p: ProcessView| p.id() == tf.tpidr;
    lemma_first_where(q.processes, f);
    let pos = q.position_of(tf.tpidr);
    let post = q.schedule_out(new_state, tf).0;
    if pos < q.processes.len() {
        let n = q.processes.len();
        assert(f(q.processes[pos]));
        assert forall|i: int| 0 <= i < n implies #[trigger] post.processes[i].id() == (if i < pos {
            q.processes[i].id()
        } else if i < n - 1 {
            q.processes[i + 1].id()
        } else {
            q.processes[pos].id()
        }) by {}
        assert forall|i: int| 0 <= i < n - 1 implies #[trigger] post.processes[i].state == (if i
            < pos {
            q.processes[i].state
        } else {
            q.processes[i + 1].state
        }) by {}
        assert(post.well_numbered()) by {
            assert forall|i: int, j: int| 0 <= i < n && 0 <= j < n && i != j implies (
            #[trigger] post.processes[i]).id() != (#[trigger] post.processes[j]).id() by {
                let i0 = if i < pos {
                    i
                } else if i < n - 1 {
                    i + 1
                } else {
                    pos
                };
                let j0 = if j < pos {
                    j
                } else if j < n - 1 {
                    j + 1
                } else {
                    pos
                };
                assert(q.processes[i0].id() != q.processes[j0].id());
            }
            assert forall|i: int| 0 <= i < n implies 0 < (#[trigger] post.processes[i]).id()
                && post.last_id is Some && post.processes[i].id() <= post.last_id->Some_0 by {
                let i0 = if i < pos {
                    i
                } else if i < n - 1 {
                    i + 1
                } else {
                    pos
                };
                assert(0 < q.processes[i0].id());
            }
        }
        if !(new_state is Running) && q.running_in_front() {
            assert forall|i: int| 0 < i < n implies !((#[trigger] post.processes[i]).state
                is Running) by {
                if i < n - 1 {
                    let i0 = if i < pos {
                        i
                    } else {
                        i + 1
                    };
                    assert(!(q.processes[i0].state is Running));
                }
            }
            if q.processes[0].id() == tf.tpidr {
                assert(pos == 0);
                assert forall|i: int| 0 <= i < n implies !((#[trigger] post.processes[i]).state
                    is Running) by {
                    if i < n - 1 {
                        assert(!(q.processes[i + 1].state is Running));
                    }
                }
            }
        }
        if !(new_state is Running) && q.none_running() {
            assert forall|i: int| 0 <= i < n implies !((#[trigger] post.processes[i]).state
                is Running) by {
                if i < n - 1 {
                    let i0 = if i < pos {
                        i
                    } else {
                        i + 1
                    };
                    assert(!(q.processes[i0].state is Running));
                }
            }
        }
    } else {
        assert forall|i: int| 0 <= i < q.processes.len() implies (#[trigger] q.processes[i]).id()
            != tf.tpidr by {
            assert(!f(q.processes[i]));
        }
    }
}

/// Switching keeps the identifiers and the counter. It succeeds exactly
/// when some process can be scheduled. If no process ran before, then
/// afterwards exactly the chosen process runs, it stands in front, and the
/// trap frame to return with is its own.
pub proof fn lemma_switch_to(q: Queue, tf: TrapFrame, now: u64)
    requires
        q.well_numbered(),
    ensures
        q.switch_to(tf, now).0.well_numbered(),
        q.switch_to(tf, now).0.last_id == q.last_id,
        q.switch_to(tf, now).0.processes.len() == q.processes.len(),
        q.switch_to(tf, now).2 is Some <==> exists|i: int|
            0 <= i < q.processes.len() && (#[trigger] q.processes[i]).ready_at(now),
        q.switch_to(tf, now).2 is None ==> q.switch_to(tf, now).0 == q && q.switch_to(tf, now).1
            == tf,
        q.switch_to(tf, now).2 matches Some(id) ==> {
            &&& q.switch_to(tf, now).1.tpidr == id
            &&& q.switch_to(tf, now).0.processes[0].context == q.switch_to(tf, now).1
            &&& q.switch_to(tf, now).0.processes[0].state is Running
            &&& q.none_running() ==> q.switch_to(tf, now).0.runs(id)
        },
{
    let f = |p: ProcessView| p.ready_at(now);
    lemma_first_where(q.processes, f);
    let pos = q.first_ready(now);
    let post = q.switch_to(tf, now).0;
    let n = q.processes.len();
    if pos < n {
        assert(f(q.processes[pos]));
        assert forall|i: int| 0 <= i < n implies #[trigger] post.processes[i].id() == (if i == 0 {
            q.processes[pos].id()
        } else if i <= pos {
            q.processes[i - 1].id()
        } else {
            q.processes[i].id()
        }) by {}
        assert forall|i: int| 0 < i < n implies #[trigger] post.processes[i].state == (if i
            <= pos {
            q.processes[i - 1].state
        } else {
            q.processes[i].state
        }) by {}
        assert(post.well_numbered()) by {
            assert forall|i: int, j: int| 0 <= i < n && 0 <= j < n && i != j implies (
            #[trigger] post.processes[i]).id() != (#[trigger] post.processes[j]).id() by {
                let i0 = if i == 0 {
                    pos
                } else if i <= pos {
                    i - 1
                } else {
                    i
                };
                let j0 = if j == 0 {
                    pos
                } else if j <= pos {
                    j - 1
                } else {
                    j
                };
                assert(q.processes[i0].id() != q.processes[j0].id());
            }
            assert forall|i: int| 0 <= i < n implies 0 < (#[trigger] post.processes[i]).id()
                && post.last_id is Some && post.processes[i].id() <= post.last_id->Some_0 by {
                let i0 = if i == 0 {
                    pos
                } else if i <= pos {
                    i - 1
                } else {
                    i
                };
                assert(0 < q.processes[i0].id());
            }
        }
        if q.none_running() {
            assert forall|i: int| 0 < i < n implies !((#[trigger] post.processes[i]).state
                is Running) by {
                let i0 = if i <= pos {
                    i - 1
                } else {
                    i
                };
                assert(!(q.processes[i0].state is Running));
            }
        }
    } else {
        assert forall|i: int| 0 <= i < n implies !(#[trigger] q.processes[i]).ready_at(now) by {
            assert(!f(q.processes[i]));
        }
    }
}

/// A process that owns its pages and shares no block with the processes in
/// the queue can be added to it.
pub proof fn lemma_add_housed(q: Queue, p: ProcessView, heap: Heap)
    requires
        q.housed(heap),
        p.vmap.owns_pages(heap),
        q.apart_from(p.vmap),
    ensures
        q.add(p).0.housed(heap),
{
    let post = q.add(p).0;
    if q.add(p).1 is Some {
        let n = q.processes.len();
        assert forall|i: int| 0 <= i < post.processes.len() implies (
        #[trigger] post.processes[i]).vmap == (if i < n {
            q.processes[i].vmap
        } else {
            p.vmap
        }) by {}
        assert forall|i: int, j: int|
            0 <= i < post.processes.len() && 0 <= j < post.processes.len() && i != j implies (
        #[trigger] post.processes[i]).vmap.apart_from((#[trigger] post.processes[j]).vmap) by {
            if i < n && j < n {
                assert(q.processes[i].vmap.apart_from(q.processes[j].vmap));
            } else if i == n {
                assert(p.vmap.apart_from(q.processes[j].vmap));
            } else {
                assert(p.vmap.apart_from(q.processes[i].vmap));
                lemma_apart_symmetric(p.vmap, q.processes[i].vmap);
            }
        }
        assert forall|i: int| 0 <= i < post.processes.len() implies (
        #[trigger] post.processes[i]).vmap.owns_pages(heap) by {
            if i < n {
                assert(q.processes[i].vmap.owns_pages(heap));
            }
        }
    }
}

/// Scheduling out moves a process and leaves the tables of all processes
/// as they are.
pub proof fn lemma_schedule_out_housed(
    q: Queue,
    new_state: State,
    tf: TrapFrame,
    heap: Heap,
    table: PageTable,
)
    ensures
        q.housed(heap) ==> q.schedule_out(new_state, tf).0.housed(heap),
        q.apart_from(table) ==> q.schedule_out(new_state, tf).0.apart_from(table),
{
    let f = |p: ProcessView| p.id() == tf.tpidr;
    lemma_first_where(q.processes, f);
    let pos = q.position_of(tf.tpidr);
    let post = q.schedule_out(new_state, tf).0;
    let n = q.processes.len();
    if pos < n {
        assert forall|i: int| 0 <= i < n implies (#[trigger] post.processes[i]).vmap == q.processes[if i
            < pos {
            i
        } else if i < n - 1 {
            i + 1
        } else {
            pos
        }].vmap by {}
        if q.housed(heap) {
            assert forall|i: int| 0 <= i < n implies (#[trigger] post.processes[i]).vmap.owns_pages(
                heap,
            ) by {
                let i0 = if i < pos {
                    i
                } else if i < n - 1 {
                    i + 1
                } else {
                    pos
                };
                assert(q.processes[i0].vmap.owns_pages(heap));
            }
            assert forall|i: int, j: int| 0 <= i < n && 0 <= j < n && i != j implies (
            #[trigger] post.processes[i]).vmap.apart_from((#[trigger] post.processes[j]).vmap) by {
                let i0 = if i < pos {
                    i
                } else if i < n - 1 {
                    i + 1
                } else {
                    pos
                };
                let j0 = if j < pos {
                    j
                } else if j < n - 1 {
                    j + 1
                } else {
                    pos
                };
                assert(q.processes[i0].vmap.apart_from(q.processes[j0].vmap));
            }
        }
        if q.apart_from(table) {
            assert forall|i: int| 0 <= i < n implies table.apart_from(
                (#[trigger] post.processes[i]).vmap,
            ) by {
                let i0 = if i < pos {
                    i
                } else if i < n - 1 {
                    i + 1
                } else {
                    pos
                };
                assert(table.apart_from(q.processes[i0].vmap));
            }
        }
    }
}

/// Switching moves a process and leaves the tables of all processes as
/// they are.
pub proof fn lemma_switch_to_housed(q: Queue, tf: TrapFrame, now: u64, heap: Heap, table: PageTable)
    ensures
        q.housed(heap) ==> q.switch_to(tf, now).0.housed(heap),
        q.apart_from(table) ==> q.switch_to(tf, now).0.apart_from(table),
{
    let f = |p: ProcessView| p.ready_at(now);
    lemma_first_where(q.processes, f);
    let pos = q.first_ready(now);
    let post = q.switch_to(tf, now).0;
    let n = q.processes.len();
    if pos < n {
        assert forall|i: int| 0 <= i < n implies (#[trigger] post.processes[i]).vmap == q.processes[if i
            == 0 {
            pos
        } else if i <= pos {
            i - 1
        } else {
            i
        }].vmap by {}
        if q.housed(heap) {
            assert forall|i: int| 0 <= i < n implies (#[trigger] post.processes[i]).vmap.owns_pages(
                heap,
            ) by {
                let i0 = if i == 0 {
                    pos
                } else if i <= pos {
                    i - 1
                } else {
                    i
                };
                assert(q.processes[i0].vmap.owns_pages(heap));
            }
            assert forall|i: int, j: int| 0 <= i < n && 0 <= j < n && i != j implies (
            #[trigger] post.processes[i]).vmap.apart_from((#[trigger] post.processes[j]).vmap) by {
                let i0 = if i == 0 {
                    pos
                } else if i <= pos {
                    i - 1
                } else {
                    i
                };
                let j0 = if j == 0 {
                    pos
                } else if j <= pos {
                    j - 1
                } else {
                    j
                };
                assert(q.processes[i0].vmap.apart_from(q.processes[j0].vmap));
            }
        }
        if q.apart_from(table) {
            assert forall|i: int| 0 <= i < n implies table.apart_from(
                (#[trigger] post.processes[i]).vmap,
            ) by {
                let i0 = if i == 0 {
                    pos
                } else if i <= pos {
                    i - 1
                } else {
                    i
                };
                assert(table.apart_from(q.processes[i0].vmap));
            }
        }
    }
}

/// Once the process that was killed has given its blocks back, the
/// processes that are left own their pages in the heap as it is then.
pub proof fn lemma_kill_housed(q: Queue, tf: TrapFrame, heap: Heap, after: Heap)
    requires
        q.housed(heap),
        q.kill(tf).1 is Some,
        spares(after, heap, q.victim(tf).vmap),
    ensures
        q.kill(tf).0.housed(after),
{
    let f = |p: ProcessView| p.id() == tf.tpidr;
    lemma_first_where(q.processes, f);
    let pos = q.position_of(tf.tpidr);
    let post = q.kill(tf).0;
    let n = q.processes.len();
    assert(post.processes =~= q.processes.remove(pos));
    assert forall|i: int| 0 <= i < n - 1 implies (#[trigger] post.processes[i]).vmap.owns_pages(
        after,
    ) by {
        let i0 = if i < pos {
            i
        } else {
            i + 1
        };
        assert(q.processes[i0].vmap.owns_pages(heap));
        assert(q.processes[pos].vmap.apart_from(q.processes[i0].vmap));
    }
    assert forall|i: int, j: int| 0 <= i < n - 1 && 0 <= j < n - 1 && i != j implies (
    #[trigger] post.processes[i]).vmap.apart_from((#[trigger] post.processes[j]).vmap) by {
        let i0 = if i < pos {
            i
        } else {
            i + 1
        };
        let j0 = if j < pos {
            j
        } else {
            j + 1
        };
        assert(q.processes[i0].vmap.apart_from(q.processes[j0].vmap));
    }
}

/// What happens to the heap on behalf of tables that share no block with
/// the processes leaves the processes with their pages.
pub proof fn lemma_spared_housed(q: Queue, heap: Heap, after: Heap, table: PageTable)
    requires
        q.housed(heap),
        q.apart_from(table),
        spares(after, heap, table),
    ensures
        q.housed(after),
{
    assert forall|i: int| 0 <= i < q.processes.len() implies (
    #[trigger] q.processes[i]).vmap.owns_pages(after) by {
        assert(q.processes[i].vmap.owns_pages(heap));
        assert(table.apart_from(q.processes[i].vmap));
    }
}

/// What spares all tables leaves the processes with their pages.
pub proof fn lemma_spared_all_housed(q: Queue, heap: Heap, after: Heap)
    requires
        q.housed(heap),
        spares_all(after, heap),
    ensures
        q.housed(after),
{
    assert forall|i: int| 0 <= i < q.processes.len() implies (
    #[trigger] q.processes[i]).vmap.owns_pages(after) by {
        assert(q.processes[i].vmap.owns_pages(heap));
    }
}

/// Tables that are fresh in the heap share no block with the processes.
pub proof fn lemma_fresh_apart_from_all(q: Queue, heap: Heap, table: PageTable)
    requires
        q.housed(heap),
        table.fresh_in(heap),
    ensures
        q.apart_from(table),
{
    assert forall|i: int| 0 <= i < q.processes.len() implies table.apart_from(
        (#[trigger] q.processes[i]).vmap,
    ) by {
        assert(q.processes[i].vmap.owns_pages(heap));
        lemma_fresh_apart(table, heap, q.processes[i].vmap);
    }
}

/// Tables that grow by pages that were not live go on sharing no block
/// with the processes.
pub proof fn lemma_grown_apart_from_all(q: Queue, heap: Heap, table: PageTable, before: PageTable)
    requires
        q.housed(heap),
        q.apart_from(before),
        table.grown_from(before, heap),
    ensures
        q.apart_from(table),
{
    assert forall|i: int| 0 <= i < q.processes.len() implies table.apart_from(
        (#[trigger] q.processes[i]).vmap,
    ) by {
        assert(q.processes[i].vmap.owns_pages(heap));
        assert(before.apart_from(q.processes[i].vmap));
        lemma_grown_apart(table, before, heap, q.processes[i].vmap);
    }
}

/// A process that slept for `ms` milliseconds and is switched to comes back
/// with a number of milliseconds in its first register that is no less
/// than `ms`, and with success as its status.
pub proof fn lemma_switch_to_sleeper(q: Queue, tf: TrapFrame, now: u64, start: u64, ms: u32)
    requires
        q.first_ready(now) < q.processes.len(),
        q.processes[q.first_ready(now)].state == State::Waiting(
            crate::process::state::Event::Sleep { start, ms },
        ),
    ensures
        q.switch_to(tf, now).2 == Some(q.processes[q.first_ready(now)].id()),
        q.switch_to(tf, now).1.xregs[crate::traps::frame::REG_ARG0 as int] >= ms,
        q.switch_to(tf, now).1.xregs[crate::traps::frame::REG_STATUS as int]
            == crate::kernel_api::OsError::Success.code_of(),
{
    lemma_first_where(q.processes, |p: ProcessView| p.ready_at(now));
    crate::process::process::lemma_sleeper_wakes(
        q.processes[q.first_ready(now)],
        start,
        ms,
        now,
    );
}

/// A switch away from the process in front, to a state other than
/// `Running`, leaves exactly one process running whenever it succeeds:
/// the one whose identifier it returns, with the trap frame it returns.
pub proof fn lemma_switch_runs_one(q: Queue, new_state: State, tf: TrapFrame, now: u64)
    requires
        q.well_numbered(),
        q.running_in_front(),
        q.processes.len() > 0,
        q.processes[0].id() == tf.tpidr,
        !(new_state is Running),
    ensures
        q.switch(new_state, tf, now).0.well_numbered(),
        q.switch(new_state, tf, now).0.last_id == q.last_id,
        q.switch(new_state, tf, now).2 matches Some(id) ==> q.switch(new_state, tf, now).0.runs(id)
            && q.switch(new_state, tf, now).1.tpidr == id,
        q.switch(new_state, tf, now).2 is None ==> q.switch(new_state, tf, now).0.none_running(),
{
    lemma_schedule_out(q, new_state, tf);
    lemma_switch_to(q.schedule_out(new_state, tf).0, tf, now);
}

/// Round robin: when the process in front gives way as `Ready` and the
/// process behind it can be scheduled, that process runs next, and the
/// process that gave way stands at the back, with all that stood between
/// the two in their places.
pub proof fn lemma_switch_takes_turns(q: Queue, tf: TrapFrame, now: u64)
    requires
        q.processes.len() >= 2,
        q.processes[0].id() == tf.tpidr,
        q.processes[1].ready_at(now),
    ensures
        q.switch(State::Ready, tf, now).2 == Some(q.processes[1].id()),
        q.switch(State::Ready, tf, now).1 == q.processes[1].polled(now).context,
        q.switch(State::Ready, tf, now).0.processes == seq![
            ProcessView { state: State::Running, ..q.processes[1].polled(now) },
        ] + q.processes.subrange(2, q.processes.len() as int) + seq![
            ProcessView { context: tf, state: State::Ready, ..q.processes[0] },
        ],
{
    let f = |p: ProcessView| p.id() == tf.tpidr;
    lemma_first_where_unique(q.processes, f, 0);
    let mid = q.schedule_out(State::Ready, tf).0;
    let g = |p: ProcessView| p.ready_at(now);
    assert(mid.processes[0] == q.processes[1]);
    lemma_first_where_unique(mid.processes, g, 0);
    assert(q.switch(State::Ready, tf, now).0.processes =~= seq![
        ProcessView { state: State::Running, ..q.processes[1].polled(now) },
    ] + q.processes.subrange(2, q.processes.len() as int) + seq![
        ProcessView { context: tf, state: State::Ready, ..q.processes[0] },
    ]);
}

/// On a queue of one process, scheduling that process out as `Ready` and
/// switching at once brings the same process back with the same trap
/// frame.
pub proof fn lemma_round_trip(q: Queue, tf: TrapFrame, now: u64)
    requires
        q.processes.len() == 1,
        q.processes[0].id() == tf.tpidr,
    ensures
        q.schedule_out(State::Ready, tf).1,
        q.schedule_out(State::Ready, tf).0.switch_to(tf, now).2 == Some(tf.tpidr),
        q.schedule_out(State::Ready, tf).0.switch_to(tf, now).1 == tf,
{
    let f = |p: ProcessView| p.id() == tf.tpidr;
    lemma_first_where_unique(q.processes, f, 0);
    let mid = q.schedule_out(State::Ready, tf).0;
    let g = |p: ProcessView| p.ready_at(now);
    assert(mid.processes[0].state == State::Ready);
    lemma_first_where_unique(mid.processes, g, 0);
}

/// Killing keeps the identifiers of the remaining processes and the
/// counter; the process is gone from the queue, and if it was the one in
/// front no process runs afterwards.
pub proof fn lemma_kill(q: Queue, tf: TrapFrame)
    requires
        q.well_numbered(),
    ensures
        q.kill(tf).0.well_numbered(),
        q.kill(tf).0.last_id == q.last_id,
        q.kill(tf).1 is Some <==> exists|i: int|
            0 <= i < q.processes.len() && (#[trigger] q.processes[i]).id() == tf.tpidr,
        q.kill(tf).1 matches Some(id) ==> {
            &&& id == tf.tpidr
            &&& q.kill(tf).0.processes == q.processes.remove(q.position_of(tf.tpidr))
            &&& forall|i: int|
                0 <= i < q.kill(tf).0.processes.len() ==> (#[trigger] q.kill(
                    tf,
                ).0.processes[i]).id() != id
        },
        q.kill(tf).1 is None ==> q.kill(tf).0 == q,
        q.running_in_front() ==> q.kill(tf).0.running_in_front(),
        q.running_in_front() && q.processes.len() > 0 && q.processes[0].id() == tf.tpidr
            ==> q.kill(tf).0.none_running(),
{
    lemma_schedule_out(q, State::Dead, tf);
    let f = |p: ProcessView| p.id() == tf.tpidr;
    lemma_first_where(q.processes, f);
    let pos = q.position_of(tf.tpidr);
    let out = q.schedule_out(State::Dead, tf).0;
    let post = q.kill(tf).0;
    let n = q.processes.len();
    if pos < n {
        assert(post.processes =~= q.processes.remove(pos));
        assert forall|i: int| 0 <= i < n - 1 implies #[trigger] post.processes[i] == out.processes[i] by {}
        assert forall|i: int| 0 <= i < post.processes.len() implies (#[trigger] post.processes[i]).id()
            != tf.tpidr by {
            assert(out.processes[n - 1].id() == tf.tpidr);
            assert(out.processes[i].id() != out.processes[n - 1].id());
        }
        assert(post.well_numbered()) by {
            assert forall|i: int, j: int|
                0 <= i < post.processes.len() && 0 <= j < post.processes.len() && i
                    != j implies (#[trigger] post.processes[i]).id() != (
            #[trigger] post.processes[j]).id() by {
                assert(out.processes[i].id() != out.processes[j].id());
            }
            assert forall|i: int| 0 <= i < post.processes.len() implies 0 < (
            #[trigger] post.processes[i]).id() && post.last_id is Some && post.processes[i].id()
                <= post.last_id->Some_0 by {
                assert(0 < out.processes[i].id());
            }
        }
        if q.running_in_front() {
            assert forall|i: int| 0 < i < post.processes.len() implies !((
            #[trigger] post.processes[i]).state is Running) by {
                assert(!(out.processes[i].state is Running));
            }
            if q.processes[0].id() == tf.tpidr {
                assert forall|i: int| 0 <= i < post.processes.len() implies !((
                #[trigger] post.processes[i]).state is Running) by {
                    assert(!(out.processes[i].state is Running));
                }
            }
        }
    }
}

/// The scheduler: the queue of processes and the identifier handed out
/// last.
pub struct Scheduler {
    processes: VecDeque<Process>,
    last_id: Option<Id>,
}

impl View for Scheduler {
    type V = Queue;

    closed spec fn view(&self) -> Queue {
        Queue {
            processes: Seq::new(self.processes@.len(), |i: int| self.processes@[i]@),
            last_id: self.last_id,
        }
    }
}

impl Scheduler {
    /// Every process in the queue has well-formed tables.
    pub closed spec fn wf(&self) -> bool {
        forall|i: int|
            0 <= i < self.processes@.len() ==> (#[trigger] self.processes@[i])@.vmap.wf()
    }

    /// A scheduler with an empty queue.
    pub fn new() -> (r: Scheduler)
        ensures
            r@ == Queue::empty(),
            r.wf(),
    {
        let r = Scheduler { processes: VecDeque::new(), last_id: None };
        assert(r@.processes =~= Queue::empty().processes);
        r
    }

    /// The number of processes in the queue.
    pub fn len(&self) -> (r: usize)
        ensures
            r == self@.processes.len(),
    {
        self.processes.len()
    }

    /// The identifier and the state of the process at position `i`.
    pub fn peek(&self, i: usize) -> (r: (Id, State))
        requires
            i < self@.processes.len(),
        ensures
            r.0 == self@.processes[i as int].id(),
            r.1 == self@.processes[i as int].state,
    {
        (self.processes[i].context.tpidr, self.processes[i].state)
    }

    /// The saved context of the process at position `i`.
    pub fn context(&self, i: usize) -> (r: TrapFrame)
        requires
            i < self@.processes.len(),
        ensures
            r == self@.processes[i as int].context,
    {
        *self.processes[i].context
    }

    /// Adds a process at the back of the queue and returns the identifier
    /// it was given, which is also stored in its context. Once the
    /// identifiers are used up the process is not added: its pages go back
    /// to `allocator` and the result is `None`.
    pub fn add(&mut self, process: Process, allocator: &mut Allocator) -> (r: Option<Id>)
        requires
            old(self).wf(),
            process@.vmap.wf(),
            old(allocator)@.well_formed(),
        ensures
            final(self).wf(),
            final(self)@ == old(self)@.add(process@).0,
            r == old(self)@.add(process@).1,
            r is Some ==> final(allocator)@ == old(allocator)@,
            r is None ==> final(allocator)@ == process@.vmap.released(
                old(allocator)@,
                crate::vm::pagetable::SLOTS as nat,
            ).dealloc(process@.vmap.base(), crate::vm::pagetable::TABLE_BYTES, crate::param::PAGE_SIZE),
            old(self)@.well_numbered() ==> final(self)@.well_numbered(),
            old(self)@.well_numbered() ==> (r matches Some(id) ==> id > 0 && (
            old(self)@.last_id matches Some(last) ==> id > last)),
            r is None && process@.vmap.owns_pages(old(allocator)@) ==> spares(
                final(allocator)@,
                old(allocator)@,
                process@.vmap,
            ),
            r is None && old(allocator)@.inv() && process@.vmap.owns_pages(old(allocator)@)
                ==> final(allocator)@.inv(),
            final(allocator)@.end == old(allocator)@.end,
    {
        proof {
            if self@.well_numbered() {
                lemma_add(self@, process@);
            }
        }
        let id = match self.last_id {
            None => 1,
            Some(last) => {
                if last == u64::MAX {
                    process.release(allocator);
                    return None;
                }
                last + 1
            },
        };
        let mut process = process;
        process.context.tpidr = id;
        self.last_id = Some(id);
        self.processes.push_back(process);
        assert(self@.processes =~= old(self)@.add(process@).0.processes);
        Some(id)
    }

    /// Finds the process that `tf` belongs to, gives it the state
    /// `new_state`, saves `tf` as its context and moves it to the back of
    /// the queue. Returns whether there is such a process.
    pub fn schedule_out(&mut self, new_state: State, tf: &mut TrapFrame) -> (r: bool)
        requires
            old(self).wf(),
        ensures
            final(self).wf(),
            *final(tf) == *old(tf),
            final(self)@ == old(self)@.schedule_out(new_state, *old(tf)).0,
            r == old(self)@.schedule_out(new_state, *old(tf)).1,
            old(self)@.well_numbered() ==> final(self)@.well_numbered(),
    {
        proof {
            if self@.well_numbered() {
                lemma_schedule_out(self@, new_state, *tf);
            }
        }
        let ghost f = |p: ProcessView| p.id() == tf.tpidr;
        let n = self.processes.len();
        let mut pos: usize = 0;
        while pos < n && self.processes[pos].context.tpidr != tf.tpidr
            invariant
                n == self.processes@.len(),
                pos <= n,
                forall|j: int| 0 <= j < pos ==> !f(#[trigger] self@.processes[j]),
                f == (|p: ProcessView| p.id() == tf.tpidr),
            decreases n - pos,
        {
            pos = pos + 1;
        }
        proof {
            lemma_first_where_unique(self@.processes, f, pos as int);
        }
        if pos < n {
            let mut proc = self.processes.remove(pos).unwrap();
            proc.state = new_state;
            *proc.context = *tf;
            self.processes.push_back(proc);
            assert(self@.processes =~= old(self)@.schedule_out(new_state, *tf).0.processes);
            true
        } else {
            false
        }
    }

    /// Finds the first process that can be scheduled at time `now`, brings
    /// it to the front of the queue, gives it the state `Running` and
    /// copies its context into `tf`. Returns the identifier of that
    /// process, or `None`, with `tf` unchanged, if no process can be
    /// scheduled.
    pub fn switch_to(&mut self, tf: &mut TrapFrame, now: u64) -> (r: Option<Id>)
        requires
            old(self).wf(),
        ensures
            final(self).wf(),
            final(self)@ == old(self)@.switch_to(*old(tf), now).0,
            *final(tf) == old(self)@.switch_to(*old(tf), now).1,
            r == old(self)@.switch_to(*old(tf), now).2,
            old(self)@.well_numbered() ==> final(self)@.well_numbered(),
            old(self)@.well_numbered() && old(self)@.none_running() ==> (r matches Some(id)
                ==> final(self)@.runs(id) && final(tf).tpidr == id),
    {
        proof {
            if self@.well_numbered() {
                lemma_switch_to(self@, *tf, now);
            }
        }
        let ghost f = |p: ProcessView| p.ready_at(now);
        let n = self.processes.len();
        let mut pos: usize = 0;
        while pos < n && !self.processes[pos].is_due(now)
            invariant
                n == self.processes@.len(),
                pos <= n,
                forall|j: int| 0 <= j < pos ==> !f(#[trigger] self@.processes[j]),
                f == (|p: ProcessView| p.ready_at(now)),
            decreases n - pos,
        {
            pos = pos + 1;
        }
        proof {
            lemma_first_where_unique(self@.processes, f, pos as int);
        }
        if pos == n {
            return None;
        }
        let mut proc = self.processes.remove(pos).unwrap();
        let _ = proc.is_ready(now);
        proc.state = State::Running;
        *tf = *proc.context;
        let id = tf.tpidr;
        self.processes.push_front(proc);
        assert(self@.processes =~= old(self)@.switch_to(*old(tf), now).0.processes);
        Some(id)
    }

    /// Schedules the process that `tf` belongs to out with state
    /// `new_state` and switches to the first process that can be scheduled
    /// at time `now`. The result is `None` if no process can be scheduled;
    /// the caller then waits for an interrupt and tries `switch_to` again.
    pub fn switch(&mut self, new_state: State, tf: &mut TrapFrame, now: u64) -> (r: Option<Id>)
        requires
            old(self).wf(),
        ensures
            final(self).wf(),
            final(self)@ == old(self)@.switch(new_state, *old(tf), now).0,
            *final(tf) == old(self)@.switch(new_state, *old(tf), now).1,
            r == old(self)@.switch(new_state, *old(tf), now).2,
            old(self)@.well_numbered() ==> final(self)@.well_numbered(),
            old(self)@.well_numbered() && old(self)@.running_in_front()
                && old(self)@.processes.len() > 0 && old(self)@.processes[0].id()
                == old(tf).tpidr && !(new_state is Running) ==> (r matches Some(id)
                ==> final(self)@.runs(id) && final(tf).tpidr == id),
    {
        proof {
            if self@.well_numbered() && self@.running_in_front() && self@.processes.len() > 0
                && self@.processes[0].id() == tf.tpidr && !(new_state is Running) {
                lemma_switch_runs_one(self@, new_state, *tf, now);
            }
        }
        let _ = self.schedule_out(new_state, tf);
        self.switch_to(tf, now)
    }

    /// Removes the process that `tf` belongs to from the queue and gives
    /// its pages back to `allocator`. Returns the identifier of the
    /// process, or `None` if there is no such process.
    pub fn kill(&mut self, tf: &mut TrapFrame, allocator: &mut Allocator) -> (r: Option<Id>)
        requires
            old(self).wf(),
            old(allocator)@.well_formed(),
        ensures
            final(self).wf(),
            *final(tf) == *old(tf),
            final(self)@ == old(self)@.kill(*old(tf)).0,
            r == old(self)@.kill(*old(tf)).1,
            final(allocator)@.well_formed(),
            r is None ==> final(allocator)@ == old(allocator)@,
            r is Some ==> final(allocator)@ == old(self)@.victim(*old(tf)).vmap.released(
                old(allocator)@,
                crate::vm::pagetable::SLOTS as nat,
            ).dealloc(
                old(self)@.victim(*old(tf)).vmap.base(),
                crate::vm::pagetable::TABLE_BYTES,
                crate::param::PAGE_SIZE,
            ),
            r is Some && old(allocator)@.inv() && old(self)@.victim(*old(tf)).vmap.owns_pages(
                old(allocator)@,
            ) ==> final(allocator)@.inv(),
            r is Some && old(self)@.victim(*old(tf)).vmap.owns_pages(old(allocator)@) ==> spares(
                final(allocator)@,
                old(allocator)@,
                old(self)@.victim(*old(tf)).vmap,
            ),
            final(allocator)@.end == old(allocator)@.end,
            old(self)@.well_numbered() ==> final(self)@.well_numbered(),
    {
        proof {
            if self@.well_numbered() {
                lemma_kill(self@, *tf);
            }
            lemma_first_where(self@.processes, |p: ProcessView| p.id() == tf.tpidr);
        }
        if self.schedule_out(State::Dead, tf) {
            let ghost mid = self@;
            assert(mid.processes[mid.processes.len() - 1].vmap == old(self)@.victim(*tf).vmap);
            let dead = self.processes.pop_back().unwrap();
            assert(dead@ == mid.processes[mid.processes.len() - 1]);
            assert(self@.processes =~= old(self)@.kill(*tf).0.processes);
            dead.release(allocator);
            Some(tf.tpidr)
        } else {
            None
        }
    }
}

/// The scheduler of the machine, which is set up once before use.
pub struct GlobalScheduler(Option<Scheduler>);

impl View for GlobalScheduler {
    type V = Option<Queue>;

    closed spec fn view(&self) -> Option<Queue> {
        match self.0 {
            Some(scheduler) => Some(scheduler@),
            None => None,
        }
    }
}

impl GlobalScheduler {
    /// The scheduler was initialized, and every process in its queue has
    /// well-formed tables.
    pub closed spec fn wf(&self) -> bool {
        self.0 matches Some(scheduler) && scheduler.wf()
    }

    /// A scheduler that is not yet initialized.
    pub fn uninitialized() -> (r: GlobalScheduler)
        ensures
            r@ is None,
    {
        GlobalScheduler(None)
    }

    /// Sets the scheduler up with an empty queue.
    pub fn initialize(&mut self)
        ensures
            final(self).wf(),
            final(self)@ == Some(Queue::empty()),
    {
        self.0 = Some(Scheduler::new());
    }

    /// Whether the scheduler was initialized.
    pub fn is_initialized(&self) -> (r: bool)
        ensures
            r == self@ is Some,
            self.wf() ==> r,
    {
        self.0.is_some()
    }

    /// Exclusive access to the scheduler proper.
    pub fn critical(&mut self) -> (r: &mut Scheduler)
        requires
            old(self).wf(),
        ensures
            r.wf(),
            Some(r@) == old(self)@,
            final(self)@ == Some(final(r)@),
            final(r).wf() ==> final(self).wf(),
    {
        self.0.as_mut().unwrap()
    }

    /// Adds a process to the queue; see `Scheduler::add`.
    pub fn add(&mut self, process: Process, allocator: &mut Allocator) -> (r: Option<Id>)
        requires
            old(self).wf(),
            process@.vmap.wf(),
            old(allocator)@.well_formed(),
        ensures
            final(self).wf(),
            final(self)@ == Some(old(self)@->Some_0.add(process@).0),
            r == old(self)@->Some_0.add(process@).1,
            r is Some ==> final(allocator)@ == old(allocator)@,
            r is None ==> final(allocator)@ == process@.vmap.released(
                old(allocator)@,
                crate::vm::pagetable::SLOTS as nat,
            ).dealloc(process@.vmap.base(), crate::vm::pagetable::TABLE_BYTES, crate::param::PAGE_SIZE),
            old(self)@->Some_0.well_numbered() ==> final(self)@->Some_0.well_numbered(),
            r is None && process@.vmap.owns_pages(old(allocator)@) ==> spares(
                final(allocator)@,
                old(allocator)@,
                process@.vmap,
            ),
            r is None && old(allocator)@.inv() && process@.vmap.owns_pages(old(allocator)@)
                ==> final(allocator)@.inv(),
            final(allocator)@.end == old(allocator)@.end,
    {
        self.critical().add(process, allocator)
    }

    /// Schedules the process that `tf` belongs to out and switches to the
    /// first process that can be scheduled; see `Scheduler::switch`.
    pub fn switch(&mut self, new_state: State, tf: &mut TrapFrame, now: u64) -> (r: Option<Id>)
        requires
            old(self).wf(),
        ensures
            final(self).wf(),
            final(self)@ == Some(old(self)@->Some_0.switch(new_state, *old(tf), now).0),
            *final(tf) == old(self)@->Some_0.switch(new_state, *old(tf), now).1,
            r == old(self)@->Some_0.switch(new_state, *old(tf), now).2,
            old(self)@->Some_0.well_numbered() ==> final(self)@->Some_0.well_numbered(),
    {
        self.critical().switch(new_state, tf, now)
    }

    /// Switches to the first process that can be scheduled; see
    /// `Scheduler::switch_to`.
    pub fn switch_to(&mut self, tf: &mut TrapFrame, now: u64) -> (r: Option<Id>)
        requires
            old(self).wf(),
        ensures
            final(self).wf(),
            final(self)@ == Some(old(self)@->Some_0.switch_to(*old(tf), now).0),
            *final(tf) == old(self)@->Some_0.switch_to(*old(tf), now).1,
            r == old(self)@->Some_0.switch_to(*old(tf), now).2,
            old(self)@->Some_0.well_numbered() ==> final(self)@->Some_0.well_numbered(),
    {
        self.critical().switch_to(tf, now)
    }

    /// Removes the process that `tf` belongs to; see `Scheduler::kill`.
    pub fn kill(&mut self, tf: &mut TrapFrame, allocator: &mut Allocator) -> (r: Option<Id>)
        requires
            old(self).wf(),
            old(allocator)@.well_formed(),
        ensures
            final(self).wf(),
            *final(tf) == *old(tf),
            final(self)@ == Some(old(self)@->Some_0.kill(*old(tf)).0),
            r == old(self)@->Some_0.kill(*old(tf)).1,
            final(allocator)@.well_formed(),
            r is None ==> final(allocator)@ == old(allocator)@,
            r is Some ==> final(allocator)@ == old(self)@->Some_0.victim(*old(tf)).vmap.released(
                old(allocator)@,
                crate::vm::pagetable::SLOTS as nat,
            ).dealloc(
                old(self)@->Some_0.victim(*old(tf)).vmap.base(),
                crate::vm::pagetable::TABLE_BYTES,
                crate::param::PAGE_SIZE,
            ),
            r is Some && old(allocator)@.inv() && old(self)@->Some_0.victim(
                *old(tf),
            ).vmap.owns_pages(old(allocator)@) ==> final(allocator)@.inv(),
            r is Some && old(self)@->Some_0.victim(*old(tf)).vmap.owns_pages(old(allocator)@)
                ==> spares(
                final(allocator)@,
                old(allocator)@,
                old(self)@->Some_0.victim(*old(tf)).vmap,
            ),
            final(allocator)@.end == old(allocator)@.end,
            old(self)@->Some_0.well_numbered() ==> final(self)@->Some_0.well_numbered(),
    {
        self.critical().kill(tf, allocator)
    }

    /// Gets the machine ready to run the processes in the queue: enables the
    /// timer interrupt and registers `handler` as what is run when it is
    /// taken, in place of any handler registered for it before. Returns the
    /// context of the process at the front of the queue, with which the
    /// machine enters user level.
    pub fn start<H: IrqHandler>(
        &self,
        controller: &mut Controller,
        irq: &mut Irq<H>,
        handler: H,
    ) -> (r: TrapFrame)
        requires
            self.wf(),
            self@->Some_0.processes.len() > 0,
            old(irq).is_initialized(),
        ensures
            r == self@->Some_0.processes[0].context,
            final(controller).registers.irq_enable[0] == old(controller).registers.irq_enable[0]
                | (1u32 << 1),
            final(controller).registers.irq_enable[1] == old(controller).registers.irq_enable[1],
            bit_set(final(controller).registers.irq_enable[0], 1),
            final(controller).registers.irq_pending == old(controller).registers.irq_pending,
            final(controller).registers.irq_disable == old(controller).registers.irq_disable,
            final(irq).is_initialized(),
            final(irq).handler(Interrupt::Timer1) == Some(handler),
            forall|other: Interrupt|
                other != Interrupt::Timer1 ==> final(irq).handler(other) == old(irq).handler(other),
    {
        controller.enable(Interrupt::Timer1);
        irq.register(Interrupt::Timer1, handler);
        self.first_context()
    }

    /// The context of the process at the front of the queue: the one that
    /// the machine starts with.
    pub fn first_context(&self) -> (r: TrapFrame)
        requires
            self.wf(),
            self@->Some_0.processes.len() > 0,
        ensures
            r == self@->Some_0.processes[0].context,
    {
        match &self.0 {
            Some(scheduler) => scheduler.context(0),
            None => TrapFrame::default(),
        }
    }
}

} // verus!
