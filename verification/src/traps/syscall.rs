//! The system calls.
//!
//! A call takes its arguments from the first registers of the trap frame of
//! the caller and leaves its results there, and its status in register 7.

use vstd::prelude::*;
use crate::kernel::{Kernel, Next, lemma_switch_keeps, next_after, settled, switched};
use crate::process::scheduler::{lemma_kill, lemma_kill_housed};
use crate::kernel_api::{OsError, NR_EXIT, NR_GETPID, NR_SLEEP, NR_TIME, NR_WRITE};
use crate::process::process::Id;
use crate::process::state::{Event, State};
use crate::traps::frame::{TrapFrame, REG_ARG0, REG_ARG1, REG_STATUS};

verus! {

/// The low 32 bits of `x`.
pub open spec fn low32(x: u64) -> u32 {
    (x % 0x1_0000_0000) as u32
}

/// The low 8 bits of `x`.
pub open spec fn low8(x: u64) -> u8 {
    (x % 0x100) as u8
}

/// The frame `tf` with the status of success.
pub open spec fn succeeded(tf: TrapFrame) -> TrapFrame {
    tf.with_xreg(REG_STATUS as int, OsError::Success.code_of())
}

/// The frame of a caller that asked for the time at `now`, in microseconds
/// since boot: whole seconds in the first register and the rest in
/// nanoseconds in the second.
pub open spec fn time_frame(tf: TrapFrame, now: u64) -> TrapFrame {
    succeeded(
        tf.with_xreg(REG_ARG0 as int, now / 1_000_000).with_xreg(
            REG_ARG1 as int,
            ((now % 1_000_000) * 1000) as u64,
        ),
    )
}

/// The frame of a caller that asked for its identifier.
pub open spec fn getpid_frame(tf: TrapFrame) -> TrapFrame {
    succeeded(tf.with_xreg(REG_ARG0 as int, tf.tpidr))
}

/// What writing the byte `b` sends to the console: a line feed is preceded
/// by a carriage return.
pub open spec fn written(b: u8) -> Seq<u8> {
    if b == 0x0a {
        seq![0x0du8, 0x0au8]
    } else {
        seq![b]
    }
}

/// The state that a process is in while it sleeps for `ms` milliseconds
/// from time `now`.
pub open spec fn sleeping(ms: u32, now: u64) -> State {
    State::Waiting(Event::Sleep { start: now, ms })
}

/// Sleeps for `ms` milliseconds: the caller is scheduled out until `ms`
/// milliseconds after `now` have gone by, and the first process that can
/// be scheduled is switched to. When the caller is scheduled again it finds
/// the milliseconds that went by in its first register, and success as the
/// status.
pub fn sys_sleep(ms: u32, tf: &mut TrapFrame, kernel: &mut Kernel, now: u64) -> (r: Next)
    requires
        old(kernel).wf(),
    ensures
        final(kernel).wf(),
        final(kernel).queue() == old(kernel).queue().switch(sleeping(ms, now), *old(tf), now).0,
        *final(tf) == old(kernel).queue().switch(sleeping(ms, now), *old(tf), now).1,
        r == next_after(old(kernel).queue().switch(sleeping(ms, now), *old(tf), now).2),
        final(kernel).allocator@ == old(kernel).allocator@,
        final(kernel).console@ == old(kernel).console@,
        final(kernel).tick_at == old(kernel).tick_at,
        old(kernel).sound() ==> final(kernel).sound(),
        old(kernel).inv() && old(kernel).fronts(*old(tf)) ==> final(kernel).inv() && switched(
            *final(kernel),
            *final(tf),
            r,
        ),
{
    proof {
        if kernel.sound() {
            lemma_switch_keeps(kernel.queue(), sleeping(ms, now), *tf, now, kernel.allocator@);
        }
    }
    let state = State::Waiting(Event::Sleep { start: now, ms });
    match kernel.scheduler.switch(state, tf, now) {
        Some(_) => Next::Return,
        None => Next::Switch,
    }
}

/// Gives the caller the time `now`: seconds in its first register, the
/// fraction in nanoseconds in its second.
pub fn sys_time(tf: &mut TrapFrame, now: u64)
    ensures
        *final(tf) == time_frame(*old(tf), now),
{
    tf.set_xreg(REG_ARG0, now / 1_000_000);
    tf.set_xreg(REG_ARG1, (now % 1_000_000) * 1000);
    tf.set_xreg(REG_STATUS, OsError::Success.code());
}

/// Ends the caller: removes it from the queue and gives its memory back.
/// Returns the identifier of the process that ended, or `None`, with
/// nothing changed, if `tf` belongs to no process.
pub fn sys_exit(tf: &mut TrapFrame, kernel: &mut Kernel) -> (r: Option<Id>)
    requires
        old(kernel).wf(),
    ensures
        final(kernel).wf(),
        *final(tf) == *old(tf),
        final(kernel).queue() == old(kernel).queue().kill(*old(tf)).0,
        r == old(kernel).queue().kill(*old(tf)).1,
        r is None ==> final(kernel).allocator@ == old(kernel).allocator@,
        r is Some ==> final(kernel).allocator@ == old(kernel).queue().victim(
            *old(tf),
        ).vmap.released(old(kernel).allocator@, crate::vm::pagetable::SLOTS as nat).dealloc(
            old(kernel).queue().victim(*old(tf)).vmap.base(),
            crate::vm::pagetable::TABLE_BYTES,
            crate::param::PAGE_SIZE,
        ),
        final(kernel).console@ == old(kernel).console@,
        final(kernel).tick_at == old(kernel).tick_at,
        old(kernel).sound() ==> final(kernel).sound(),
        old(kernel).inv() ==> final(kernel).inv(),
        old(kernel).inv() && old(kernel).fronts(*old(tf)) ==> r == Some(old(tf).tpidr)
            && final(kernel).queue().none_running(),
{
    proof {
        if kernel.sound() {
            lemma_kill(kernel.queue(), *tf);
            crate::process::scheduler::lemma_first_where(
                kernel.queue().processes,
                |p: crate::process::process::ProcessView| p.id() == tf.tpidr,
            );
        }
    }
    let r = kernel.scheduler.kill(tf, &mut kernel.allocator);
    proof {
        if old(kernel).sound() && r is Some {
            lemma_kill_housed(old(kernel).queue(), *tf, old(kernel).allocator@, kernel.allocator@);
        }
    }
    r
}

/// Writes the byte `b` to the console.
pub fn sys_write(b: u8, tf: &mut TrapFrame, console: &mut Vec<u8>)
    ensures
        *final(tf) == succeeded(*old(tf)),
        final(console)@ == old(console)@ + written(b),
{
    if b == 0x0a {
        console.push(0x0d);
    }
    console.push(b);
    tf.set_xreg(REG_STATUS, OsError::Success.code());
    assert(console@ =~= old(console)@ + written(b));
}

/// Gives the caller its identifier in its first register.
pub fn sys_getpid(tf: &mut TrapFrame)
    ensures
        *final(tf) == getpid_frame(*old(tf)),
{
    let id = tf.tpidr;
    tf.set_xreg(REG_ARG0, id);
    tf.set_xreg(REG_STATUS, OsError::Success.code());
}

/// The system call with number `num`, made at time `now` by the caller
/// with frame `tf0` in kernel state `k0`, leaves the frame `tf1` and the
/// kernel state `k1`, and the machine goes on as `r` says.
pub open spec fn served(
    num: u16,
    tf0: TrapFrame,
    k0: Kernel,
    now: u64,
    tf1: TrapFrame,
    k1: Kernel,
    r: Next,
) -> bool {
    &&& num == NR_SLEEP ==> {
        let ms = low32(tf0.xregs[REG_ARG0 as int]);
        &&& k1.queue() == k0.queue().switch(sleeping(ms, now), tf0, now).0
        &&& tf1 == k0.queue().switch(sleeping(ms, now), tf0, now).1
        &&& r == next_after(k0.queue().switch(sleeping(ms, now), tf0, now).2)
    }
    &&& num == NR_EXIT ==> {
        &&& k1.queue() == k0.queue().kill(tf0).0
        &&& tf1 == tf0
        &&& r == (if k0.queue().kill(tf0).1 is Some {
            Next::Switch
        } else {
            Next::Return
        })
        &&& k0.queue().kill(tf0).1 is None ==> k1.allocator@ == k0.allocator@
        &&& k0.queue().kill(tf0).1 is Some ==> k1.allocator@ == k0.queue().victim(
            tf0,
        ).vmap.released(k0.allocator@, crate::vm::pagetable::SLOTS as nat).dealloc(
            k0.queue().victim(tf0).vmap.base(),
            crate::vm::pagetable::TABLE_BYTES,
            crate::param::PAGE_SIZE,
        )
    }
    &&& num == NR_TIME ==> tf1 == time_frame(tf0, now) && r == Next::Return
    &&& num == NR_GETPID ==> tf1 == getpid_frame(tf0) && r == Next::Return
    &&& num == NR_WRITE ==> tf1 == succeeded(tf0) && r == Next::Return
    &&& !(NR_SLEEP <= num <= NR_WRITE) ==> tf1 == tf0.with_xreg(
        REG_STATUS as int,
        OsError::Unknown.code_of(),
    ) && r == Next::Return
    &&& num != NR_SLEEP && num != NR_EXIT ==> k1.queue() == k0.queue()
    &&& num != NR_EXIT ==> k1.allocator@ == k0.allocator@
    &&& k1.console@ == (if num == NR_WRITE {
        k0.console@ + written(low8(tf0.xregs[REG_ARG0 as int]))
    } else {
        k0.console@
    })
    &&& k1.tick_at == k0.tick_at
}

/// Serves the system call with number `num` for the caller whose frame is
/// `tf`, at time `now`. A number that stands for no call is answered with
/// the status `Unknown`.
pub fn handle_syscall(num: u16, tf: &mut TrapFrame, kernel: &mut Kernel, now: u64) -> (r: Next)
    requires
        old(kernel).wf(),
    ensures
        final(kernel).wf(),
        served(num, *old(tf), *old(kernel), now, *final(tf), *final(kernel), r),
        old(kernel).sound() ==> final(kernel).sound(),
        old(kernel).inv() && old(kernel).fronts(*old(tf)) ==> final(kernel).inv() && settled(
            *final(kernel),
            *final(tf),
            r,
        ),
{
    proof {
        broadcast use vstd::array::group_array_axioms;

    }
    let arg = tf.xregs[REG_ARG0];
    if num as usize == NR_SLEEP {
        assert(arg & 0xffff_ffff == arg % 0x1_0000_0000) by (bit_vector);
        sys_sleep((arg & 0xffff_ffff) as u32, tf, kernel, now)
    } else if num as usize == NR_EXIT {
        match sys_exit(tf, kernel) {
            Some(_) => Next::Switch,
            None => Next::Return,
        }
    } else if num as usize == NR_TIME {
        sys_time(tf, now);
        Next::Return
    } else if num as usize == NR_GETPID {
        sys_getpid(tf);
        Next::Return
    } else if num as usize == NR_WRITE {
        assert(arg & 0xff == arg % 0x100) by (bit_vector);
        sys_write((arg & 0xff) as u8, tf, &mut kernel.console);
        Next::Return
    } else {
        tf.set_xreg(REG_STATUS, OsError::Unknown.code());
        Next::Return
    }
}

} // verus!
