//! Trap frames, exception syndromes and the routing of exceptions.

use vstd::prelude::*;
use crate::interrupt::{Controller, Interrupt, bit_set, register_bit};
use crate::kernel::{Kernel, Next, settled};
use crate::traps::frame::TrapFrame;
use crate::traps::syndrome::{Syndrome, syndrome_of};
use crate::traps::syscall::{handle_syscall, served};

pub mod frame;
pub mod irq;
pub mod syndrome;
pub mod syscall;

verus! {

/// The kind of an exception.
#[derive(Debug, PartialEq, Eq, Copy, Clone, Structural)]
pub enum Kind {
    Synchronous,
    Irq,
    Fiq,
    SError,
}

/// Where an exception was taken from.
#[derive(Debug, PartialEq, Eq, Copy, Clone, Structural)]
pub enum Source {
    CurrentSpEl0,
    CurrentSpElx,
    LowerAArch64,
    LowerAArch32,
}

/// The source and the kind of an exception, as the vector that was entered
/// tells them.
#[derive(Debug, PartialEq, Eq, Copy, Clone, Structural)]
pub struct Info {
    pub source: Source,
    pub kind: Kind,
}

impl Kind {
    /// The kind with number `raw`, if there is one: the kinds are numbered
    /// from 0 in the order `Synchronous`, `Irq`, `Fiq`, `SError`.
    pub fn from_raw(raw: u16) -> (r: Option<Kind>)
        ensures
            r == (if raw == 0 {
                Some(Kind::Synchronous)
            } else if raw == 1 {
                Some(Kind::Irq)
            } else if raw == 2 {
                Some(Kind::Fiq)
            } else if raw == 3 {
                Some(Kind::SError)
            } else {
                None
            }),
    {
        match raw {
            0 => Some(Kind::Synchronous),
            1 => Some(Kind::Irq),
            2 => Some(Kind::Fiq),
            3 => Some(Kind::SError),
            _ => None,
        }
    }
}

impl Source {
    /// The source with number `raw`, if there is one: the sources are
    /// numbered from 0 in the order `CurrentSpEl0`, `CurrentSpElx`,
    /// `LowerAArch64`, `LowerAArch32`.
    pub fn from_raw(raw: u16) -> (r: Option<Source>)
        ensures
            r == (if raw == 0 {
                Some(Source::CurrentSpEl0)
            } else if raw == 1 {
                Some(Source::CurrentSpElx)
            } else if raw == 2 {
                Some(Source::LowerAArch64)
            } else if raw == 3 {
                Some(Source::LowerAArch32)
            } else {
                None
            }),
    {
        match raw {
            0 => Some(Source::CurrentSpEl0),
            1 => Some(Source::CurrentSpElx),
            2 => Some(Source::LowerAArch64),
            3 => Some(Source::LowerAArch32),
            _ => None,
        }
    }
}

/// What is left to do for an exception once the kernel state was brought
/// up to date.
#[derive(Debug, PartialEq, Eq)]
pub enum Action {
    /// Go on as `Next` says.
    Resume(Next),
    /// A breakpoint was hit: run the debug shell, then return.
    Shell,
    /// Run the handler of each of these pending interrupts, in this order,
    /// then return.
    Interrupts(Vec<Interrupt>),
    /// Report the synchronous exception that has no handling, then return.
    Unhandled(Syndrome),
    /// Report the exception of a kind that has no handling, then return.
    Ignored(Kind),
}

/// The sources among the first `n` that are pending in `controller`, in
/// the order of their positions.
pub open spec fn pending_among(controller: Controller, n: int) -> Seq<Interrupt>
    decreases n,
{
    if n <= 0 {
        Seq::empty()
    } else {
        let rest = pending_among(controller, n - 1);
        let source = Interrupt::at(n - 1);
        if bit_set(
            controller.registers.irq_pending[register_bit(source).0],
            register_bit(source).1,
        ) {
            rest.push(source)
        } else {
            rest
        }
    }
}

/// The address of the instruction that follows the one at `elr`.
pub open spec fn skipped(elr: u64) -> u64 {
    if elr + 4 <= u64::MAX {
        (elr + 4) as u64
    } else {
        (elr + 4 - u64::MAX - 1) as u64
    }
}

/// The pending interrupt sources, in the order of their positions.
pub fn pending_interrupts(controller: &Controller) -> (r: Vec<Interrupt>)
    ensures
        r@ == pending_among(*controller, 8),
{
    let sources = Interrupt::iter();
    let mut pending: Vec<Interrupt> = Vec::new();
    let mut i: usize = 0;
    while i < 8
        invariant
            i <= 8,
            pending@ == pending_among(*controller, i as int),
            forall|j: int| 0 <= j < 8 ==> #[trigger] sources[j] == Interrupt::at(j),
        decreases 8 - i,
    {
        let source = sources[i];
        if controller.is_pending(source) {
            pending.push(source);
        }
        i = i + 1;
    }
    pending
}

/// Handles the exception that `info` describes, taken at time `now` with
/// the syndrome register at `esr` and the state of the interrupted code in
/// `tf`.
///
/// A breakpoint is answered with the debug shell and is skipped on return.
/// A supervisor call is served as a system call. Any other synchronous
/// exception is reported. For an interrupt request the pending sources are
/// returned for their handlers to run. Anything else is reported.
pub fn handle_exception(
    info: Info,
    esr: u32,
    tf: &mut TrapFrame,
    kernel: &mut Kernel,
    controller: &Controller,
    now: u64,
) -> (r: Action)
    requires
        old(kernel).wf(),
    ensures
        final(kernel).wf(),
        old(kernel).sound() ==> final(kernel).sound(),
        old(kernel).inv() && old(kernel).fronts(*old(tf)) ==> final(kernel).inv() && (match r {
            Action::Resume(next) => settled(*final(kernel), *final(tf), next),
            _ => final(kernel).fronts(*final(tf)),
        }),
        match info.kind {
            Kind::Synchronous => match syndrome_of(esr) {
                Syndrome::Brk(_) => {
                    &&& r == Action::Shell
                    &&& *final(tf) == (TrapFrame { elr: skipped(old(tf).elr), ..*old(tf) })
                    &&& *final(kernel) == *old(kernel)
                },
                Syndrome::Svc(num) => {
                    &&& r matches Action::Resume(next)
                    &&& served(num, *old(tf), *old(kernel), now, *final(tf), *final(kernel), next)
                },
                other => {
                    &&& r == Action::Unhandled(other)
                    &&& *final(tf) == *old(tf)
                    &&& *final(kernel) == *old(kernel)
                },
            },
            Kind::Irq => {
                &&& r matches Action::Interrupts(sources)
                &&& sources@ == pending_among(*controller, 8)
                &&& *final(tf) == *old(tf)
                &&& *final(kernel) == *old(kernel)
            },
            other => {
                &&& r == Action::Ignored(other)
                &&& *final(tf) == *old(tf)
                &&& *final(kernel) == *old(kernel)
            },
        },
{
    match info.kind {
        Kind::Synchronous => {
            let syn = Syndrome::from(esr);
            match syn {
                Syndrome::Brk(_) => {
                    tf.elr = tf.elr.wrapping_add(4);
                    Action::Shell
                },
                Syndrome::Svc(n) => Action::Resume(handle_syscall(n, tf, kernel, now)),
                _ => Action::Unhandled(syn),
            }
        },
        Kind::Irq => Action::Interrupts(pending_interrupts(controller)),
        _ => Action::Ignored(info.kind),
    }
}

} // verus!
