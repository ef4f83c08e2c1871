//! The register snapshot that is spilled on exception entry and reloaded on
//! exception return.

use vstd::prelude::*;

verus! {

/// Index of the register that carries the first argument and the first
/// result of a system call.
pub const REG_ARG0: usize = 0;

/// Index of the register that carries the second result of a system call.
pub const REG_ARG1: usize = 1;

/// Index of the register that carries the status of a system call.
pub const REG_STATUS: usize = 7;

/// The saved state of a processor core. The fields stand in the order in
/// which the vector entry code pushes them.
#[derive(Debug, Copy, Clone, PartialEq, Eq)]
pub struct TrapFrame {
    /// Translation table bases: kernel table first, user table second.
    pub ttbr: [u64; 2],
    /// Address at which execution resumes.
    pub elr: u64,
    /// Saved program status.
    pub spsr: u64,
    /// Stack pointer of the interrupted level.
    pub sp: u64,
    /// Thread identifier; holds the id of the process the frame belongs to.
    pub tpidr: u64,
    /// The 128-bit SIMD registers.
    pub qregs: [u128; 32],
    /// The general purpose registers.
    pub xregs: [u64; 32],
}

impl TrapFrame {
    /// The frame in which every register is zero.
    pub open spec fn zeroed() -> TrapFrame {
        TrapFrame {
            ttbr: vstd::array::spec_array_fill_for_copy_type::<u64, 2>(0),
            elr: 0,
            spsr: 0,
            sp: 0,
            tpidr: 0,
            qregs: vstd::array::spec_array_fill_for_copy_type::<u128, 32>(0),
            xregs: vstd::array::spec_array_fill_for_copy_type::<u64, 32>(0),
        }
    }

    /// This frame with general purpose register `i` replaced by `v`.
    pub open spec fn with_xreg(self, i: int, v: u64) -> TrapFrame {
        TrapFrame { xregs: vstd::array::spec_array_update(self.xregs, i, v), ..self }
    }

    /// Stores `v` in general purpose register `i`.
    pub fn set_xreg(&mut self, i: usize, v: u64)
        requires
            i < 32,
        ensures
            *final(self) == old(self).with_xreg(i as int, v),
            final(self).xregs@ == old(self).xregs@.update(i as int, v),
    {
        self.xregs[i] = v;
    }
}

impl Default for TrapFrame {
    fn default() -> (r: TrapFrame)
        ensures
            r == TrapFrame::zeroed(),
    {
        TrapFrame {
            ttbr: [0u64; 2],
            elr: 0,
            spsr: 0,
            sp: 0,
            tpidr: 0,
            qregs: [0u128; 32],
            xregs: [0u64; 32],
        }
    }
}

} // verus!
