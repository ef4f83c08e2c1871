//! Decoding of the exception syndrome register.

use vstd::prelude::*;
use vstd::std_specs::convert::FromSpecImpl;

verus! {

/// The cause of a memory abort, from the fault status code.
#[derive(Debug, PartialEq, Eq, Copy, Clone, Structural)]
pub enum Fault {
    AddressSize,
    Translation,
    AccessFlag,
    Permission,
    Alignment,
    TlbConflict,
    Other(u8),
}

/// The low eight bits of an instruction specific syndrome.
pub open spec fn fault_status(val: u32) -> int {
    val as int % 0x100
}

/// The fault that the status code in the low eight bits of `val` names.
pub open spec fn fault_of(val: u32) -> Fault {
    let status = fault_status(val);
    if status <= 0b0011 {
        Fault::AddressSize
    } else if 0b0100 <= status <= 0b0111 {
        Fault::Translation
    } else if 0b1001 <= status <= 0b1011 {
        Fault::AccessFlag
    } else if 0b1101 <= status <= 0b1111 {
        Fault::Permission
    } else if status == 0b100_001 {
        Fault::Alignment
    } else if status == 0b110_000 {
        Fault::TlbConflict
    } else {
        Fault::Other(status as u8)
    }
}

impl From<u32> for Fault {
    fn from(val: u32) -> (r: Fault) {
        assert(val & 0xff == val % 0x100) by (bit_vector);
        let status = (val & 0xff) as u8;
        if status <= 0b0011 {
            Fault::AddressSize
        } else if status <= 0b0111 {
            Fault::Translation
        } else if 0b1001 <= status && status <= 0b1011 {
            Fault::AccessFlag
        } else if 0b1101 <= status && status <= 0b1111 {
            Fault::Permission
        } else if status == 0b100_001 {
            Fault::Alignment
        } else if status == 0b110_000 {
            Fault::TlbConflict
        } else {
            Fault::Other(status)
        }
    }
}

impl FromSpecImpl<u32> for Fault {
    open spec fn obeys_from_spec() -> bool {
        true
    }

    open spec fn from_spec(val: u32) -> Fault {
        fault_of(val)
    }
}

/// The translation level at which a fault was taken: the low two bits.
pub open spec fn fault_level_of(val: u32) -> u8 {
    (val as int % 4) as u8
}

/// The translation level at which a fault was taken.
pub fn fault_level(val: u32) -> (r: u8)
    ensures
        r == fault_level_of(val),
{
    assert(val & 0b11 == val % 4) by (bit_vector);
    (val & 0b11) as u8
}

/// The decoded reason of a synchronous exception.
#[derive(Debug, PartialEq, Eq, Copy, Clone, Structural)]
pub enum Syndrome {
    Unknown,
    WfiWfe,
    SimdFp,
    IllegalExecutionState,
    Svc(u16),
    Hvc(u16),
    Smc(u16),
    MsrMrsSystem,
    InstructionAbort { kind: Fault, level: u8 },
    PCAlignmentFault,
    DataAbort { kind: Fault, level: u8 },
    SpAlignmentFault,
    TrappedFpu,
    SError,
    Breakpoint,
    Step,
    Watchpoint,
    Brk(u16),
    Other(u32),
}

/// The exception class: bits 31 to 26 of the syndrome register.
pub open spec fn exception_class(esr: u32) -> int {
    esr as int / 0x400_0000
}

/// The instruction specific syndrome: bits 24 to 0 of the syndrome register.
pub open spec fn specific_syndrome(esr: u32) -> u32 {
    (esr as int % 0x200_0000) as u32
}

/// The 16-bit immediate of an `svc`, `hvc`, `smc` or `brk` instruction: bits
/// 15 to 0 of the syndrome register.
pub open spec fn immediate(esr: u32) -> u16 {
    (esr as int % 0x1_0000) as u16
}

/// The syndrome that the register value `esr` encodes.
pub open spec fn syndrome_of(esr: u32) -> Syndrome {
    let class = exception_class(esr);
    let iss = specific_syndrome(esr);
    if class == 0b00_0000 {
        Syndrome::Unknown
    } else if class == 0b00_0001 {
        Syndrome::WfiWfe
    } else if class == 0b00_0111 {
        Syndrome::SimdFp
    } else if class == 0b00_1110 {
        Syndrome::IllegalExecutionState
    } else if class == 0b01_0101 {
        Syndrome::Svc(immediate(esr))
    } else if class == 0b01_0110 {
        Syndrome::Hvc(immediate(esr))
    } else if class == 0b01_0111 {
        Syndrome::Smc(immediate(esr))
    } else if class == 0b01_1000 {
        Syndrome::MsrMrsSystem
    } else if class == 0b10_0000 || class == 0b10_0001 {
        Syndrome::InstructionAbort { kind: fault_of(iss), level: fault_level_of(iss) }
    } else if class == 0b10_0010 {
        Syndrome::PCAlignmentFault
    } else if class == 0b10_0100 || class == 0b10_0101 {
        Syndrome::DataAbort { kind: fault_of(iss), level: fault_level_of(iss) }
    } else if class == 0b10_0110 {
        Syndrome::SpAlignmentFault
    } else if class == 0b10_1100 {
        Syndrome::TrappedFpu
    } else if class == 0b11_0000 || class == 0b11_0001 {
        Syndrome::Breakpoint
    } else if class == 0b11_0010 || class == 0b11_0011 {
        Syndrome::Step
    } else if class == 0b11_0100 || class == 0b11_0101 {
        Syndrome::Watchpoint
    } else if class == 0b11_1100 {
        Syndrome::Brk(immediate(esr))
    } else {
        Syndrome::Other(esr)
    }
}

impl From<u32> for Syndrome {
    fn from(esr: u32) -> (r: Syndrome) {
        assert((esr >> 26) & 0x3f == esr / 0x400_0000) by (bit_vector);
        assert(esr & 0x1ff_ffff == esr % 0x200_0000) by (bit_vector);
        assert(esr & 0xffff == esr % 0x1_0000) by (bit_vector);
        let exc_class = (esr >> 26) & 0x3f;
        let iss = esr & 0x1ff_ffff;
        let imm = (esr & 0xffff) as u16;
        match exc_class {
            0b00_0000 => Syndrome::Unknown,
            0b00_0001 => Syndrome::WfiWfe,
            0b00_0111 => Syndrome::SimdFp,
            0b00_1110 => Syndrome::IllegalExecutionState,
            0b01_0101 => Syndrome::Svc(imm),
            0b01_0110 => Syndrome::Hvc(imm),
            0b01_0111 => Syndrome::Smc(imm),
            0b01_1000 => Syndrome::MsrMrsSystem,
            0b10_0000 | 0b10_0001 => Syndrome::InstructionAbort {
                kind: Fault::from(iss),
                level: fault_level(iss),
            },
            0b10_0010 => Syndrome::PCAlignmentFault,
            0b10_0100 | 0b10_0101 => Syndrome::DataAbort {
                kind: Fault::from(iss),
                level: fault_level(iss),
            },
            0b10_0110 => Syndrome::SpAlignmentFault,
            0b10_1100 => Syndrome::TrappedFpu,
            0b11_0000 | 0b11_0001 => Syndrome::Breakpoint,
            0b11_0010 | 0b11_0011 => Syndrome::Step,
            0b11_0100 | 0b11_0101 => Syndrome::Watchpoint,
            0b11_1100 => Syndrome::Brk(imm),
            _ => Syndrome::Other(esr),
        }
    }
}

impl FromSpecImpl<u32> for Syndrome {
    open spec fn obeys_from_spec() -> bool {
        true
    }

    open spec fn from_spec(esr: u32) -> Syndrome {
        syndrome_of(esr)
    }
}

} // verus!
