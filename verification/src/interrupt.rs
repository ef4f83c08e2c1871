//! The interrupt sources and the interrupt controller.

use vstd::prelude::*;

verus! {

/// Address of the registers of the interrupt controller.
pub const INT_BASE: u64 = 0x3f00_b200;

/// Offset of the first enable register from `INT_BASE`.
pub const ENABLE_OFFSET: u64 = 0x10;

/// An interrupt source.
#[derive(Debug, Copy, Clone, PartialEq, Eq, Structural)]
pub enum Interrupt {
    Timer1,
    Timer3,
    Usb,
    Gpio0,
    Gpio1,
    Gpio2,
    Gpio3,
    Uart,
}

impl Interrupt {
    /// Number of interrupt sources.
    pub const MAX: usize = 8;

    /// The number of the source in the interrupt controller.
    pub open spec fn number_of(self) -> u8 {
        match self {
            Interrupt::Timer1 => 1,
            Interrupt::Timer3 => 3,
            Interrupt::Usb => 9,
            Interrupt::Gpio0 => 49,
            Interrupt::Gpio1 => 50,
            Interrupt::Gpio2 => 51,
            Interrupt::Gpio3 => 52,
            Interrupt::Uart => 57,
        }
    }

    /// The position of the source among all sources.
    pub open spec fn index_of(self) -> int {
        match self {
            Interrupt::Timer1 => 0,
            Interrupt::Timer3 => 1,
            Interrupt::Usb => 2,
            Interrupt::Gpio0 => 3,
            Interrupt::Gpio1 => 4,
            Interrupt::Gpio2 => 5,
            Interrupt::Gpio3 => 6,
            Interrupt::Uart => 7,
        }
    }

    /// The source at position `i`.
    pub open spec fn at(i: int) -> Interrupt {
        if i == 0 {
            Interrupt::Timer1
        } else if i == 1 {
            Interrupt::Timer3
        } else if i == 2 {
            Interrupt::Usb
        } else if i == 3 {
            Interrupt::Gpio0
        } else if i == 4 {
            Interrupt::Gpio1
        } else if i == 5 {
            Interrupt::Gpio2
        } else if i == 6 {
            Interrupt::Gpio3
        } else {
            Interrupt::Uart
        }
    }

    /// `irq` is the number of a source.
    pub open spec fn is_number(irq: int) -> bool {
        exists|i: int| 0 <= i < 8 && #[trigger] Interrupt::at(i).number_of() == irq
    }

    /// All sources, in the order of their positions.
    pub fn iter() -> (r: [Interrupt; 8])
        ensures
            forall|i: int| 0 <= i < 8 ==> #[trigger] r[i] == Interrupt::at(i),
    {
        [
            Interrupt::Timer1,
            Interrupt::Timer3,
            Interrupt::Usb,
            Interrupt::Gpio0,
            Interrupt::Gpio1,
            Interrupt::Gpio2,
            Interrupt::Gpio3,
            Interrupt::Uart,
        ]
    }

    /// The number of the source in the interrupt controller.
    pub fn number(&self) -> (r: u8)
        ensures
            r == self.number_of(),
    {
        match self {
            Interrupt::Timer1 => 1,
            Interrupt::Timer3 => 3,
            Interrupt::Usb => 9,
            Interrupt::Gpio0 => 49,
            Interrupt::Gpio1 => 50,
            Interrupt::Gpio2 => 51,
            Interrupt::Gpio3 => 52,
            Interrupt::Uart => 57,
        }
    }

    /// The position of the source among all sources.
    pub fn to_index(&self) -> (r: usize)
        ensures
            r == self.index_of(),
            r < Interrupt::MAX,
    {
        match self {
            Interrupt::Timer1 => 0,
            Interrupt::Timer3 => 1,
            Interrupt::Usb => 2,
            Interrupt::Gpio0 => 3,
            Interrupt::Gpio1 => 4,
            Interrupt::Gpio2 => 5,
            Interrupt::Gpio3 => 6,
            Interrupt::Uart => 7,
        }
    }

    /// The source at position `i`.
    pub fn from_index(i: usize) -> (r: Interrupt)
        requires
            i < Interrupt::MAX,
        ensures
            r == Interrupt::at(i as int),
            r.index_of() == i,
    {
        match i {
            0 => Interrupt::Timer1,
            1 => Interrupt::Timer3,
            2 => Interrupt::Usb,
            3 => Interrupt::Gpio0,
            4 => Interrupt::Gpio1,
            5 => Interrupt::Gpio2,
            6 => Interrupt::Gpio3,
            _ => Interrupt::Uart,
        }
    }

    /// The source with number `irq`.
    pub fn from_number(irq: usize) -> (r: Interrupt)
        requires
            Interrupt::is_number(irq as int),
        ensures
            r.number_of() == irq,
    {
        match irq {
            1 => Interrupt::Timer1,
            3 => Interrupt::Timer3,
            9 => Interrupt::Usb,
            49 => Interrupt::Gpio0,
            50 => Interrupt::Gpio1,
            51 => Interrupt::Gpio2,
            52 => Interrupt::Gpio3,
            _ => Interrupt::Uart,
        }
    }
}

/// Positions and sources correspond one to one.
pub proof fn lemma_index_round_trip(source: Interrupt, i: int)
    ensures
        Interrupt::at(source.index_of()) == source,
        0 <= source.index_of() < 8,
        0 <= i < 8 ==> Interrupt::at(i).index_of() == i,
{
}

/// The registers of the interrupt controller, in the order in which they
/// stand in memory.
#[derive(Debug, Copy, Clone, PartialEq, Eq)]
pub struct Registers {
    pub basic_irq_pending: u32,
    pub irq_pending: [u32; 2],
    pub fiq_ctrl: u8,
    pub irq_enable: [u32; 2],
    pub basic_irq_enable: u8,
    pub irq_disable: [u32; 2],
    pub basic_irq_disable: u8,
}

/// Bit `bit` of `word` is set.
pub open spec fn bit_set(word: u32, bit: u8) -> bool {
    word & (1u32 << bit) == (1u32 << bit)
}

/// The register and the bit in it that belong to `source`: the sources below
/// 32 are in the first register, the others in the second.
pub open spec fn register_bit(source: Interrupt) -> (int, u8) {
    if source.number_of() < 32 {
        (0, source.number_of())
    } else {
        (1, (source.number_of() - 32) as u8)
    }
}

/// The register and the bit in it that belong to `source`.
fn index(source: Interrupt) -> (r: (usize, u8))
    ensures
        r.0 == register_bit(source).0,
        r.1 == register_bit(source).1,
        r.0 < 2,
        r.1 < 32,
{
    let val = source.number();
    if val < 32 {
        (0, val)
    } else {
        (1, val - 32)
    }
}

/// The interrupt controller: enables and disables interrupt sources and
/// tells which are pending.
pub struct Controller {
    pub registers: Registers,
}

impl Controller {
    /// A handle on the controller with the given register contents.
    pub fn new(registers: Registers) -> (r: Controller)
        ensures
            r.registers == registers,
    {
        Controller { registers }
    }

    /// The two enable registers.
    pub fn current_enables(&self) -> (r: (u32, u32))
        ensures
            r.0 == self.registers.irq_enable[0],
            r.1 == self.registers.irq_enable[1],
    {
        (self.registers.irq_enable[0], self.registers.irq_enable[1])
    }

    /// The address of the first enable register.
    pub fn addr_of_enable_register(&self) -> (r: u64)
        ensures
            r == INT_BASE + ENABLE_OFFSET,
    {
        INT_BASE + ENABLE_OFFSET
    }

    /// Enables the interrupt `source`: sets its bit in its enable register.
    pub fn enable(&mut self, source: Interrupt)
        ensures
            final(self).registers.irq_enable[register_bit(source).0]
                == old(self).registers.irq_enable[register_bit(source).0] | (1u32 << register_bit(
                source,
            ).1),
            final(self).registers.irq_enable[1 - register_bit(source).0]
                == old(self).registers.irq_enable[1 - register_bit(source).0],
            bit_set(final(self).registers.irq_enable[register_bit(source).0], register_bit(source).1),
            final(self).registers.irq_pending == old(self).registers.irq_pending,
            final(self).registers.irq_disable == old(self).registers.irq_disable,
    {
        let (idx, bit) = index(source);
        let word = self.registers.irq_enable[idx];
        assert((word | (1u32 << bit)) & (1u32 << bit) == (1u32 << bit)) by (bit_vector);
        self.registers.irq_enable[idx] = word | (1u32 << bit);
    }

    /// Disables the interrupt `source`: sets its bit in its disable register.
    pub fn disable(&mut self, source: Interrupt)
        ensures
            final(self).registers.irq_disable[register_bit(source).0]
                == old(self).registers.irq_disable[register_bit(source).0] | (1u32 << register_bit(
                source,
            ).1),
            final(self).registers.irq_disable[1 - register_bit(source).0]
                == old(self).registers.irq_disable[1 - register_bit(source).0],
            bit_set(final(self).registers.irq_disable[register_bit(source).0], register_bit(source).1),
            final(self).registers.irq_pending == old(self).registers.irq_pending,
            final(self).registers.irq_enable == old(self).registers.irq_enable,
    {
        let (idx, bit) = index(source);
        let word = self.registers.irq_disable[idx];
        assert((word | (1u32 << bit)) & (1u32 << bit) == (1u32 << bit)) by (bit_vector);
        self.registers.irq_disable[idx] = word | (1u32 << bit);
    }

    /// Whether `source` is pending: whether its bit is set in its pending
    /// register.
    pub fn is_pending(&self, source: Interrupt) -> (r: bool)
        ensures
            r == bit_set(self.registers.irq_pending[register_bit(source).0], register_bit(source).1),
    {
        let (idx, bit) = index(source);
        let mask = 1u32 << bit;
        (self.registers.irq_pending[idx] & mask) == mask
    }
}

} // verus!
