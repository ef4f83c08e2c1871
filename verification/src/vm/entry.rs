//! Translation table descriptors.
//!
//! A descriptor is a 64-bit word:
//!
//! | bits  | field                                   |
//! |-------|-----------------------------------------|
//! | 47-16 | bits 47 to 16 of the output address     |
//! | 10    | access flag                             |
//! | 9-8   | shareability                            |
//! | 7-6   | access permission                       |
//! | 5     | non-secure                              |
//! | 4-2   | memory attribute index                  |
//! | 1     | type: table or page against block       |
//! | 0     | valid                                   |

use vstd::prelude::*;

verus! {

/// Mask of the output address field.
pub const ADDR: u64 = 0x0000_ffff_ffff_0000;

/// Mask of the access flag.
pub const AF: u64 = 0x400;

/// Mask of the shareability field.
pub const SH: u64 = 0x300;

/// Mask of the access permission field.
pub const AP: u64 = 0xc0;

/// Mask of the non-secure bit.
pub const NS: u64 = 0x20;

/// Mask of the memory attribute index.
pub const ATTR: u64 = 0x1c;

/// Mask of the type bit.
pub const TYPE: u64 = 0x2;

/// Mask of the valid bit.
pub const VALID: u64 = 0x1;

/// Access permission: read and write at EL1, none at EL0.
pub const PERM_KERN_RW: u64 = 0b00;

/// Access permission: read and write at both levels.
pub const PERM_USER_RW: u64 = 0b01;

/// Access permission: read only at EL1, none at EL0.
pub const PERM_KERN_RO: u64 = 0b10;

/// Access permission: read only at both levels.
pub const PERM_USER_RO: u64 = 0b11;

/// Shareability: outer shareable.
pub const SH_OUTER: u64 = 0b10;

/// Shareability: inner shareable.
pub const SH_INNER: u64 = 0b11;

/// Attribute index of normal memory.
pub const ATTR_NORMAL: u64 = 0b000;

/// Attribute index of device memory.
pub const ATTR_DEVICE: u64 = 0b001;

/// Attribute index of non-cacheable memory.
pub const ATTR_NC: u64 = 0b010;

/// One past the largest address that a descriptor can hold.
pub const ADDR_LIMIT: u64 = 0x1_0000_0000_0000;

/// The valid bit of a descriptor.
pub open spec fn valid_of(raw: u64) -> bool {
    raw % 2 == 1
}

/// The type bit of a descriptor.
pub open spec fn type_of(raw: u64) -> int {
    raw as int / 2 % 2
}

/// The memory attribute index of a descriptor.
pub open spec fn attr_of(raw: u64) -> int {
    raw as int / 4 % 8
}

/// The access permission of a descriptor.
pub open spec fn perm_of(raw: u64) -> int {
    raw as int / 0x40 % 4
}

/// The shareability of a descriptor.
pub open spec fn sh_of(raw: u64) -> int {
    raw as int / 0x100 % 4
}

/// The access flag of a descriptor.
pub open spec fn af_of(raw: u64) -> bool {
    raw as int / 0x400 % 2 == 1
}

/// The output address of a descriptor.
pub open spec fn addr_of(raw: u64) -> u64 {
    ((raw as int / 0x1_0000 % 0x1_0000_0000) * 0x1_0000) as u64
}

/// The descriptor that is valid, has the type bit and the access flag set,
/// and holds the given address, permission, attribute index and
/// shareability, each cut to the width of its field.
pub open spec fn descriptor(addr: u64, perm: u64, attr: u64, sh: u64) -> u64 {
    (addr_of(addr) + 0x400 + (sh % 4) * 0x100 + (perm % 4) * 0x40 + (attr % 8) * 4 + 2 + 1) as u64
}

/// The fields of the word that is put together from in-range parts.
proof fn lemma_parts(a: u64, s: u64, p: u64, t: u64, d: u64)
    by (bit_vector)
    requires
        a < 0x1_0000_0000,
        s < 4,
        p < 4,
        t < 8,
        d == a * 0x1_0000 + 0x400 + s * 0x100 + p * 0x40 + t * 4 + 3,
    ensures
        0 < d < 0x1_0000_0000_0000,
        d % 2 == 1,
        d / 2 % 2 == 1,
        d / 4 % 8 == t,
        d / 0x40 % 4 == p,
        d / 0x100 % 4 == s,
        d / 0x400 % 2 == 1,
        d / 0x1_0000 % 0x1_0000_0000 == a,
{
}

/// The fields of a descriptor made by `descriptor` are the ones it was
/// made from.
pub proof fn lemma_descriptor_fields(addr: u64, perm: u64, attr: u64, sh: u64)
    ensures
        valid_of(descriptor(addr, perm, attr, sh)),
        type_of(descriptor(addr, perm, attr, sh)) == 1,
        af_of(descriptor(addr, perm, attr, sh)),
        attr_of(descriptor(addr, perm, attr, sh)) == attr % 8,
        perm_of(descriptor(addr, perm, attr, sh)) == perm % 4,
        sh_of(descriptor(addr, perm, attr, sh)) == sh % 4,
        addr_of(descriptor(addr, perm, attr, sh)) == addr_of(addr),
        addr % 0x1_0000 == 0 && addr < ADDR_LIMIT ==> addr_of(descriptor(addr, perm, attr, sh))
            == addr,
        descriptor(addr, perm, attr, sh) != 0,
{
    let a = (addr as int / 0x1_0000 % 0x1_0000_0000) as u64;
    let s = (sh % 4) as u64;
    let p = (perm % 4) as u64;
    let t = (attr % 8) as u64;
    let d = (a * 0x1_0000 + 0x400 + s * 0x100 + p * 0x40 + t * 4 + 3) as u64;
    lemma_parts(a, s, p, t, d);
    assert(d == descriptor(addr, perm, attr, sh));
}

/// A level 3 descriptor: maps one page.
#[derive(Debug, Copy, Clone, PartialEq, Eq, Structural)]
pub struct RawL3Entry(pub u64);

/// A level 2 descriptor: points to a level 3 table.
#[derive(Debug, Copy, Clone, PartialEq, Eq, Structural)]
pub struct RawL2Entry(pub u64);

/// The word `old` with the bits under `mask` replaced by those of `val`.
pub open spec fn masked_update(old: u64, val: u64, mask: u64) -> u64 {
    (old & !mask) | (val & mask)
}

impl RawL3Entry {
    /// The descriptor with the bits of `val`.
    pub fn new(val: u64) -> (r: RawL3Entry)
        ensures
            r.0 == val,
    {
        RawL3Entry(val)
    }

    /// The bits of the descriptor.
    pub fn get(&self) -> (r: u64)
        ensures
            r == self.0,
    {
        self.0
    }

    /// The bits of the descriptor under `mask`.
    pub fn get_masked(&self, mask: u64) -> (r: u64)
        ensures
            r == self.0 & mask,
    {
        self.0 & mask
    }

    /// Replaces the bits under `mask` by those of `val`.
    pub fn set_masked(&mut self, val: u64, mask: u64)
        ensures
            final(self).0 == masked_update(old(self).0, val, mask),
    {
        self.0 = (self.0 & !mask) | (val & mask);
    }

    /// The valid page descriptor for the page at `addr`.
    pub fn page(addr: u64, perm: u64, attr: u64, sh: u64) -> (r: RawL3Entry)
        ensures
            r.0 == descriptor(addr, perm, attr, sh),
    {
        let mut entry = RawL3Entry::new(0);
        entry.set_masked(AF, AF);
        entry.set_masked(1 << 1, TYPE);
        entry.set_masked(1, VALID);
        entry.set_masked(perm << 6, AP);
        entry.set_masked(attr << 2, ATTR);
        entry.set_masked(sh << 8, SH);
        entry.set_masked(addr, ADDR);
        proof {
            lemma_layout(addr, perm, attr, sh);
        }
        entry
    }
}

impl RawL2Entry {
    /// The descriptor with the bits of `val`.
    pub fn new(val: u64) -> (r: RawL2Entry)
        ensures
            r.0 == val,
    {
        RawL2Entry(val)
    }

    /// The bits of the descriptor.
    pub fn get(&self) -> (r: u64)
        ensures
            r == self.0,
    {
        self.0
    }

    /// Replaces the bits under `mask` by those of `val`.
    pub fn set_masked(&mut self, val: u64, mask: u64)
        ensures
            final(self).0 == masked_update(old(self).0, val, mask),
    {
        self.0 = (self.0 & !mask) | (val & mask);
    }

    /// The valid table descriptor for the level 3 table at `addr`, with
    /// normal, non-shared attributes.
    pub fn table(addr: u64, perm: u64) -> (r: RawL2Entry)
        ensures
            r.0 == descriptor(addr, perm, 0, 0),
    {
        let mut entry = RawL2Entry::new(0);
        entry.set_masked(AF, AF);
        entry.set_masked(1 << 1, TYPE);
        entry.set_masked(1, VALID);
        entry.set_masked(perm << 6, AP);
        entry.set_masked(addr, ADDR);
        proof {
            lemma_layout(addr, perm, 0, 0);
            let w = entry.0;
            assert(w == assembled(addr, perm, 0, 0)) by (bit_vector)
                requires
                    w == masked_update(
                        masked_update(
                            masked_update(
                                masked_update(masked_update(0, AF, AF), 1u64 << 1, TYPE),
                                1,
                                VALID,
                            ),
                            perm << 6,
                            AP,
                        ),
                        addr,
                        ADDR,
                    ),
            ;
        }
        entry
    }
}

/// The word that results from setting the fields one after the other in an
/// empty descriptor.
pub open spec fn assembled(addr: u64, perm: u64, attr: u64, sh: u64) -> u64 {
    let w1 = masked_update(0, AF, AF);
    let w2 = masked_update(w1, 1u64 << 1, TYPE);
    let w3 = masked_update(w2, 1, VALID);
    let w4 = masked_update(w3, perm << 6, AP);
    let w5 = masked_update(w4, attr << 2, ATTR);
    let w6 = masked_update(w5, sh << 8, SH);
    masked_update(w6, addr, ADDR)
}

/// Setting the fields one after the other gives the descriptor.
proof fn lemma_layout(addr: u64, perm: u64, attr: u64, sh: u64)
    ensures
        assembled(addr, perm, attr, sh) == descriptor(addr, perm, attr, sh),
{
    let word = assembled(addr, perm, attr, sh);
    let a = addr_of(addr);
    let s = (sh % 4) as u64;
    let p = (perm % 4) as u64;
    let t = (attr % 8) as u64;
    assert(a == addr & 0x0000_ffff_ffff_0000) by (bit_vector)
        requires
            a == ((addr / 0x1_0000 % 0x1_0000_0000) * 0x1_0000) as u64,
    ;
    assert(word == (addr & 0x0000_ffff_ffff_0000) + 0x400 + s * 0x100 + p * 0x40 + t * 4 + 2 + 1)
        by (bit_vector)
        requires
            word == assembled(addr, perm, attr, sh),
            s == sh % 4,
            p == perm % 4,
            t == attr % 8,
    ;
}

} // verus!
