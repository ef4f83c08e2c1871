//! Alignment arithmetic.

use vstd::prelude::*;
use vstd::arithmetic::power2::is_pow2;

verus! {

/// The largest multiple of `align` that is not above `addr`.
pub open spec fn align_down_spec(addr: int, align: int) -> int {
    addr - addr % align
}

/// The smallest multiple of `align` that is not below `addr`.
pub open spec fn align_up_spec(addr: int, align: int) -> int {
    if addr % align == 0 {
        addr
    } else {
        addr - addr % align + align
    }
}

/// `align_up_spec` is a multiple of the alignment, not below the address
/// and less than one alignment above it.
pub proof fn lemma_align_up(addr: int, align: int)
    requires
        0 <= addr,
        0 < align,
    ensures
        align_up_spec(addr, align) % align == 0,
        addr <= align_up_spec(addr, align) < addr + align,
{
    let r = addr % align;
    let d = addr - r;
    assert(d == align * (addr / align)) by {
        vstd::arithmetic::div_mod::lemma_fundamental_div_mod(addr, align);
    }
    assert(d % align == 0) by {
        vstd::arithmetic::div_mod::lemma_mod_multiples_basic(addr / align, align);
        vstd::arithmetic::mul::lemma_mul_is_commutative(addr / align, align);
    }
    assert((d + align) % align == 0) by {
        vstd::arithmetic::div_mod::lemma_mod_multiples_basic(addr / align + 1, align);
        vstd::arithmetic::mul::lemma_mul_is_distributive_add(align, addr / align, 1);
        vstd::arithmetic::mul::lemma_mul_is_commutative(addr / align + 1, align);
    }
}

/// No multiple of `align` lies between `addr` and `align_up_spec`.
pub proof fn lemma_align_up_least(addr: int, align: int, m: int)
    requires
        0 <= addr,
        0 < align,
        addr <= m,
        m % align == 0,
    ensures
        align_up_spec(addr, align) <= m,
{
    if addr % align != 0 {
        vstd::arithmetic::div_mod::lemma_fundamental_div_mod(addr, align);
        vstd::arithmetic::div_mod::lemma_fundamental_div_mod(m, align);
        let q = m / align;
        let p = addr / align;
        assert(m == align * q);
        assert(align * p < align * q);
        if q <= p {
            vstd::arithmetic::mul::lemma_mul_inequality(q, p, align);
            vstd::arithmetic::mul::lemma_mul_is_commutative(q, align);
            vstd::arithmetic::mul::lemma_mul_is_commutative(p, align);
        }
        assert(p + 1 <= q);
        vstd::arithmetic::mul::lemma_mul_inequality(p + 1, q, align);
        vstd::arithmetic::mul::lemma_mul_is_commutative(q, align);
        vstd::arithmetic::mul::lemma_mul_is_commutative(p + 1, align);
        vstd::arithmetic::mul::lemma_mul_is_distributive_add(align, p, 1);
    }
}

/// Rounds `addr` down to a multiple of `align`.
pub fn align_down(addr: u64, align: u64) -> (r: u64)
    requires
        is_pow2(align as int),
    ensures
        r == align_down_spec(addr as int, align as int),
{
    proof {
        reveal(is_pow2);
        vstd::arithmetic::div_mod::lemma_mod_decreases(addr as nat, align as nat);
    }
    addr - addr % align
}

/// Rounds `addr` up to a multiple of `align`.
pub fn align_up(addr: u64, align: u64) -> (r: u64)
    requires
        is_pow2(align as int),
        align_up_spec(addr as int, align as int) <= u64::MAX,
    ensures
        r == align_up_spec(addr as int, align as int),
{
    proof {
        reveal(is_pow2);
        vstd::arithmetic::div_mod::lemma_mod_decreases(addr as nat, align as nat);
    }
    let rem = addr % align;
    if rem == 0 {
        addr
    } else {
        addr - rem + align
    }
}

} // verus!
