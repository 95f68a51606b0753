//! Heap allocators: a bump allocator and a linked-list allocator.
use vstd::prelude::*;

pub mod bump;
pub mod list;

verus! {

/// The smallest multiple of `align` that is at least `addr`.
pub open spec fn align_up_spec(addr: int, align: int) -> int {
    if addr % align == 0 {
        addr
    } else {
        addr + (align - addr % align)
    }
}

/// The result of `align_up_spec` is a multiple of `align` in `[addr, addr + align)`.
pub proof fn lemma_align_up(addr: int, align: int)
    requires
        addr >= 0,
        align > 0,
    ensures
        align_up_spec(addr, align) % align == 0,
        addr <= align_up_spec(addr, align) < addr + align,
{
    vstd::arithmetic::div_mod::lemma_fundamental_div_mod(addr, align);
    let q = addr / align;
    if addr % align != 0 {
        assert(addr + (align - addr % align) == (q + 1) * align) by (nonlinear_arith)
            requires
                addr == align * q + addr % align,
        ;
        vstd::arithmetic::div_mod::lemma_mod_multiples_basic(q + 1, align);
    } else {
        vstd::arithmetic::div_mod::lemma_mod_multiples_basic(q, align);
        assert(addr == q * align) by (nonlinear_arith)
            requires
                addr == align * q + addr % align,
                addr % align == 0,
        ;
    }
}

/// Aligns `addr` upwards to the next multiple of `align`.
pub fn align_up(addr: usize, align: usize) -> (r: usize)
    requires
        align > 0,
        align_up_spec(addr as int, align as int) <= usize::MAX,
    ensures
        r == align_up_spec(addr as int, align as int),
        r % align == 0,
        addr <= r < addr + align,
{
    proof {
        lemma_align_up(addr as int, align as int);
    }
    let rem = addr % align;
    if rem == 0 {
        addr
    } else {
        addr + (align - rem)
    }
}

} // verus!
