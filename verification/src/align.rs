//! Rounding an address up to a multiple of an alignment.
//!
//! Alignments are arbitrary positive numbers here; nothing relies on them
//! being powers of two.

use vstd::arithmetic::div_mod::{
    lemma_fundamental_div_mod,
    lemma_fundamental_div_mod_converse,
    lemma_mod_bound,
};
use vstd::prelude::*;

verus! {

/// Whether `addr` is a multiple of `align`.
pub open spec fn is_aligned(addr: int, align: int) -> bool {
    addr % align == 0
}

/// Number of bytes to skip from `addr` to reach the next multiple of `align`.
pub open spec fn padding(addr: int, align: int) -> int {
    if addr % align == 0 {
        0
    } else {
        align - addr % align
    }
}

/// `addr` rounded up to the next multiple of `align`.
pub open spec fn align_up(addr: int, align: int) -> int {
    addr + padding(addr, align)
}

/// Rounding up skips fewer than `align` bytes.
pub proof fn lemma_padding_bounds(addr: int, align: int)
    requires
        align > 0,
    ensures
        0 <= padding(addr, align) < align,
        addr <= align_up(addr, align) < addr + align,
{
    lemma_mod_bound(addr, align);
}

/// The rounded address is a multiple of `align`.
pub proof fn lemma_align_up_is_aligned(addr: int, align: int)
    requires
        align > 0,
    ensures
        is_aligned(align_up(addr, align), align),
{
    if addr % align != 0 {
        let q = addr / align;
        lemma_fundamental_div_mod(addr, align);
        assert(align_up(addr, align) == (q + 1) * align + 0) by (nonlinear_arith)
            requires
                addr == align * q + addr % align,
                align_up(addr, align) == addr + align - addr % align,
        ;
        lemma_fundamental_div_mod_converse(align_up(addr, align), align, q + 1, 0);
    }
}

/// No multiple of `align` lies between `addr` and the rounded address: the
/// rounded address is the least aligned address that is not below `addr`.
pub proof fn lemma_align_up_is_least(addr: int, align: int, other: int)
    requires
        align > 0,
        is_aligned(other, align),
        addr <= other,
    ensures
        align_up(addr, align) <= other,
{
    if addr % align != 0 {
        let q = addr / align;
        let k = other / align;
        lemma_mod_bound(addr, align);
        lemma_fundamental_div_mod(addr, align);
        lemma_fundamental_div_mod(other, align);
        assert(q + 1 <= k) by (nonlinear_arith)
            requires
                align > 0,
                align * q < align * k,
        ;
        assert(align * (q + 1) <= align * k) by (nonlinear_arith)
            requires
                align > 0,
                q + 1 <= k,
        ;
        assert(align * (q + 1) == align * q + align) by (nonlinear_arith);
    }
}

/// An aligned address is left where it is.
pub proof fn lemma_align_up_of_aligned(addr: int, align: int)
    requires
        is_aligned(addr, align),
    ensures
        align_up(addr, align) == addr,
{
}

/// Rounds `addr` up to the next multiple of `align`. The result is `None`
/// exactly when the rounded address is too large for a `usize`.
pub fn checked_align_up(addr: usize, align: usize) -> (r: Option<usize>)
    requires
        align > 0,
    ensures
        match r {
            Some(a) => a == align_up(addr as int, align as int),
            None => align_up(addr as int, align as int) > usize::MAX,
        },
{
    let rem: usize = addr % align;
    if rem == 0 {
        Some(addr)
    } else {
        addr.checked_add(align - rem)
    }
}

} // verus!
