//! Rounding offsets and addresses up to an alignment boundary.

use vstd::prelude::*;
use vstd::arithmetic::power2::pow2;
use crate::ieee::{floor_log2, pow2_u64, spec_floor_log2};

verus! {

/// The bytes to skip from `offset` to reach the next multiple of `align`.
pub open spec fn spec_padding(offset: int, align: int) -> int {
    (align - (offset % align)) % align
}

/// `offset` moved up to the next multiple of `align`.
pub open spec fn spec_align_up(offset: int, align: int) -> int {
    offset + spec_padding(offset, align)
}

/// Whether `n` is 1, 2, 4, 8, ...
pub open spec fn spec_is_power_of_two(n: int) -> bool {
    n >= 1 && pow2(spec_floor_log2(n as nat)) == n
}

/// The bytes to skip from `offset` to reach the next multiple of `align`.
pub fn padding(offset: usize, align: usize) -> (r: usize)
    requires
        align >= 1,
    ensures
        r == spec_padding(offset as int, align as int),
        r < align,
        (offset + r) % (align as int) == 0,
{
    let rem = offset % align;
    proof {
        lemma_padding(offset as int, align as int);
    }
    if rem == 0 {
        0
    } else {
        align - rem
    }
}

/// `offset` moved up to the next multiple of `align`, or `None` where that
/// multiple is beyond the largest `usize`.
pub fn align_up(offset: usize, align: usize) -> (r: Option<usize>)
    requires
        align >= 1,
    ensures
        r == if spec_align_up(offset as int, align as int) <= usize::MAX {
            Some(spec_align_up(offset as int, align as int) as usize)
        } else {
            None
        },
{
    let pad = padding(offset, align);
    offset.checked_add(pad)
}

pub fn is_power_of_two(n: usize) -> (r: bool)
    ensures
        r == spec_is_power_of_two(n as int),
{
    if n == 0 {
        false
    } else {
        let p = floor_log2(n as u64);
        pow2_u64(p) == n as u64
    }
}

/// The padding is the least step to a multiple of the alignment: it is
/// below the alignment, it reaches a multiple, and it is 0 where the offset
/// is a multiple already.
pub proof fn lemma_padding(offset: int, align: int)
    requires
        offset >= 0,
        align >= 1,
    ensures
        0 <= spec_padding(offset, align) < align,
        (offset + spec_padding(offset, align)) % align == 0,
        offset % align == 0 <==> spec_padding(offset, align) == 0,
        spec_padding(offset, align) == if offset % align == 0 {
            0
        } else {
            align - offset % align
        },
{
    let rem = offset % align;
    assert(0 <= rem < align) by (nonlinear_arith)
        requires
            rem == offset % align,
            align >= 1,
            offset >= 0,
    ;
    if rem == 0 {
        assert(align % align == 0) by (nonlinear_arith)
            requires
                align >= 1,
        ;
    } else {
        assert((align - rem) % align == align - rem) by (nonlinear_arith)
            requires
                0 < rem < align,
        ;
        assert((offset + (align - rem)) % align == 0) by (nonlinear_arith)
            requires
                rem == offset % align,
                0 < rem < align,
                offset >= 0,
        ;
    }
}

/// 1, 2, 4 and 8 are powers of two.
pub proof fn lemma_small_powers_of_two()
    ensures
        spec_is_power_of_two(1),
        spec_is_power_of_two(2),
        spec_is_power_of_two(4),
        spec_is_power_of_two(8),
{
    vstd::arithmetic::power2::lemma2_to64();
    reveal_with_fuel(spec_floor_log2, 5);
}

} // verus!
