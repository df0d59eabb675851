//! Nearest-neighbour mapping of an output axis onto a source axis.

use vstd::prelude::*;
use vstd::arithmetic::div_mod::{lemma_div_multiples_vanish, lemma_multiply_divide_lt};

verus! {

/// The point of a source axis of `source` points that output point `pos`, on
/// an axis of `target` points, takes its value from: `pos / target` of the
/// way along the source axis, rounded down.
pub open spec fn scaled_coord(pos: int, target: int, source: int) -> int {
    (pos * source) / target
}

/// Every output point maps inside the source axis; in particular the last
/// one, `target - 1`, does, however large or small `target` is.
pub proof fn lemma_scaled_in_bounds(pos: int, target: int, source: int)
    requires
        0 <= pos < target,
        0 < source,
    ensures
        0 <= scaled_coord(pos, target, source) < source,
{
    assert(0 <= pos * source < target * source) by (nonlinear_arith)
        requires
            0 <= pos < target,
            0 < source,
    ;
    lemma_multiply_divide_lt(pos * source, target, source);
    assert(0 <= (pos * source) / target) by (nonlinear_arith)
        requires
            0 <= pos * source,
            0 < target,
    ;
}

/// When the output axis has as many points as the source axis, every point
/// maps to itself.
pub proof fn lemma_scaled_identity(pos: int, size: int)
    requires
        0 < size,
    ensures
        scaled_coord(pos, size, size) == pos,
{
    assert(pos * size == size * pos) by (nonlinear_arith);
    lemma_div_multiples_vanish(pos, size);
}

/// Maps output point `pos` of an axis of `target` points to its source point
/// on an axis of `source` points.
pub fn scale_coord(pos: usize, target: usize, source: usize) -> (mapped: usize)
    requires
        pos < target,
    ensures
        mapped == scaled_coord(pos as int, target as int, source as int),
        source > 0 ==> mapped < source,
{
    proof {
        assert(0 <= pos * source <= 0xFFFF_FFFF_FFFF_FFFF * 0xFFFF_FFFF_FFFF_FFFF)
            by (nonlinear_arith)
            requires
                0 <= pos <= 0xFFFF_FFFF_FFFF_FFFF,
                0 <= source <= 0xFFFF_FFFF_FFFF_FFFF,
        ;
        if source > 0 {
            lemma_scaled_in_bounds(pos as int, target as int, source as int);
        } else {
            assert(pos * source == 0) by (nonlinear_arith)
                requires
                    source == 0,
            ;
        }
    }
    let wide: u128 = (pos as u128) * (source as u128);
    let mapped: u128 = wide / (target as u128);
    mapped as usize
}

} // verus!
