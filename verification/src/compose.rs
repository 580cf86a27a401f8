//! The point-count constant and the triangle index walk of the compositor.
//!
//! The curve always holds exactly `POINT_COUNT` points, whatever the input
//! or the curve multiplier. Each compositor pass `dx` walks every anchor
//! index `ah` and takes the three points at `(ah + bi * (dx + 1) * hx)` mod
//! `POINT_COUNT` for `bi = 0, 1, 2`, where `hx` is the pass's accumulated
//! stride.

use vstd::prelude::*;

verus! {

/// The fixed number of curve points of every run.
pub const POINT_COUNT: usize = 4620;

/// The curve point index of corner `bi` of the triangle anchored at `ah` in
/// pass `dx` with accumulated stride `hx`.
pub open spec fn tri_index_spec(ah: nat, bi: nat, dx: nat, hx: nat) -> nat {
    (ah + bi * (dx + 1) * hx) % 4620
}

/// The corner index, always a valid curve point index.
pub fn tri_point_index(ah: usize, bi: u32, dx: u32, hx: u32) -> (i: usize)
    requires
        ah < POINT_COUNT,
        bi < 3,
        dx < 3,
        hx <= 9,
    ensures
        i as nat == tri_index_spec(ah as nat, bi as nat, dx as nat, hx as nat),
        i < POINT_COUNT,
{
    assert((bi as usize) * ((dx as usize) + 1) <= 6) by (nonlinear_arith)
        requires
            bi < 3,
            dx < 3,
    ;
    let m: usize = (bi as usize) * ((dx as usize) + 1);
    assert(m * (hx as usize) <= 54) by (nonlinear_arith)
        requires
            m <= 6,
            hx <= 9,
    ;
    let stride: usize = m * (hx as usize);
    (ah + stride) % POINT_COUNT
}

} // verus!
