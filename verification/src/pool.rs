//! The two frequency pools and the weighted swap-remove draw `rg`.
//!
//! A run starts from an odd pool `{1,3,5,7,9,11}` and an even pool
//! `{0,0,2,4,6,8,10}`. A draw picks the slot `trunc(rand() * len)`, hands its
//! value out, overwrites the slot with the last element and shrinks the pool
//! by one; which element gets relocated is part of the behaviour, so the
//! swap-remove is spelled out exactly.

use crate::prng::{scaled_of, step_spec, Xors};
use vstd::prelude::*;

verus! {

/// The odd frequency pool at the start of a run.
pub open spec fn odd_pool_spec() -> Seq<i32> {
    seq![1i32, 3i32, 5i32, 7i32, 9i32, 11i32]
}

/// The even frequency pool at the start of a run.
pub open spec fn even_pool_spec() -> Seq<i32> {
    seq![0i32, 0i32, 2i32, 4i32, 6i32, 8i32, 10i32]
}

/// The value a draw with raw word `w` takes from `pool`.
pub open spec fn rg_pick(pool: Seq<i32>, w: u32) -> i32 {
    pool[scaled_of(w, pool.len()) as int]
}

/// What is left of `pool` after that draw: the picked slot is overwritten
/// with the last element and the pool loses its last slot.
pub open spec fn rg_rest(pool: Seq<i32>, w: u32) -> Seq<i32> {
    pool.update(scaled_of(w, pool.len()) as int, pool.last()).drop_last()
}

/// Every element of `pool` lies between 0 and 11.
pub open spec fn pool_bounded(pool: Seq<i32>) -> bool {
    forall|i: int| 0 <= i < pool.len() ==> 0 <= #[trigger] pool[i] <= 11
}

/// A draw from a non-empty bounded pool yields a bounded value and leaves a
/// bounded pool, one element shorter.
pub proof fn lemma_rg_bounded(pool: Seq<i32>, w: u32)
    requires
        pool.len() >= 1,
        pool_bounded(pool),
    ensures
        0 <= rg_pick(pool, w) <= 11,
        pool_bounded(rg_rest(pool, w)),
        rg_rest(pool, w).len() == pool.len() - 1,
{
    crate::prng::lemma_scaled_lt(w, pool.len());
}

/// A fresh odd pool.
pub fn odd_pool() -> (v: Vec<i32>)
    ensures
        v@ == odd_pool_spec(),
{
    let v: Vec<i32> = vec![1i32, 3i32, 5i32, 7i32, 9i32, 11i32];
    proof {
        assert(v@ =~= odd_pool_spec());
    }
    v
}

/// A fresh even pool.
pub fn even_pool() -> (v: Vec<i32>)
    ensures
        v@ == even_pool_spec(),
{
    let v: Vec<i32> = vec![0i32, 0i32, 2i32, 4i32, 6i32, 8i32, 10i32];
    proof {
        assert(v@ =~= even_pool_spec());
    }
    v
}

/// rg: one engine step picks the slot `trunc(rand() * len)`; the slot's value
/// comes out and the last element takes its place. A pool never holds more
/// than its thirteen initial values, which keeps the slot draw exact.
pub fn rg(ha: &mut Vec<i32>, xs: &mut Xors) -> (b: i32)
    requires
        1 <= old(ha)@.len() <= 13,
    ensures
        final(xs)@ == step_spec(old(xs)@),
        b == rg_pick(old(ha)@, final(xs)@.w),
        final(ha)@ == rg_rest(old(ha)@, final(xs)@.w),
        final(ha)@.len() == old(ha)@.len() - 1,
{
    let len: usize = ha.len();
    let i: u32 = xs.draw(len as u32);
    let idx: usize = i as usize;
    let b: i32 = ha[idx];
    let last: i32 = ha[len - 1];
    ha[idx] = last;
    let _drop: Option<i32> = ha.pop();
    proof {
        assert(ha@ =~= rg_rest(old(ha)@, xs@.w));
    }
    b
}

} // verus!
