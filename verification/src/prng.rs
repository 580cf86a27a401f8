//! The xorshift128 engine and the seed derivation that initialises it.
//!
//! The engine owns four 32-bit words and is stepped by xor/shift shuffles
//! alone. A draw turns the fresh `w` word, read as a two's-complement value
//! `v`, into the unit interval by `v / 2^32 + 0.5`; that value is an exact
//! 32-bit binary fraction, so every decision taken from it (a comparison with
//! one half, a truncated product with a small integer) is computed here in
//! exact integer arithmetic instead.

use vstd::arithmetic::power2::lemma2_to64;
use vstd::bits::lemma_u64_shr_is_div;
use vstd::prelude::*;

verus! {

/// The four state words of the engine, as raw bit patterns.
#[verifier::ext_equal]
pub ghost struct Words {
    pub x: u32,
    pub y: u32,
    pub z: u32,
    pub w: u32,
}

/// One engine step: `t = x ^ (x << 11)`; the words rotate `x←y, y←z, z←w`;
/// the new `w` is `(w ^ (w >> 19)) ^ (t ^ (t >> 8))`, all shifts logical.
pub open spec fn step_spec(s: Words) -> Words {
    let t: u32 = s.x ^ (s.x << 11u32);
    let nw: u32 = (s.w ^ (s.w >> 19u32)) ^ (t ^ (t >> 8u32));
    Words { x: s.y, y: s.z, z: s.w, w: nw }
}

/// The state after `k` steps from `s`.
pub open spec fn state_at(s: Words, k: nat) -> Words
    decreases k,
{
    if k == 0 {
        s
    } else {
        step_spec(state_at(s, (k - 1) as nat))
    }
}

/// The raw word produced by the draw of index `k` (0-based) from state `s`.
pub open spec fn out_at(s: Words, k: nat) -> u32 {
    state_at(s, k + 1).w
}

/// The draw as a 32-bit binary fraction of one: a raw word `w`, read as a
/// two's-complement value `v`, yields the unit value `v / 2^32 + 0.5`, which
/// equals `(w ^ 0x8000_0000) / 2^32` exactly.
pub open spec fn unit_of(w: u32) -> u32 {
    w ^ 0x8000_0000u32
}

/// Whether the draw with raw word `w` lies below one half: exactly when the
/// sign bit of `w` is set, that is, when `unit_of(w) < 2^31`.
pub open spec fn coin_of(w: u32) -> bool {
    w >= 0x8000_0000u32
}

/// The truncation toward zero of `n` times the unit value of the draw `w`.
/// For every `n` that occurs here the product is exact in double precision,
/// so the truncated value is `(unit_of(w) * n) / 2^32` in integers.
pub open spec fn scaled_of(w: u32, n: nat) -> nat {
    ((unit_of(w) as nat) * n) / 0x1_0000_0000
}

/// The four constant words every run starts from.
pub open spec fn seed_init() -> Seq<u32> {
    seq![123456789u32, 362436069u32, 521288629u32, 0u32]
}

/// Folding byte number `b` (0-based) with value `v` into the accumulator:
/// `v << ((b * 11) % 16)` is xored into word `(b + 3) % 4`.
pub open spec fn seed_step(c: Seq<u32>, b: nat, v: u8) -> Seq<u32> {
    let i: int = ((b + 3) % 4) as int;
    c.update(i, c[i] ^ ((v as u32) << ((b * 11) % 16)))
}

/// The accumulator after folding the first `k` bytes of `bytes`.
pub open spec fn seed_fold(bytes: Seq<u8>, k: nat) -> Seq<u32>
    decreases k,
{
    if k == 0 {
        seed_init()
    } else {
        seed_step(seed_fold(bytes, (k - 1) as nat), (k - 1) as nat, bytes[k - 1])
    }
}

/// The seed state derived from an input byte sequence; an empty input keeps
/// the four initial constants.
pub open spec fn seed_words(bytes: Seq<u8>) -> Words {
    let c = seed_fold(bytes, bytes.len());
    Words { x: c[0], y: c[1], z: c[2], w: c[3] }
}

/// The accumulator always keeps its four words.
pub proof fn lemma_seed_fold_len(bytes: Seq<u8>, k: nat)
    ensures
        seed_fold(bytes, k).len() == 4,
    decreases k,
{
    if k > 0 {
        lemma_seed_fold_len(bytes, (k - 1) as nat);
    }
}

/// An empty input folds nothing: the seed stays at the four constants.
pub proof fn lemma_empty_seed(bytes: Seq<u8>)
    requires
        bytes.len() == 0,
    ensures
        seed_words(bytes) == (Words { x: 123456789u32, y: 362436069u32, z: 521288629u32, w: 0u32 }),
{
}

/// A scaled draw stays below its scale.
pub proof fn lemma_scaled_lt(w: u32, n: nat)
    requires
        1 <= n,
    ensures
        scaled_of(w, n) < n,
{
    let u: nat = unit_of(w) as nat;
    assert(u * n < 0x1_0000_0000 * n) by (nonlinear_arith)
        requires
            u < 0x1_0000_0000,
            1 <= n,
    ;
    vstd::arithmetic::div_mod::lemma_multiply_divide_lt((u * n) as int, 0x1_0000_0000, n as int);
}

/// The xorshift128 engine state.
pub struct Xors {
    x: u32,
    y: u32,
    z: u32,
    w: u32,
}

impl View for Xors {
    type V = Words;

    closed spec fn view(&self) -> Words {
        Words { x: self.x, y: self.y, z: self.z, w: self.w }
    }
}

impl Xors {
    /// Seed derivation: folds the bytes of the input into the four initial
    /// constants, one shifted xor per byte.
    pub fn seeded(text: &[u8]) -> (xs: Xors)
        ensures
            xs@ == seed_words(text@),
    {
        let mut c: Vec<u32> = vec![123456789u32, 362436069u32, 521288629u32, 0u32];
        let n: usize = text.len();
        let mut b: usize = 0;
        while b < n
            invariant
                b <= n,
                n == text@.len(),
                c@.len() == 4,
                c@ == seed_fold(text@, b as nat),
            decreases n - b,
        {
            let v: u8 = text[b];
            let sh: u32 = ((b % 16) * 11 % 16) as u32;
            let i: usize = (b % 4 + 3) % 4;
            proof {
                vstd::arithmetic::div_mod::lemma_mul_mod_noop_left(b as int, 11, 16);
                vstd::arithmetic::div_mod::lemma_add_mod_noop(b as int, 3, 4);
                lemma_seed_fold_len(text@, (b + 1) as nat);
            }
            let cur: u32 = c[i];
            c[i] = cur ^ ((v as u32) << sh);
            assert(c@ =~= seed_fold(text@, (b + 1) as nat));
            b = b + 1;
        }
        let xs = Xors { x: c[0], y: c[1], z: c[2], w: c[3] };
        xs
    }

    /// One raw engine step; returns the fresh `w` word.
    pub fn rand_raw(&mut self) -> (w: u32)
        ensures
            final(self)@ == step_spec(old(self)@),
            w == final(self)@.w,
    {
        let t: u32 = self.x ^ (self.x << 11u32);
        self.x = self.y;
        self.y = self.z;
        self.z = self.w;
        self.w = (self.w ^ (self.w >> 19u32)) ^ (t ^ (t >> 8u32));
        self.w
    }

    /// The 52 discarded draws made right after seeding.
    pub fn warm_up(&mut self)
        ensures
            final(self)@ == state_at(old(self)@, 52),
    {
        let mut k: usize = 0;
        while k < 52
            invariant
                k <= 52,
                self@ == state_at(old(self)@, k as nat),
            decreases 52 - k,
        {
            let _drop: u32 = self.rand_raw();
            k = k + 1;
        }
    }

    /// The coin flip `rand() < 0.5`: one step, true exactly when the fresh
    /// word's sign bit is set.
    pub fn fi(&mut self) -> (b: bool)
        ensures
            final(self)@ == step_spec(old(self)@),
            b == coin_of(final(self)@.w),
    {
        let w: u32 = self.rand_raw();
        w >= 0x8000_0000u32
    }

    /// One draw as a 32-bit binary fraction of one.
    pub fn unit(&mut self) -> (u: u32)
        ensures
            final(self)@ == step_spec(old(self)@),
            u == unit_of(final(self)@.w),
    {
        let w: u32 = self.rand_raw();
        w ^ 0x8000_0000u32
    }

    /// The truncation toward zero of `rand() * n`, always below `n`.
    pub fn draw(&mut self, n: u32) -> (i: u32)
        requires
            1 <= n,
        ensures
            final(self)@ == step_spec(old(self)@),
            i as nat == scaled_of(final(self)@.w, n as nat),
            i < n,
    {
        let u64v: u64 = self.unit() as u64;
        assert(u64v * (n as u64) < 0x1_0000_0000_0000_0000) by (nonlinear_arith)
            requires
                u64v < 0x1_0000_0000,
                n <= 0xffff_ffffu32,
        ;
        let p: u64 = u64v * (n as u64);
        let i: u32 = (p >> 32u64) as u32;
        proof {
            lemma_u64_shr_is_div(p, 32);
            lemma2_to64();
            assert((p >> 32u64) < 0x1_0000_0000u64 && ((p >> 32u64) as u32) as u64 == (p
                >> 32u64)) by (bit_vector);
            lemma_scaled_lt(self@.w, n as nat);
        }
        i
    }

    /// The four state words, in order, for callers outside the proof.
    pub fn words(&self) -> (t: (u32, u32, u32, u32))
        ensures
            t.0 == self@.x,
            t.1 == self@.y,
            t.2 == self@.z,
            t.3 == self@.w,
    {
        (self.x, self.y, self.z, self.w)
    }
}

} // verus!
