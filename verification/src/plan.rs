//! The parameter plan of one run: every decision the stream takes between
//! seeding and drawing, captured in exact integers.
//!
//! After the 52 warm-up draws the stream is spent in a fixed order: one coin
//! for the curve multiplier `nn`, six amplitude draws, six amplitude sign
//! coins, one draw for the phase constant `pr = pr_num / nn`, two paired
//! slots and six single slots filling the frequency table and the waveform
//! selectors, three sign coins, and three pass headers of three draws each —
//! exactly one hundred draws, whatever the branches take. Each frequency
//! `q[a]` is the exact rational `q_num[a] / nn`; each amplitude draw is kept
//! as its 32-bit fraction so the curve evaluation can rebuild the exact
//! double-precision value.

use crate::pool::{
    even_pool, even_pool_spec, lemma_rg_bounded, odd_pool, odd_pool_spec, pool_bounded, rg,
    rg_pick, rg_rest,
};
use crate::prng::{
    coin_of, out_at, scaled_of, seed_words, state_at, step_spec, unit_of, Words, Xors,
};
use vstd::prelude::*;
use vstd::string::StringSliceAdditionalSpecFns;

verus! {

/// The waveform selector of one harmonic axis: cosine, sine, or the constant
/// zero waveform.
#[derive(Clone, Copy, Debug, PartialEq, Eq, Structural)]
pub enum S {
    Cos,
    Sin,
    Zero,
}

/// One compositor pass header: hue in degrees, accumulated stride, lightness
/// percent.
#[derive(Clone, Copy, Debug, PartialEq, Eq, Structural)]
pub struct Pass {
    pub gh: u32,
    pub hx: u32,
    pub ih: u32,
}

/// The mathematical image of a pass header.
#[verifier::ext_equal]
pub ghost struct PassModel {
    pub gh: nat,
    pub hx: nat,
    pub ih: nat,
}

impl View for Pass {
    type V = PassModel;

    open spec fn view(&self) -> PassModel {
        PassModel { gh: self.gh as nat, hx: self.hx as nat, ih: self.ih as nat }
    }
}

/// The mathematical image of a whole plan.
#[verifier::ext_equal]
pub ghost struct PlanModel {
    pub nn: nat,
    pub h_unit: Seq<u32>,
    pub h_flip: Seq<bool>,
    pub pr_num: nat,
    pub q_num: Seq<int>,
    pub q_neg: Seq<bool>,
    pub sel: Seq<(S, S)>,
    pub sgn: Seq<int>,
    pub passes: Seq<PassModel>,
}

/// The curve multiplier: 7 on a true coin at draw 52, else 11.
pub open spec fn nn_of(s0: Words) -> nat {
    if coin_of(out_at(s0, 52)) {
        7
    } else {
        11
    }
}

/// The six amplitude draws, as 32-bit fractions, in the order the amplitudes
/// `h[2], h[3], h[5], h[6], h[7], h[0]` are filled.
pub open spec fn h_unit_spec(s0: Words) -> Seq<u32> {
    seq![
        unit_of(out_at(s0, 53)),
        unit_of(out_at(s0, 54)),
        unit_of(out_at(s0, 55)),
        unit_of(out_at(s0, 56)),
        unit_of(out_at(s0, 57)),
        unit_of(out_at(s0, 58)),
    ]
}

/// The six amplitude sign coins, for the amplitude indices 2 through 7.
pub open spec fn h_flip_spec(s0: Words) -> Seq<bool> {
    seq![
        coin_of(out_at(s0, 59)),
        coin_of(out_at(s0, 60)),
        coin_of(out_at(s0, 61)),
        coin_of(out_at(s0, 62)),
        coin_of(out_at(s0, 63)),
        coin_of(out_at(s0, 64)),
    ]
}

/// The numerator of the phase constant: `pr = pr_num / nn` with
/// `pr_num = trunc(1 + rand() * (nn - 1))`, between 1 and `nn - 1`.
pub open spec fn pr_num_of(s0: Words) -> nat {
    1 + scaled_of(out_at(s0, 65), (nn_of(s0) - 1) as nat)
}

/// The sign coins of the six single slots, at their fixed draw positions
/// `66 + 3a`; the two paired slots take no sign coin. The coin matters even
/// on a zero pool value, where it turns the frequency into a negative zero.
pub open spec fn q_neg_spec(s0: Words) -> Seq<bool> {
    Seq::new(
        8,
        |i: int|
            if i < 2 {
                false
            } else {
                coin_of(out_at(s0, (66 + 3 * i) as nat))
            },
    )
}

/// The pools, frequency numerators and selectors as they stand after some
/// prefix of the eight slots.
#[verifier::ext_equal]
pub ghost struct SlotsState {
    pub ki: Seq<i32>,
    pub gu: Seq<i32>,
    pub q: Seq<int>,
    pub sel: Seq<(S, S)>,
}

/// The slot state before any slot is filled.
pub open spec fn slots_init() -> SlotsState {
    SlotsState {
        ki: odd_pool_spec(),
        gu: even_pool_spec(),
        q: seq![0int, 0int, 0int, 0int, 0int, 0int, 0int, 0int],
        sel: seq![
            (S::Zero, S::Zero),
            (S::Zero, S::Zero),
            (S::Zero, S::Zero),
            (S::Zero, S::Zero),
            (S::Zero, S::Zero),
            (S::Zero, S::Zero),
            (S::Zero, S::Zero),
            (S::Zero, S::Zero),
        ],
    }
}

/// One of the two paired slots (`a` is 0 or 1), spending the coin at draw
/// `66 + 2a` and the pool draw at `67 + 2a`: a true coin pairs (Cos, Sin)
/// with an odd-pool value minus `pr`, a false one (Sin, Cos) with an
/// even-pool value plus `pr`.
pub open spec fn pair_slot(st: SlotsState, s0: Words, nnv: nat, prn: nat, a: nat) -> SlotsState {
    let flip = coin_of(out_at(s0, 66 + 2 * a));
    let wp = out_at(s0, 67 + 2 * a);
    if flip {
        let v: i32 = rg_pick(st.ki, wp);
        SlotsState {
            ki: rg_rest(st.ki, wp),
            gu: st.gu,
            q: st.q.update(a as int, v * nnv - prn),
            sel: st.sel.update(a as int, (S::Cos, S::Sin)),
        }
    } else {
        let v: i32 = rg_pick(st.gu, wp);
        SlotsState {
            ki: st.ki,
            gu: rg_rest(st.gu, wp),
            q: st.q.update(a as int, v * nnv + prn),
            sel: st.sel.update(a as int, (S::Sin, S::Cos)),
        }
    }
}

/// One of the six single slots (`a` runs 2 through 7), spending the coin at
/// draw `64 + 3a`, the pool draw at `65 + 3a` and the sign coin at `66 + 3a`.
/// The pool coin is overridden toward whichever pool still holds values; the
/// tag pairs Cos or Sin with the zero waveform and is inverted past slot 5.
pub open spec fn solo_slot(st: SlotsState, s0: Words, nnv: nat, a: nat) -> SlotsState {
    let c = coin_of(out_at(s0, 64 + 3 * a));
    let from_ki = if st.ki.len() == 0 {
        false
    } else if st.gu.len() == 0 {
        true
    } else {
        c
    };
    let wp = out_at(s0, 65 + 3 * a);
    let v: i32 = if from_ki {
        rg_pick(st.ki, wp)
    } else {
        rg_pick(st.gu, wp)
    };
    let ki2 = if from_ki {
        rg_rest(st.ki, wp)
    } else {
        st.ki
    };
    let gu2 = if from_ki {
        st.gu
    } else {
        rg_rest(st.gu, wp)
    };
    let neg = coin_of(out_at(s0, 66 + 3 * a));
    let qa: int = if neg {
        -(v * nnv)
    } else {
        v * nnv
    };
    let tag = if a > 5 {
        !from_ki
    } else {
        from_ki
    };
    let sa = if tag {
        (S::Cos, S::Zero)
    } else {
        (S::Sin, S::Zero)
    };
    SlotsState { ki: ki2, gu: gu2, q: st.q.update(a as int, qa), sel: st.sel.update(a as int, sa) }
}

/// The slot state after the first `a` of the eight slots.
pub open spec fn slots_upto(s0: Words, nnv: nat, prn: nat, a: nat) -> SlotsState
    decreases a,
{
    if a == 0 {
        slots_init()
    } else if a <= 2 {
        pair_slot(slots_upto(s0, nnv, prn, (a - 1) as nat), s0, nnv, prn, (a - 1) as nat)
    } else {
        solo_slot(slots_upto(s0, nnv, prn, (a - 1) as nat), s0, nnv, (a - 1) as nat)
    }
}

/// A sign coin: +1 on true, -1 on false.
pub open spec fn sgn_of(w: u32) -> int {
    if coin_of(w) {
        1
    } else {
        -1
    }
}

/// The stride increment of pass `dx`: `1 + trunc(rand() * 3)`.
pub open spec fn hx_inc(s0: Words, dx: nat) -> nat {
    1 + scaled_of(out_at(s0, 92 + 3 * dx), 3)
}

/// The accumulated stride after pass `dx`'s increment.
pub open spec fn hx_at(s0: Words, dx: nat) -> nat
    decreases dx,
{
    if dx == 0 {
        hx_inc(s0, 0)
    } else {
        hx_at(s0, (dx - 1) as nat) + hx_inc(s0, dx)
    }
}

/// The header of pass `dx`: hue from draw `91 + 3dx`, the accumulated
/// stride, and lightness `50 + trunc(rand() * 20)` from draw `93 + 3dx`.
pub open spec fn pass_spec(s0: Words, dx: nat) -> PassModel {
    PassModel {
        gh: scaled_of(out_at(s0, 91 + 3 * dx), 360),
        hx: hx_at(s0, dx),
        ih: 50 + scaled_of(out_at(s0, 93 + 3 * dx), 20),
    }
}

/// The complete plan of the run that starts from seed state `s0`.
pub open spec fn plan_spec(s0: Words) -> PlanModel {
    let nnv = nn_of(s0);
    let prn = pr_num_of(s0);
    let fin = slots_upto(s0, nnv, prn, 8);
    PlanModel {
        nn: nnv,
        h_unit: h_unit_spec(s0),
        h_flip: h_flip_spec(s0),
        pr_num: prn,
        q_num: fin.q,
        q_neg: q_neg_spec(s0),
        sel: fin.sel,
        sgn: seq![sgn_of(out_at(s0, 88)), sgn_of(out_at(s0, 89)), sgn_of(out_at(s0, 90))],
        passes: seq![pass_spec(s0, 0), pass_spec(s0, 1), pass_spec(s0, 2)],
    }
}

/// The plan a run hands to the curve evaluation and the compositor.
#[derive(Debug, PartialEq, Eq)]
pub struct Plan {
    /// The curve multiplier, 7 or 11.
    pub nn: u32,
    /// The amplitude draws as 32-bit fractions, in the fill order
    /// `h[2], h[3], h[5], h[6], h[7], h[0]`.
    pub h_unit: Vec<u32>,
    /// The amplitude sign coins for the amplitude indices 2 through 7.
    pub h_flip: Vec<bool>,
    /// The numerator of the phase constant `pr = pr_num / nn`.
    pub pr_num: u32,
    /// The frequency numerators: `q[a] = q_num[a] / nn` exactly.
    pub q_num: Vec<i32>,
    /// The sign coins of the six single slots; false for the two paired
    /// slots. On a zero pool value the coin still decides the sign of zero.
    pub q_neg: Vec<bool>,
    /// The waveform selector pair of each of the eight slots.
    pub sel: Vec<(S, S)>,
    /// The three curve signs, each +1 or -1.
    pub sgn: Vec<i32>,
    /// The three compositor pass headers.
    pub passes: Vec<Pass>,
}

impl View for Plan {
    type V = PlanModel;

    open spec fn view(&self) -> PlanModel {
        PlanModel {
            nn: self.nn as nat,
            h_unit: self.h_unit@,
            h_flip: self.h_flip@,
            pr_num: self.pr_num as nat,
            q_num: self.q_num@.map_values(|x: i32| x as int),
            q_neg: self.q_neg@,
            sel: self.sel@,
            sgn: self.sgn@.map_values(|x: i32| x as int),
            passes: self.passes@.map_values(|p: Pass| p@),
        }
    }
}

/// A slot frequency numerator before its sign: `v * nn` for a pool value `v`.
fn q_mul(v: i32, nn: u32) -> (r: i32)
    requires
        0 <= v <= 11,
        nn <= 11,
    ensures
        r == v * nn,
        0 <= r <= 121,
{
    assert(0 <= v * (nn as i32) <= 121) by (nonlinear_arith)
        requires
            0 <= v <= 11,
            nn <= 11,
    ;
    v * (nn as i32)
}

/// The parameter sampler: seeds the engine from the input bytes, spends the
/// hundred draws in their fixed order, and returns the complete plan of the
/// run.
pub fn stp(text: &[u8]) -> (plan: Plan)
    ensures
        plan@ == plan_spec(seed_words(text@)),
{
    let ghost s0: Words = seed_words(text@);
    let mut xs = Xors::seeded(text);
    xs.warm_up();
    assert(xs@ == state_at(s0, 52));

    let coin_nn: bool = xs.fi();
    assert(xs@ == state_at(s0, 53) && coin_nn == coin_of(out_at(s0, 52)));
    let nn: u32 = if coin_nn {
        7
    } else {
        11
    };
    assert(nn as nat == nn_of(s0));

    let u2: u32 = xs.unit();
    assert(xs@ == state_at(s0, 54) && u2 == unit_of(out_at(s0, 53)));
    let u3: u32 = xs.unit();
    assert(xs@ == state_at(s0, 55) && u3 == unit_of(out_at(s0, 54)));
    let u5: u32 = xs.unit();
    assert(xs@ == state_at(s0, 56) && u5 == unit_of(out_at(s0, 55)));
    let u6: u32 = xs.unit();
    assert(xs@ == state_at(s0, 57) && u6 == unit_of(out_at(s0, 56)));
    let u7: u32 = xs.unit();
    assert(xs@ == state_at(s0, 58) && u7 == unit_of(out_at(s0, 57)));
    let u0: u32 = xs.unit();
    assert(xs@ == state_at(s0, 59) && u0 == unit_of(out_at(s0, 58)));
    let mut h_unit: Vec<u32> = Vec::new();
    h_unit.push(u2);
    h_unit.push(u3);
    h_unit.push(u5);
    h_unit.push(u6);
    h_unit.push(u7);
    h_unit.push(u0);
    assert(h_unit@ =~= h_unit_spec(s0));

    let f2: bool = xs.fi();
    assert(xs@ == state_at(s0, 60) && f2 == coin_of(out_at(s0, 59)));
    let f3: bool = xs.fi();
    assert(xs@ == state_at(s0, 61) && f3 == coin_of(out_at(s0, 60)));
    let f4: bool = xs.fi();
    assert(xs@ == state_at(s0, 62) && f4 == coin_of(out_at(s0, 61)));
    let f5: bool = xs.fi();
    assert(xs@ == state_at(s0, 63) && f5 == coin_of(out_at(s0, 62)));
    let f6: bool = xs.fi();
    assert(xs@ == state_at(s0, 64) && f6 == coin_of(out_at(s0, 63)));
    let f7: bool = xs.fi();
    assert(xs@ == state_at(s0, 65) && f7 == coin_of(out_at(s0, 64)));
    let mut h_flip: Vec<bool> = Vec::new();
    h_flip.push(f2);
    h_flip.push(f3);
    h_flip.push(f4);
    h_flip.push(f5);
    h_flip.push(f6);
    h_flip.push(f7);
    assert(h_flip@ =~= h_flip_spec(s0));

    let d_pr: u32 = xs.draw(nn - 1);
    assert(xs@ == state_at(s0, 66) && d_pr as nat == scaled_of(out_at(s0, 65), (nn - 1) as nat));
    let prn: u32 = 1 + d_pr;
    assert(prn as nat == pr_num_of(s0) && 1 <= prn <= 10);

    let ghost nnv: nat = nn as nat;
    let ghost prnv: nat = prn as nat;
    let mut ki: Vec<i32> = odd_pool();
    let mut gu: Vec<i32> = even_pool();
    let mut q_num: Vec<i32> = Vec::new();
    q_num.push(0i32);
    q_num.push(0i32);
    q_num.push(0i32);
    q_num.push(0i32);
    q_num.push(0i32);
    q_num.push(0i32);
    q_num.push(0i32);
    q_num.push(0i32);
    let mut q_neg: Vec<bool> = Vec::new();
    q_neg.push(false);
    q_neg.push(false);
    let mut sel: Vec<(S, S)> = Vec::new();
    sel.push((S::Zero, S::Zero));
    sel.push((S::Zero, S::Zero));
    sel.push((S::Zero, S::Zero));
    sel.push((S::Zero, S::Zero));
    sel.push((S::Zero, S::Zero));
    sel.push((S::Zero, S::Zero));
    sel.push((S::Zero, S::Zero));
    sel.push((S::Zero, S::Zero));
    proof {
        lemma_pool_budget(s0, nnv, prnv, 0);
        assert(ki@ == slots_upto(s0, nnv, prnv, 0).ki);
        assert(gu@ == slots_upto(s0, nnv, prnv, 0).gu);
        assert(sel@ =~= slots_upto(s0, nnv, prnv, 0).sel);
        assert forall|i: int| 0 <= i < 8 implies q_num@[i] as int == slots_upto(
            s0,
            nnv,
            prnv,
            0,
        ).q[i] by {}
    }

    let pc0: bool = xs.fi();
    assert(xs@ == state_at(s0, 67) && pc0 == coin_of(out_at(s0, 66)));
    if pc0 {
        let ghost kib = ki@;
        let v: i32 = rg(&mut ki, &mut xs);
        proof {
            assert(xs@ == state_at(s0, 68));
            lemma_rg_bounded(kib, xs@.w);
        }
        let qv: i32 = q_mul(v, nn) - (prn as i32);
        q_num[0] = qv;
        sel[0] = (S::Cos, S::Sin);
    } else {
        let ghost gub = gu@;
        let v: i32 = rg(&mut gu, &mut xs);
        proof {
            assert(xs@ == state_at(s0, 68));
            lemma_rg_bounded(gub, xs@.w);
        }
        let qv: i32 = q_mul(v, nn) + (prn as i32);
        q_num[0] = qv;
        sel[0] = (S::Sin, S::Cos);
    }
    proof {
        lemma_pool_budget(s0, nnv, prnv, 1);
        assert(ki@ == slots_upto(s0, nnv, prnv, 1).ki);
        assert(gu@ == slots_upto(s0, nnv, prnv, 1).gu);
        assert(sel@ =~= slots_upto(s0, nnv, prnv, 1).sel);
        assert forall|i: int| 0 <= i < 8 implies q_num@[i] as int == slots_upto(
            s0,
            nnv,
            prnv,
            1,
        ).q[i] by {}
    }

    let pc1: bool = xs.fi();
    assert(xs@ == state_at(s0, 69) && pc1 == coin_of(out_at(s0, 68)));
    if pc1 {
        let ghost kib = ki@;
        let v: i32 = rg(&mut ki, &mut xs);
        proof {
            assert(xs@ == state_at(s0, 70));
            lemma_rg_bounded(kib, xs@.w);
        }
        let qv: i32 = q_mul(v, nn) - (prn as i32);
        q_num[1] = qv;
        sel[1] = (S::Cos, S::Sin);
    } else {
        let ghost gub = gu@;
        let v: i32 = rg(&mut gu, &mut xs);
        proof {
            assert(xs@ == state_at(s0, 70));
            lemma_rg_bounded(gub, xs@.w);
        }
        let qv: i32 = q_mul(v, nn) + (prn as i32);
        q_num[1] = qv;
        sel[1] = (S::Sin, S::Cos);
    }
    proof {
        lemma_pool_budget(s0, nnv, prnv, 2);
        assert(ki@ == slots_upto(s0, nnv, prnv, 2).ki);
        assert(gu@ == slots_upto(s0, nnv, prnv, 2).gu);
        assert(sel@ =~= slots_upto(s0, nnv, prnv, 2).sel);
        assert forall|i: int| 0 <= i < 8 implies q_num@[i] as int == slots_upto(
            s0,
            nnv,
            prnv,
            2,
        ).q[i] by {}
    }

    let mut a: usize = 2;
    while a < 8
        invariant
            2 <= a <= 8,
            nnv == nn_of(s0),
            nn as nat == nnv,
            nn <= 11,
            prnv == pr_num_of(s0),
            prn as nat == prnv,
            xs@ == state_at(s0, (64 + 3 * a) as nat),
            ki@ == slots_upto(s0, nnv, prnv, a as nat).ki,
            gu@ == slots_upto(s0, nnv, prnv, a as nat).gu,
            sel@ == slots_upto(s0, nnv, prnv, a as nat).sel,
            q_num@.len() == 8,
            sel@.len() == 8,
            q_neg@.len() == a,
            forall|i: int| 0 <= i < a ==> q_neg@[i] == q_neg_spec(s0)[i],
            forall|i: int|
                0 <= i < 8 ==> q_num@[i] as int == slots_upto(s0, nnv, prnv, a as nat).q[i],
            ki@.len() + gu@.len() == 13 - a,
            pool_bounded(ki@),
            pool_bounded(gu@),
        decreases 8 - a,
    {
        let ghost st = slots_upto(s0, nnv, prnv, a as nat);
        let c: bool = xs.fi();
        assert(xs@ == state_at(s0, (65 + 3 * a) as nat) && c == coin_of(
            out_at(s0, (64 + 3 * a) as nat),
        ));
        let from_ki: bool = if ki.len() == 0 {
            false
        } else if gu.len() == 0 {
            true
        } else {
            c
        };
        let ghost kib = ki@;
        let ghost gub = gu@;
        let v: i32 = if from_ki {
            rg(&mut ki, &mut xs)
        } else {
            rg(&mut gu, &mut xs)
        };
        proof {
            assert(xs@ == state_at(s0, (66 + 3 * a) as nat));
            if from_ki {
                lemma_rg_bounded(kib, xs@.w);
            } else {
                lemma_rg_bounded(gub, xs@.w);
            }
        }
        let neg: bool = xs.fi();
        assert(xs@ == state_at(s0, (67 + 3 * a) as nat) && neg == coin_of(
            out_at(s0, (66 + 3 * a) as nat),
        ));
        let mut qa: i32 = q_mul(v, nn);
        if neg {
            qa = -qa;
        }
        q_num[a] = qa;
        q_neg.push(neg);
        let tag: bool = if a > 5 {
            !from_ki
        } else {
            from_ki
        };
        if tag {
            sel[a] = (S::Cos, S::Zero);
        } else {
            sel[a] = (S::Sin, S::Zero);
        }
        proof {
            let aN = a as nat;
            lemma_pool_budget(s0, nnv, prnv, aN);
            lemma_pool_budget(s0, nnv, prnv, aN + 1);
            assert(slots_upto(s0, nnv, prnv, aN + 1) == solo_slot(st, s0, nnv, aN));
            assert(ki@ == slots_upto(s0, nnv, prnv, aN + 1).ki);
            assert(gu@ == slots_upto(s0, nnv, prnv, aN + 1).gu);
            assert(sel@ =~= slots_upto(s0, nnv, prnv, aN + 1).sel);
            assert forall|i: int| 0 <= i < 8 implies q_num@[i] as int == slots_upto(
                s0,
                nnv,
                prnv,
                aN + 1,
            ).q[i] by {}
        }
        a = a + 1;
    }
    assert(xs@ == state_at(s0, 88));

    let gb0: bool = xs.fi();
    assert(xs@ == state_at(s0, 89) && gb0 == coin_of(out_at(s0, 88)));
    let gb1: bool = xs.fi();
    assert(xs@ == state_at(s0, 90) && gb1 == coin_of(out_at(s0, 89)));
    let gb2: bool = xs.fi();
    assert(xs@ == state_at(s0, 91) && gb2 == coin_of(out_at(s0, 90)));
    let mut sgn: Vec<i32> = Vec::new();
    sgn.push(if gb0 {
        1i32
    } else {
        -1i32
    });
    sgn.push(if gb1 {
        1i32
    } else {
        -1i32
    });
    sgn.push(if gb2 {
        1i32
    } else {
        -1i32
    });

    let mut passes: Vec<Pass> = Vec::new();
    let gh0: u32 = xs.draw(360);
    assert(xs@ == state_at(s0, 92) && gh0 as nat == scaled_of(out_at(s0, 91), 360));
    let inc0: u32 = 1 + xs.draw(3);
    assert(xs@ == state_at(s0, 93));
    let hx0: u32 = inc0;
    assert(hx0 as nat == hx_at(s0, 0));
    let ih0: u32 = 50 + xs.draw(20);
    assert(xs@ == state_at(s0, 94) && ih0 as nat == 50 + scaled_of(out_at(s0, 93), 20));
    passes.push(Pass { gh: gh0, hx: hx0, ih: ih0 });

    let gh1: u32 = xs.draw(360);
    assert(xs@ == state_at(s0, 95) && gh1 as nat == scaled_of(out_at(s0, 94), 360));
    let inc1: u32 = 1 + xs.draw(3);
    assert(xs@ == state_at(s0, 96));
    let hx1: u32 = hx0 + inc1;
    assert(hx1 as nat == hx_at(s0, 1));
    let ih1: u32 = 50 + xs.draw(20);
    assert(xs@ == state_at(s0, 97) && ih1 as nat == 50 + scaled_of(out_at(s0, 96), 20));
    passes.push(Pass { gh: gh1, hx: hx1, ih: ih1 });

    let gh2: u32 = xs.draw(360);
    assert(xs@ == state_at(s0, 98) && gh2 as nat == scaled_of(out_at(s0, 97), 360));
    let inc2: u32 = 1 + xs.draw(3);
    assert(xs@ == state_at(s0, 99));
    let hx2: u32 = hx1 + inc2;
    assert(hx2 as nat == hx_at(s0, 2));
    let ih2: u32 = 50 + xs.draw(20);
    assert(xs@ == state_at(s0, 100) && ih2 as nat == 50 + scaled_of(out_at(s0, 99), 20));
    passes.push(Pass { gh: gh2, hx: hx2, ih: ih2 });

    let plan = Plan { nn, h_unit, h_flip, pr_num: prn, q_num, q_neg, sel, sgn, passes };
    proof {
        let m = plan_spec(s0);
        lemma_pool_budget(s0, nnv, prnv, 8);
        assert(plan@.h_unit =~= m.h_unit);
        assert(plan@.h_flip =~= m.h_flip);
        assert(plan@.q_num =~= m.q_num);
        assert(plan@.q_neg =~= m.q_neg);
        assert(plan@.sel =~= m.sel);
        assert(plan@.sgn =~= m.sgn);
        assert(plan@.passes =~= m.passes);
        assert(plan@ =~= m);
    }
    plan
}

/// Generation from a text: the plan of the run for the UTF-8 bytes of
/// `text`.
pub fn visual_hash(text: &str) -> (plan: Plan)
    ensures
        plan@ == plan_spec(seed_words(text.spec_bytes())),
{
    stp(text.as_bytes())
}

/// Pool budget: after `a` slots the two pools together still hold `13 - a`
/// values and stay bounded, and while the paired slots run, each pool still
/// holds values of its own. So no slot ever draws from an empty pool, and a
/// whole run draws exactly 8 of the 13 initial pool values.
pub proof fn lemma_pool_budget(s0: Words, nnv: nat, prn: nat, a: nat)
    requires
        a <= 8,
    ensures
        slots_upto(s0, nnv, prn, a).ki.len() + slots_upto(s0, nnv, prn, a).gu.len() == 13 - a,
        a <= 2 ==> slots_upto(s0, nnv, prn, a).ki.len() >= 6 - a && slots_upto(
            s0,
            nnv,
            prn,
            a,
        ).gu.len() >= 7 - a,
        pool_bounded(slots_upto(s0, nnv, prn, a).ki),
        pool_bounded(slots_upto(s0, nnv, prn, a).gu),
        slots_upto(s0, nnv, prn, a).q.len() == 8,
        slots_upto(s0, nnv, prn, a).sel.len() == 8,
    decreases a,
{
    if a == 0 {
        assert(pool_bounded(slots_init().ki));
        assert(pool_bounded(slots_init().gu));
    } else {
        let p = (a - 1) as nat;
        lemma_pool_budget(s0, nnv, prn, p);
        let st = slots_upto(s0, nnv, prn, p);
        if a <= 2 {
            let wp = out_at(s0, 67 + 2 * p);
            if coin_of(out_at(s0, 66 + 2 * p)) {
                lemma_rg_bounded(st.ki, wp);
            } else {
                lemma_rg_bounded(st.gu, wp);
            }
        } else {
            let wp = out_at(s0, 65 + 3 * p);
            let from_ki = if st.ki.len() == 0 {
                false
            } else if st.gu.len() == 0 {
                true
            } else {
                coin_of(out_at(s0, 64 + 3 * p))
            };
            if from_ki {
                lemma_rg_bounded(st.ki, wp);
            } else {
                lemma_rg_bounded(st.gu, wp);
            }
        }
    }
}

/// The documented ranges of every plan: the multiplier is 7 or 11, the
/// phase numerator lies strictly between 0 and the multiplier, each pass hue
/// is below 360 degrees, the accumulated stride after pass `dx` is at most
/// `3 * (dx + 1)` — so never above 9 — and each lightness lies in the
/// fifties or sixties.
pub proof fn lemma_plan_ranges(s0: Words)
    ensures
        plan_spec(s0).nn == 7 || plan_spec(s0).nn == 11,
        1 <= plan_spec(s0).pr_num < plan_spec(s0).nn,
        plan_spec(s0).passes.len() == 3,
        forall|dx: int|
            0 <= dx < 3 ==> (#[trigger] plan_spec(s0).passes[dx]).gh < 360,
        forall|dx: int|
            0 <= dx < 3 ==> 1 <= (#[trigger] plan_spec(s0).passes[dx]).hx <= 3 * (dx + 1),
        forall|dx: int|
            0 <= dx < 3 ==> 50 <= (#[trigger] plan_spec(s0).passes[dx]).ih < 70,
        plan_spec(s0).q_num.len() == 8,
        plan_spec(s0).sel.len() == 8,
        forall|i: int|
            0 <= i < 3 ==> ((#[trigger] plan_spec(s0).sgn[i]) == 1 || plan_spec(s0).sgn[i] == -1),
{
    crate::prng::lemma_scaled_lt(out_at(s0, 65), (nn_of(s0) - 1) as nat);
    lemma_pool_budget(s0, nn_of(s0), pr_num_of(s0), 8);
    assert forall|dx: int| 0 <= dx < 3 implies (#[trigger] plan_spec(s0).passes[dx]).gh
        < 360 by {
        crate::prng::lemma_scaled_lt(out_at(s0, (91 + 3 * dx) as nat), 360);
    }
    assert forall|dx: int| 0 <= dx < 3 implies 50 <= (#[trigger] plan_spec(s0).passes[dx]).ih
        < 70 by {
        crate::prng::lemma_scaled_lt(out_at(s0, (93 + 3 * dx) as nat), 20);
    }
    crate::prng::lemma_scaled_lt(out_at(s0, 92), 3);
    crate::prng::lemma_scaled_lt(out_at(s0, 95), 3);
    crate::prng::lemma_scaled_lt(out_at(s0, 98), 3);
    assert(hx_at(s0, 0) <= 3);
    assert(hx_at(s0, 1) <= 6);
    assert(hx_at(s0, 2) <= 9);
    assert forall|dx: int| 0 <= dx < 3 implies 1 <= (#[trigger] plan_spec(s0).passes[dx]).hx <= 3
        * (dx + 1) by {}
}

/// Determinism: the plan is a function of the input bytes alone, so equal
/// inputs always yield equal plans.
pub proof fn lemma_deterministic(a: Seq<u8>, b: Seq<u8>)
    requires
        a == b,
    ensures
        plan_spec(seed_words(a)) == plan_spec(seed_words(b)),
{
}

} // verus!
