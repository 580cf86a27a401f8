// The sampled plan against hard-coded golden runs and against a direct
// floating-point replay of the sampling pass.

use visual_hash::plan::{stp, visual_hash, Pass, Plan, S};

/// The reference engine in signed words and doubles.
struct RefXors {
    x: i32,
    y: i32,
    z: i32,
    w: i32,
}

impl RefXors {
    fn seeded(text: &[u8]) -> RefXors {
        let mut c: [i32; 4] = [123456789, 362436069, 521288629, 0];
        for (b, &v) in text.iter().enumerate() {
            c[(b + 3) % 4] ^= (v as i32) << ((b * 11) % 16);
        }
        RefXors { x: c[0], y: c[1], z: c[2], w: c[3] }
    }

    fn rand(&mut self) -> f64 {
        let t = self.x ^ (self.x << 11);
        self.x = self.y;
        self.y = self.z;
        self.z = self.w;
        let w2 = self.w as u32 >> 19;
        let t2 = t as u32 >> 8;
        self.w = (self.w ^ (w2 as i32)) ^ (t ^ (t2 as i32));
        (self.w as f64 / 4294967296.0) + 0.5
    }

    fn fi(&mut self) -> bool {
        self.rand() < 0.5
    }

    fn rg(&mut self, ha: &mut Vec<i32>) -> f64 {
        let c = self.rand();
        let a = (ha.len() as f64 * c) as i32 | 0;
        let b = ha[a as usize];
        ha[a as usize] = ha[ha.len() - 1];
        ha.pop();
        b as f64
    }
}

/// The floating-point sampling pass, replayed as written: nn, the eight
/// amplitudes after their sign coins, pr, the eight frequencies, the
/// selector tags, the three signs and the three pass headers.
struct RefPlan {
    nn: i32,
    h: [f64; 8],
    pr: f64,
    q: [f64; 8],
    sel: [(S, S); 8],
    sgn: [f64; 3],
    passes: [(i32, i32, i32); 3],
}

fn ref_plan(text: &[u8]) -> RefPlan {
    let mut xs = RefXors::seeded(text);
    for _ in 0..52 {
        xs.rand();
    }
    let nn = if xs.fi() { 7 } else { 11 };
    let mut h: [f64; 8] = [0.0; 8];
    h[2] = 0.3 + xs.rand() * 0.2;
    h[3] = 0.1 + xs.rand() * 0.1;
    h[5] = 1.0 + xs.rand() * 4.0;
    h[6] = 1.0 + xs.rand();
    h[7] = 1.0 + xs.rand();
    h[0] = 0.4 + xs.rand() * 0.2;
    for a in 2..8 {
        if xs.fi() {
            h[a] *= -1.0;
        }
    }
    let mut ki = vec![1, 3, 5, 7, 9, 11];
    let mut gu = vec![0, 0, 2, 4, 6, 8, 10];
    let mut sel: [(S, S); 8] = [(S::Zero, S::Zero); 8];
    let mut q: [f64; 8] = [0.0; 8];
    let pr: f64 = ((1.0 + xs.rand() * (nn - 1) as f64) as i32 | 0) as f64 / nn as f64;
    for a in 0..2 {
        if xs.fi() {
            sel[a] = (S::Cos, S::Sin);
            q[a] = xs.rg(&mut ki) - pr;
        } else {
            sel[a] = (S::Sin, S::Cos);
            q[a] = xs.rg(&mut gu) + pr;
        }
    }
    for a in 2..8 {
        let mut b = xs.fi();
        b = match (ki.len(), gu.len()) {
            (0, _) => false,
            (_, 0) => true,
            _ => b,
        };
        q[a] = match b {
            true => xs.rg(&mut ki),
            false => xs.rg(&mut gu),
        };
        if xs.fi() {
            q[a] *= -1.0;
        }
        if a > 5 {
            b = !b;
        }
        sel[a] = match b {
            true => (S::Cos, S::Zero),
            false => (S::Sin, S::Zero),
        };
    }
    let mut sgn: [f64; 3] = [0.0; 3];
    for a in 0..3 {
        sgn[a] = if xs.fi() { 1.0 } else { -1.0 };
    }
    let mut passes: [(i32, i32, i32); 3] = [(0, 0, 0); 3];
    let mut hx = 0;
    for dx in 0..3 {
        let gh = (xs.rand() * 360.0) as i32 | 0;
        hx += 1 + (xs.rand() * 3.0) as i32 | 0;
        let ih = 50 + (xs.rand() * 20.0) as i32 | 0;
        passes[dx] = (gh, hx, ih);
    }
    RefPlan { nn, h, pr, q, sel, sgn, passes }
}

/// The eight amplitudes rebuilt from a plan's stored draws, exactly as the
/// floating-point pass computes them.
fn rebuild_h(p: &Plan) -> [f64; 8] {
    let r = |u: u32| u as f64 / 4294967296.0;
    let mut h: [f64; 8] = [0.0; 8];
    h[2] = 0.3 + r(p.h_unit[0]) * 0.2;
    h[3] = 0.1 + r(p.h_unit[1]) * 0.1;
    h[5] = 1.0 + r(p.h_unit[2]) * 4.0;
    h[6] = 1.0 + r(p.h_unit[3]);
    h[7] = 1.0 + r(p.h_unit[4]);
    h[0] = 0.4 + r(p.h_unit[5]) * 0.2;
    for a in 2..8 {
        if p.h_flip[a - 2] {
            h[a] *= -1.0;
        }
    }
    h
}

/// The eight frequencies rebuilt from a plan, exactly as the floating-point
/// pass computes them: the paired slots subtract or add pr to the popped
/// value, the single slots negate by their sign coin (minus zero included).
fn rebuild_q(p: &Plan) -> [f64; 8] {
    let nn = p.nn as i32;
    let pr = p.pr_num as f64 / p.nn as f64;
    let mut q: [f64; 8] = [0.0; 8];
    for a in 0..2 {
        if p.sel[a] == (S::Cos, S::Sin) {
            let v = (p.q_num[a] + p.pr_num as i32) / nn;
            q[a] = v as f64 - pr;
        } else {
            let v = (p.q_num[a] - p.pr_num as i32) / nn;
            q[a] = v as f64 + pr;
        }
    }
    for a in 2..8 {
        let v = p.q_num[a].unsigned_abs() as i32 / nn;
        q[a] = v as f64;
        if p.q_neg[a] {
            q[a] *= -1.0;
        }
    }
    q
}

fn assert_matches_reference(text: &[u8]) {
    let p = stp(text);
    let r = ref_plan(text);
    assert_eq!(p.nn as i32, r.nn);
    let h = rebuild_h(&p);
    for a in 0..8 {
        assert_eq!(h[a].to_bits(), r.h[a].to_bits(), "h[{}] for {:?}", a, text);
    }
    let pr = p.pr_num as f64 / p.nn as f64;
    assert_eq!(pr.to_bits(), r.pr.to_bits());
    let q = rebuild_q(&p);
    for a in 0..8 {
        assert_eq!(q[a].to_bits(), r.q[a].to_bits(), "q[{}] for {:?}", a, text);
        assert_eq!(p.sel[a], r.sel[a]);
    }
    for a in 0..3 {
        assert_eq!(p.sgn[a] as f64, r.sgn[a]);
    }
    for dx in 0..3 {
        let ps = &p.passes[dx];
        assert_eq!((ps.gh as i32, ps.hx as i32, ps.ih as i32), r.passes[dx]);
    }
}

/// The plan agrees with the floating-point replay over many inputs.
#[test]
fn plan_matches_float_reference() {
    assert_matches_reference(b"");
    assert_matches_reference(b"A");
    assert_matches_reference(b"hello");
    assert_matches_reference(b"Visual Hashing");
    for i in 0u32..200 {
        let text = format!("input number {} of the sweep", i * 7919);
        assert_matches_reference(text.as_bytes());
    }
}

/// Golden run for the empty input: nn is 7 and every table matches.
#[test]
fn golden_plan_empty() {
    let p = stp(b"");
    assert_eq!(p.nn, 7);
    assert_eq!(
        p.h_unit,
        vec![2399657178, 138870931, 2154993677, 334943606, 572926686, 2463491473]
    );
    assert_eq!(p.h_flip, vec![true, true, false, true, true, false]);
    assert_eq!(p.pr_num, 4);
    assert_eq!(p.q_num, vec![45, 59, -14, -56, 0, 0, -7, -42]);
    assert_eq!(p.q_neg, vec![false, false, true, true, true, true, true, true]);
    assert_eq!(
        p.sel,
        vec![
            (S::Cos, S::Sin),
            (S::Cos, S::Sin),
            (S::Sin, S::Zero),
            (S::Sin, S::Zero),
            (S::Sin, S::Zero),
            (S::Sin, S::Zero),
            (S::Sin, S::Zero),
            (S::Cos, S::Zero),
        ]
    );
    assert_eq!(p.sgn, vec![1, 1, 1]);
    assert_eq!(
        p.passes,
        vec![
            Pass { gh: 141, hx: 3, ih: 58 },
            Pass { gh: 71, hx: 6, ih: 52 },
            Pass { gh: 124, hx: 7, ih: 56 },
        ]
    );
}

/// Golden run for a single byte: nn is 11.
#[test]
fn golden_plan_single_byte() {
    let p = stp(b"A");
    assert_eq!(p.nn, 11);
    assert_eq!(
        p.h_unit,
        vec![687015404, 3833070375, 3272210196, 3729050911, 4004020062, 1248667799]
    );
    assert_eq!(p.h_flip, vec![true, true, true, false, false, true]);
    assert_eq!(p.pr_num, 2);
    assert_eq!(p.q_num, vec![2, 97, -121, 11, 66, -55, 33, -77]);
    assert_eq!(p.q_neg, vec![false, false, true, false, false, true, false, true]);
    assert_eq!(p.sgn, vec![-1, 1, -1]);
    assert_eq!(
        p.passes,
        vec![
            Pass { gh: 77, hx: 2, ih: 61 },
            Pass { gh: 150, hx: 5, ih: 61 },
            Pass { gh: 308, hx: 8, ih: 63 },
        ]
    );
}

/// Golden run for "hello": a single slot draws a zero with a set sign coin,
/// which the plan keeps as a negative zero frequency.
#[test]
fn golden_plan_hello() {
    let p = stp(b"hello");
    assert_eq!(p.nn, 11);
    assert_eq!(p.pr_num, 3);
    assert_eq!(p.q_num, vec![52, 74, 0, 44, 0, 110, -121, 22]);
    assert_eq!(p.q_neg, vec![false, false, true, false, true, false, true, false]);
    assert_eq!(p.sgn, vec![-1, -1, 1]);
    let q = rebuild_q(&p);
    assert_eq!(q[2].to_bits(), (-0.0f64).to_bits());
    assert_eq!(q[4].to_bits(), (-0.0f64).to_bits());
    assert_eq!(
        p.passes,
        vec![
            Pass { gh: 329, hx: 2, ih: 59 },
            Pass { gh: 161, hx: 5, ih: 63 },
            Pass { gh: 132, hx: 6, ih: 65 },
        ]
    );
}

/// Two runs on the same input give identical plans; different inputs differ.
#[test]
fn plan_is_deterministic() {
    let once = stp(b"same text");
    let twice = stp(b"same text");
    assert_eq!(once, twice);
    let other = stp(b"same texu");
    assert_ne!(once, other);
}

/// The str entry point folds the UTF-8 bytes, like the byte entry point.
#[test]
fn visual_hash_uses_utf8_bytes() {
    assert_eq!(visual_hash("héllo"), stp("héllo".as_bytes()));
    assert_eq!(visual_hash(""), stp(b""));
}

/// An empty input still runs every stage and fills every table.
#[test]
fn empty_input_runs_all_stages() {
    let p = stp(b"");
    assert_eq!(p.h_unit.len(), 6);
    assert_eq!(p.h_flip.len(), 6);
    assert_eq!(p.q_num.len(), 8);
    assert_eq!(p.sel.len(), 8);
    assert_eq!(p.sgn.len(), 3);
    assert_eq!(p.passes.len(), 3);
    assert!(p.nn == 7 || p.nn == 11);
    assert!(1 <= p.pr_num && p.pr_num < p.nn);
}

/// Every run keeps the documented parameter ranges: pr below nn, pool
/// values at most 11, pass hues below 360, strides at most 9, lightness in
/// the fifties or sixties.
#[test]
fn plan_ranges_hold() {
    for i in 0u32..50 {
        let text = format!("range probe {}", i);
        let p = stp(text.as_bytes());
        assert!(p.nn == 7 || p.nn == 11);
        assert!(1 <= p.pr_num && p.pr_num < p.nn);
        let mut drawn = 0;
        for a in 0..8 {
            let v = if a < 2 {
                if p.sel[a] == (S::Cos, S::Sin) {
                    (p.q_num[a] + p.pr_num as i32) / p.nn as i32
                } else {
                    (p.q_num[a] - p.pr_num as i32) / p.nn as i32
                }
            } else {
                p.q_num[a].unsigned_abs() as i32 / p.nn as i32
            };
            assert!((0..=11).contains(&v));
            drawn += 1;
        }
        // Exactly eight of the thirteen pool values are consumed per run.
        assert_eq!(drawn, 8);
        for ps in &p.passes {
            assert!(ps.gh < 360);
            assert!((1..=9).contains(&ps.hx));
            assert!((50..70).contains(&ps.ih));
        }
    }
}
