// Seed derivation: folding input bytes into the four initial engine words.

use visual_hash::prng::Xors;

/// A single byte folds into word 3 with shift 0.
#[test]
fn seed_single_byte() {
    let xs = Xors::seeded(b"A");
    assert_eq!(xs.words(), (123456789, 362436069, 521288629, 65));
}

/// An empty input leaves the four constants untouched.
#[test]
fn seed_empty_input() {
    let xs = Xors::seeded(b"");
    assert_eq!(xs.words(), (123456789, 362436069, 521288629, 0));
}

/// Five bytes cycle the target word through 3, 0, 1, 2, 3 with shifts
/// 0, 11, 6, 1, 12; each xor checked independently against the formula.
#[test]
fn seed_multi_byte() {
    let text = b"hello";
    let mut c: [u32; 4] = [123456789, 362436069, 521288629, 0];
    for (b, &v) in text.iter().enumerate() {
        let shift = (b * 11) % 16;
        let target = (b + 3) % 4;
        // The documented cycling for a five-byte input.
        assert_eq!(target, [3, 0, 1, 2, 3][b]);
        assert_eq!(shift, [0, 11, 6, 1, 12][b]);
        c[target] ^= (v as u32) << shift;
    }
    let xs = Xors::seeded(text);
    assert_eq!(xs.words(), (c[0], c[1], c[2], c[3]));
    assert_eq!(xs.words(), (123266325, 362434277, 521288557, 454760));
}

/// The fold over a longer input, replayed byte by byte from the formula.
#[test]
fn seed_long_input_matches_formula() {
    let text: Vec<u8> = (0u16..600u16).map(|i| (i % 256) as u8).collect();
    let mut c: [u32; 4] = [123456789, 362436069, 521288629, 0];
    for (b, &v) in text.iter().enumerate() {
        c[(b + 3) % 4] ^= (v as u32) << ((b * 11) % 16);
    }
    let xs = Xors::seeded(&text);
    assert_eq!(xs.words(), (c[0], c[1], c[2], c[3]));
}
