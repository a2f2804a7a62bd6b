use diorama::hash::{hash_i32, hash_u32};
use diorama::noise::{Pcg32, Perlin, CHANCE_30, CHANCE_35, CHANCE_40};

/// An independent PCG32 (XSH-RR) step: the state after and the output.
fn pcg_reference(state: u64, inc: u64) -> (u64, u32) {
    let next = state.wrapping_mul(6_364_136_223_846_793_005).wrapping_add(inc);
    let xorshifted = (((state >> 18) ^ state) >> 27) as u32;
    let rot = (state >> 59) as u32;
    (next, xorshifted.rotate_right(rot))
}

fn reference_stream(seed: u64, seq: u64, n: usize) -> Vec<u32> {
    let inc = (seq << 1) | 1;
    let (s, _) = pcg_reference(0, inc);
    let (mut s, _) = pcg_reference(s.wrapping_add(seed), inc);
    let mut out = Vec::new();
    for _ in 0..n {
        let (next, r) = pcg_reference(s, inc);
        out.push(r);
        s = next;
    }
    out
}

fn unit_f32(x: u32) -> f32 {
    (x as f32) / (u32::MAX as f32 + 1.0)
}

#[test]
fn pcg32_varies() {
    let mut rng = Pcg32::new(7, 1);
    let a = rng.next_u32();
    let b = rng.next_u32();
    assert_ne!(a, b);
}

#[test]
fn pcg32_matches_reference_stream() {
    let expected = reference_stream(42, 54, 16);
    let mut rng = Pcg32::new(42, 54);
    for e in expected {
        assert_eq!(rng.next_u32(), e);
    }
}

#[test]
fn pcg32_same_seed_same_stream() {
    let mut a = Pcg32::new(1337, 3);
    let mut b = Pcg32::new(1337, 3);
    for _ in 0..100 {
        assert_eq!(a.next_u32(), b.next_u32());
    }
    let mut c = Pcg32::new(1338, 3);
    let mut d = Pcg32::new(1337, 3);
    let differs = (0..10).any(|_| c.next_u32() != d.next_u32());
    assert!(differs);
}

#[test]
fn range_i32_stays_in_range() {
    let mut rng = Pcg32::new(99, 5);
    let mut seen = [false; 9];
    for _ in 0..500 {
        let r = rng.range_i32(-4, 4);
        assert!((-4..=4).contains(&r));
        seen[(r + 4) as usize] = true;
    }
    assert!(seen.iter().all(|&s| s));
}

#[test]
fn range_i32_formula() {
    let expected = reference_stream(5, 6, 3);
    let mut rng = Pcg32::new(5, 6);
    assert_eq!(rng.range_i32(10, 19), 10 + (expected[0] % 10) as i32);
    assert_eq!(rng.range_i32(3, 3), 3);
    // an empty range gives its low end and still advances the stream
    assert_eq!(rng.range_i32(8, 2), 8);
    assert_eq!(rng.next_u32(), reference_stream(5, 6, 4)[3]);
}

#[test]
fn chance_thresholds_agree_with_float_draws() {
    for &(threshold, p) in &[(CHANCE_30, 0.3f32), (CHANCE_35, 0.35), (CHANCE_40, 0.4)] {
        for x in [0, threshold - 2, threshold - 1, threshold, threshold + 1, threshold + 2, u32::MAX] {
            assert_eq!(unit_f32(x) < p, x < threshold, "x = {}", x);
        }
        for k in 0..2000u32 {
            let x = k.wrapping_mul(2_654_435_761);
            assert_eq!(unit_f32(x) < p, x < threshold);
        }
    }
}

#[test]
fn chance_follows_the_stream() {
    let draws = reference_stream(11, 2, 50);
    let mut rng = Pcg32::new(11, 2);
    for d in draws {
        assert_eq!(rng.chance(CHANCE_35), unit_f32(d) < 0.35);
    }
}

#[test]
fn perlin_lattice_is_a_permutation() {
    let p = Perlin::new(42);
    // p[p[x]] over every x takes every byte once when p is a permutation
    let mut seen = [false; 256];
    for x in 0..256usize {
        let (aa, _, _, _) = p.corner_hashes2(x, 0);
        assert!(!seen[aa as usize]);
        seen[aa as usize] = true;
    }
    assert!(seen.iter().all(|&s| s));
}

#[test]
fn perlin_is_deterministic_per_seed() {
    let a = Perlin::new(7);
    let b = Perlin::new(7);
    let c = Perlin::new(8);
    let mut differs = false;
    for x in 0..256usize {
        assert_eq!(a.corner_hashes2(x, x), b.corner_hashes2(x, x));
        assert_eq!(a.corner_hashes3(x, 3, 200), b.corner_hashes3(x, 3, 200));
        differs |= a.corner_hashes2(x, 0) != c.corner_hashes2(x, 0);
    }
    assert!(differs);
}

#[test]
fn hash_u32_known_values() {
    assert_eq!(hash_u32(0), 0);
    let mut x: u32 = 1;
    x ^= x >> 16;
    x = x.wrapping_mul(0x7feb_352d);
    x ^= x >> 15;
    x = x.wrapping_mul(0x846c_a68b);
    x ^= x >> 16;
    assert_eq!(hash_u32(1), x);
    assert_ne!(hash_u32(1), hash_u32(2));
}

#[test]
fn hash_i32_is_reduced_and_deterministic() {
    for (x, z, s) in [(0, 0, 0), (-5, 17, 3), (i32::MAX, i32::MIN, -1), (12, 34, 56)] {
        let h = hash_i32(x, z, s);
        assert!((0..1_000_000).contains(&h));
        assert_eq!(h, hash_i32(x, z, s));
        let m = (x as u32).wrapping_mul(374_761_393) ^ (z as u32).wrapping_mul(668_265_263) ^ (s as u32).wrapping_mul(2_246_822_519);
        let m = m ^ (m >> 15);
        assert_eq!(h, (m % 1_000_000) as i32);
    }
    assert_eq!(hash_i32(0, 0, 0), 0);
}
