use vstd::prelude::*;

verus! {

/// The integer finaliser used for per-texel and per-star noise.
pub open spec fn spec_hash_u32(x: u32) -> u32 {
    let x1 = x ^ (x >> 16u32);
    let x2 = x1.wrapping_mul(0x7feb_352d);
    let x3 = x2 ^ (x2 >> 15u32);
    let x4 = x3.wrapping_mul(0x846c_a68b);
    x4 ^ (x4 >> 16u32)
}

/// Avalanching 32-bit integer hash (xor-shift / multiply rounds).
#[inline]
pub fn hash_u32(x: u32) -> (h: u32)
    ensures
        h == spec_hash_u32(x),
{
    let mut x = x;
    x ^= x >> 16;
    x = x.wrapping_mul(0x7feb_352d);
    x ^= x >> 15;
    x = x.wrapping_mul(0x846c_a68b);
    x ^= x >> 16;
    x
}

/// The column/depth hash of `x`, `z` and `salt`, before it is reduced.
pub open spec fn hash_i32_mix(x: i32, z: i32, salt: i32) -> u32 {
    let h = (x as u32).wrapping_mul(374_761_393) ^ (z as u32).wrapping_mul(668_265_263) ^ (
    salt as u32).wrapping_mul(2_246_822_519);
    h ^ (h >> 15u32)
}

/// Small deterministic hash of a column and a salt, in `0..1_000_000`, used
/// for reproducible jitter without threading a generator through the
/// builders.
#[inline]
pub fn hash_i32(x: i32, z: i32, salt: i32) -> (h: i32)
    ensures
        h == hash_i32_mix(x, z, salt) % 1_000_000,
        0 <= h < 1_000_000,
{
    let h = (x as u32).wrapping_mul(374_761_393) ^ (z as u32).wrapping_mul(668_265_263) ^ (
    salt as u32).wrapping_mul(2_246_822_519);
    let h = h ^ (h >> 15);
    (h % 1_000_000) as i32
}

} // verus!
