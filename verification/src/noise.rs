use vstd::prelude::*;

verus! {

/// The PCG32 multiplier.
pub const PCG_MULTIPLIER: u64 = 6_364_136_223_846_793_005;

/// The stream selector that permutation tables are shuffled with.
pub const PERLIN_STREAM: u64 = 0xda3e_39cb_94b9_5bdb;

/// Draws `< CHANCE_30` happen with the probability `next_f32() < 0.3` has.
pub const CHANCE_30: u32 = 1288490176;

/// Draws `< CHANCE_35` happen with the probability `next_f32() < 0.35` has.
pub const CHANCE_35: u32 = 1503238465;

/// Draws `< CHANCE_40` happen with the probability `next_f32() < 0.4` has.
pub const CHANCE_40: u32 = 1717986881;

/// One step of the PCG32 linear congruential state transition.
pub open spec fn pcg_step(state: u64, inc: u64) -> u64 {
    state.wrapping_mul(PCG_MULTIPLIER).wrapping_add(inc)
}

/// The XSH-RR output permutation applied to the state before a step.
pub open spec fn pcg_output(old: u64) -> u32 {
    let xorshifted = (((old >> 18u64) ^ old) >> 27u64) as u32;
    let rot = (old >> 59u64) as u32;
    (xorshifted >> rot) | (xorshifted << ((32u32.wrapping_sub(rot)) & 31u32))
}

/// The increment of the stream selected by `seq`: always odd.
pub open spec fn pcg_increment(seq: u64) -> u64 {
    (seq << 1u64) | 1u64
}

/// The state of a generator seeded with `seed` on the stream `seq`.
pub open spec fn pcg_seeded_state(seed: u64, seq: u64) -> u64 {
    let inc = pcg_increment(seq);
    pcg_step(pcg_step(0, inc).wrapping_add(seed), inc)
}

/// The number of values `range_i32(lo, hi)` chooses among.
pub open spec fn range_span(lo: int, hi: int) -> int {
    if hi - lo + 1 >= 1 {
        hi - lo + 1
    } else {
        1
    }
}

/// The generator state `s` after one draw.
pub open spec fn advanced(s: (u64, u64)) -> (u64, u64) {
    (pcg_step(s.0, s.1), s.1)
}

/// The value `range_i32(lo, hi)` draws from the state `s`.
pub open spec fn drawn_in_range(s: (u64, u64), lo: int, hi: int) -> int {
    lo + pcg_output(s.0) as int % range_span(lo, hi)
}

/// Whether `chance(threshold)` hits from the state `s`.
pub open spec fn drawn_chance(s: (u64, u64), threshold: u32) -> bool {
    pcg_output(s.0) < threshold
}

/// PCG32, a small fast generator with good statistical quality, used for
/// procedural generation.
pub struct Pcg32 {
    state: u64,
    inc: u64,
}

impl View for Pcg32 {
    /// `(state, increment)`.
    type V = (u64, u64);

    closed spec fn view(&self) -> (u64, u64) {
        (self.state, self.inc)
    }
}

impl Pcg32 {
    /// A generator seeded with `seed` on the stream selected by `seq`.
    pub fn new(seed: u64, seq: u64) -> (rng: Self)
        ensures
            rng@ == (pcg_seeded_state(seed, seq), pcg_increment(seq)),
    {
        let mut rng = Pcg32 { state: 0, inc: (seq << 1) | 1 };
        rng.next_u32();
        rng.state = rng.state.wrapping_add(seed);
        rng.next_u32();
        rng
    }

    /// The next 32-bit output; the state advances by one step.
    pub fn next_u32(&mut self) -> (r: u32)
        ensures
            r == pcg_output(old(self)@.0),
            final(self)@ == (pcg_step(old(self)@.0, old(self)@.1), old(self)@.1),
    {
        let old = self.state;
        self.state = old.wrapping_mul(6_364_136_223_846_793_005).wrapping_add(self.inc);
        let xorshifted = (((old >> 18) ^ old) >> 27) as u32;
        let rot = (old >> 59) as u32;
        let sh = (32u32.wrapping_sub(rot)) & 31;
        assert(((old >> 59u64) as u32) < 32) by (bit_vector);
        assert(sh < 32) by (bit_vector)
            requires
                sh == (32u32.wrapping_sub(rot)) & 31u32,
        ;
        (xorshifted >> rot) | (xorshifted << sh)
    }

    /// Draws an integer in `lo..=hi_inclusive`; `lo` when the range is empty.
    pub fn range_i32(&mut self, lo: i32, hi_inclusive: i32) -> (r: i32)
        requires
            i32::MIN <= hi_inclusive - lo,
            hi_inclusive - lo + 1 <= i32::MAX,
        ensures
            r == lo + pcg_output(old(self)@.0) as int % range_span(lo as int, hi_inclusive as int),
            final(self)@ == (pcg_step(old(self)@.0, old(self)@.1), old(self)@.1),
            lo <= r,
            hi_inclusive >= lo ==> r <= hi_inclusive,
    {
        let d = hi_inclusive - lo + 1;
        let span = (if d >= 1 { d } else { 1 }) as u32;
        let x = self.next_u32();
        lo + (x % span) as i32
    }

    /// Whether the next draw falls below `threshold`, that is, happens with
    /// probability `threshold / 2^32`; the state advances by one step.
    pub fn chance(&mut self, threshold: u32) -> (hit: bool)
        ensures
            hit == (pcg_output(old(self)@.0) < threshold),
            final(self)@ == (pcg_step(old(self)@.0, old(self)@.1), old(self)@.1),
    {
        self.next_u32() < threshold
    }
}

/// `0, 1, ..., 255`.
pub open spec fn identity_table() -> Seq<u8> {
    Seq::new(256, |i: int| i as u8)
}

/// Fisher-Yates on `p` from index `i` down to 1, drawing each swap partner
/// `j <= i` from the generator state `state`.
pub open spec fn shuffled(p: Seq<u8>, state: u64, inc: u64, i: int) -> Seq<u8>
    decreases i,
{
    if i < 1 {
        p
    } else {
        let j = pcg_output(state) as int % (i + 1);
        shuffled(p.update(i, p[j]).update(j, p[i]), pcg_step(state, inc), inc, i - 1)
    }
}

/// The 256-entry permutation drawn for `seed`.
pub open spec fn permutation_for(seed: u32) -> Seq<u8> {
    shuffled(
        identity_table(),
        pcg_seeded_state(seed as u64, PERLIN_STREAM),
        pcg_increment(PERLIN_STREAM),
        255,
    )
}

/// The doubled permutation table of `seed`: entry `i` is entry `i % 256` of
/// the permutation.
pub open spec fn perm_table(seed: u32) -> Seq<u8> {
    Seq::new(512, |i: int| permutation_for(seed)[i % 256])
}

pub open spec fn all_distinct(p: Seq<u8>) -> bool {
    forall|a: int, b: int| 0 <= a < b < p.len() ==> p[a] != p[b]
}

/// Classic Perlin noise lattice: a seeded permutation of `0..=255`, stored
/// twice so that hashing needs no wrap-around.
pub struct Perlin {
    perm: [u8; 512],
}

impl View for Perlin {
    type V = Seq<u8>;

    closed spec fn view(&self) -> Seq<u8> {
        self.perm@
    }
}

impl Perlin {
    /// The lattice of `seed`: a Fisher-Yates shuffle of `0..=255` driven by
    /// PCG32 on a fixed stream, repeated twice.
    pub fn new(seed: u32) -> (perlin: Self)
        ensures
            perlin@ == perm_table(seed),
            perlin@.len() == 512,
    {
        let mut p = [0u8; 256];
        let mut k: usize = 0;
        while k < 256
            invariant
                k <= 256,
                p@.len() == 256,
                forall|i: int| 0 <= i < k ==> p@[i] == i as u8,
            decreases 256 - k,
        {
            p[k] = k as u8;
            k += 1;
        }
        assert(p@ =~= identity_table());
        let mut rng = Pcg32::new(seed as u64, 0xda3e_39cb_94b9_5bdbu64);
        let mut i: usize = 255;
        while i >= 1
            invariant
                i <= 255,
                p@.len() == 256,
                rng@.1 == pcg_increment(PERLIN_STREAM),
                shuffled(p@, rng@.0, rng@.1, i as int) == permutation_for(seed),
            decreases i,
        {
            let r = rng.next_u32();
            let j = (r as usize) % (i + 1);
            let pi = p[i];
            let pj = p[j];
            p[i] = pj;
            p[j] = pi;
            i -= 1;
        }
        let mut perm = [0u8; 512];
        let mut k: usize = 0;
        while k < 512
            invariant
                k <= 512,
                perm@.len() == 512,
                p@.len() == 256,
                p@ == permutation_for(seed),
                forall|i: int| 0 <= i < k ==> perm@[i] == p@[i % 256],
            decreases 512 - k,
        {
            assert(k & 255 == k % 256) by (bit_vector);
            perm[k] = p[k & 255];
            k += 1;
        }
        let perlin = Perlin { perm };
        assert(perlin@ =~= perm_table(seed));
        perlin
    }

    /// The permutation hashes of the four corners of the unit square at
    /// lattice cell `(xi, yi)`: `(aa, ab, ba, bb)`, where `a`/`b` pick column
    /// `xi`/`xi + 1` and the second letter row `yi`/`yi + 1`.
    pub fn corner_hashes2(&self, xi: usize, yi: usize) -> (h: (u8, u8, u8, u8))
        requires
            self@.len() == 512,
            xi < 256,
            yi < 256,
        ensures
            h.0 == self@[self@[xi as int] + yi],
            h.1 == self@[self@[xi as int] + yi + 1],
            h.2 == self@[self@[xi + 1] + yi],
            h.3 == self@[self@[xi + 1] + yi + 1],
    {
        let p = &self.perm;
        let aa = p[p[xi] as usize + yi];
        let ab = p[p[xi] as usize + yi + 1];
        let ba = p[p[xi + 1] as usize + yi];
        let bb = p[p[xi + 1] as usize + yi + 1];
        (aa, ab, ba, bb)
    }

    /// The permutation hashes of the eight corners of the unit cube at lattice
    /// cell `(xi, yi, zi)`, in the order `aa, ba, ab, bb` for layer `zi`
    /// followed by the same four for layer `zi + 1`.
    pub fn corner_hashes3(&self, xi: usize, yi: usize, zi: usize) -> (h: [u8; 8])
        requires
            self@.len() == 512,
            xi < 256,
            yi < 256,
            zi < 256,
        ensures
            ({
                let p = self@;
                let a = p[xi as int] + yi;
                let aa = p[a] + zi;
                let ab = p[a + 1] + zi;
                let b = p[xi + 1] + yi;
                let ba = p[b] + zi;
                let bb = p[b + 1] + zi;
                h@ == seq![p[aa], p[ba], p[ab], p[bb], p[aa + 1], p[ba + 1], p[ab + 1], p[bb + 1]]
            }),
    {
        let p = &self.perm;
        let a = p[xi] as usize + yi;
        let aa = p[a] as usize + zi;
        let ab = p[a + 1] as usize + zi;
        let b = p[xi + 1] as usize + yi;
        let ba = p[b] as usize + zi;
        let bb = p[b + 1] as usize + zi;
        let h = [p[aa], p[ba], p[ab], p[bb], p[aa + 1], p[ba + 1], p[ab + 1], p[bb + 1]];
        assert(h@ =~= seq![p@[aa as int], p@[ba as int], p@[ab as int], p@[bb as int], p@[aa + 1], p@[ba + 1], p@[ab + 1], p@[bb + 1]]);
        h
    }
}

proof fn lemma_shuffle_keeps_distinct(p: Seq<u8>, state: u64, inc: u64, i: int)
    requires
        p.len() == 256,
        i <= 255,
        all_distinct(p),
    ensures
        shuffled(p, state, inc, i).len() == 256,
        all_distinct(shuffled(p, state, inc, i)),
    decreases i,
{
    if i >= 1 {
        let j = pcg_output(state) as int % (i + 1);
        let q = p.update(i, p[j]).update(j, p[i]);
        assert forall|a: int, b: int| 0 <= a < b < q.len() implies q[a] != q[b] by {
            let sa = if a == i { j } else if a == j { i } else { a };
            let sb = if b == i { j } else if b == j { i } else { b };
            assert(q[a] == p[sa]);
            assert(q[b] == p[sb]);
            if sa < sb {
            } else {
                assert(sb < sa);
            }
        }
        lemma_shuffle_keeps_distinct(q, pcg_step(state, inc), inc, i - 1);
    }
}

/// Every seed's permutation holds 256 distinct bytes, that is, each byte
/// exactly once; the doubled table repeats it with period 256.
pub proof fn lemma_perm_table_is_permutation(seed: u32)
    ensures
        permutation_for(seed).len() == 256,
        all_distinct(permutation_for(seed)),
        perm_table(seed).len() == 512,
        forall|i: int| 0 <= i < 256 ==> #[trigger] perm_table(seed)[i + 256] == perm_table(seed)[i],
{
    assert forall|a: int, b: int| 0 <= a < b < identity_table().len() implies identity_table()[a]
        != identity_table()[b] by {}
    lemma_shuffle_keeps_distinct(
        identity_table(),
        pcg_seeded_state(seed as u64, PERLIN_STREAM),
        pcg_increment(PERLIN_STREAM),
        255,
    );
}

} // verus!
