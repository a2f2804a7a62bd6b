use vstd::prelude::*;

verus! {

/// The texel a texture of `width x height` texels samples at `(x, y)`:
/// coordinates wrap around both edges, rows are stored one after another.
pub open spec fn wrapped_texel(width: int, height: int, x: int, y: int) -> int {
    (y % height) * width + (x % width)
}

/// The storage index of texel `(x, y)` of a tiling texture of
/// `width x height` texels, wrapping both coordinates.
pub fn texel_index(width: u32, height: u32, x: i32, y: i32) -> (i: usize)
    requires
        0 < width <= i32::MAX,
        0 < height <= i32::MAX,
        width * height <= u32::MAX,
    ensures
        i == wrapped_texel(width as int, height as int, x as int, y as int),
        i < width * height,
{
    let w = width as i64;
    let h = height as i64;
    // Shift by a multiple of the size that makes the coordinate non-negative,
    // which leaves its remainder unchanged.
    let kx = 2147483648i64 / w + 1;
    let ky = 2147483648i64 / h + 1;
    assert(kx * w > 2147483648 && kx * w <= 2147483648 + w) by (nonlinear_arith)
        requires
            kx == 2147483648i64 / w + 1,
            w > 0,
    ;
    assert(ky * h > 2147483648 && ky * h <= 2147483648 + h) by (nonlinear_arith)
        requires
            ky == 2147483648i64 / h + 1,
            h > 0,
    ;
    let xu = (x as i64 + kx * w) % w;
    let yu = (y as i64 + ky * h) % h;
    proof {
        vstd::arithmetic::div_mod::lemma_mod_multiples_vanish(kx as int, x as int, w as int);
        vstd::arithmetic::div_mod::lemma_mod_multiples_vanish(ky as int, y as int, h as int);
        assert(w * kx == kx * w && h * ky == ky * h) by (nonlinear_arith);
        assert(0 <= xu < w && 0 <= yu < h);
        assert(yu * width + xu < width * height) by (nonlinear_arith)
            requires
                0 <= yu < height,
                0 <= xu < width,
        ;
    }
    (yu as u32 * width + xu as u32) as usize
}

} // verus!
