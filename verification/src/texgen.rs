use vstd::prelude::*;

verus! {

/// Side of the square textures generated in code.
pub const SIZE: u32 = 16;

/// The texture's bytes after writing the pixel `(x, y)` as `rgba`.
pub open spec fn with_texel(buf: Seq<u8>, x: int, y: int, rgba: [u8; 4]) -> Seq<u8> {
    let i = (y * 16 + x) * 4;
    buf.update(i, rgba[0]).update(i + 1, rgba[1]).update(i + 2, rgba[2]).update(i + 3, rgba[3])
}

/// Writes the RGBA pixel `(x, y)` of a 16x16 texture.
pub fn put(buf: &mut Vec<u8>, x: u32, y: u32, rgba: [u8; 4])
    requires
        x < SIZE,
        y < SIZE,
        old(buf)@.len() == SIZE * SIZE * 4,
    ensures
        final(buf)@ == with_texel(old(buf)@, x as int, y as int, rgba),
{
    let i = ((y * SIZE + x) * 4) as usize;
    buf.set(i, rgba[0]);
    buf.set(i + 1, rgba[1]);
    buf.set(i + 2, rgba[2]);
    buf.set(i + 3, rgba[3]);
}

/// A fully transparent black 16x16 RGBA texture.
pub fn blank() -> (buf: Vec<u8>)
    ensures
        buf@.len() == SIZE * SIZE * 4,
        forall|i: int| 0 <= i < buf@.len() ==> buf@[i] == 0,
{
    vec![0u8; (SIZE * SIZE * 4) as usize]
}

/// The colour of texel `(x, y)` of the texture shown for an unknown name:
/// a magenta and black checkerboard.
pub open spec fn checkerboard_texel(x: int, y: int) -> [u8; 4] {
    if (x + y) % 2 == 0 { [255u8, 0u8, 255u8, 255u8] } else { [0u8, 0u8, 0u8, 255u8] }
}

/// The checkerboard rows `0..y` of the placeholder texture, and the texels
/// `0..x` of row `y`.
pub open spec fn checkerboard_filled(buf: Seq<u8>, y: int, x: int) -> bool {
    forall|ty: int, tx: int, c: int|
        0 <= ty < 16 && 0 <= tx < 16 && 0 <= c < 4 && (ty < y || (ty == y && tx < x)) ==> #[trigger] buf[(ty * 16
            + tx) * 4 + c] == checkerboard_texel(tx, ty)[c]
}

/// The magenta and black checkerboard shown for a texture name that has no
/// generator.
pub fn missing_texture() -> (buf: Vec<u8>)
    ensures
        buf@.len() == SIZE * SIZE * 4,
        checkerboard_filled(buf@, 16, 0),
{
    let mut buf = blank();
    let mut y: u32 = 0;
    while y < SIZE
        invariant
            y <= SIZE,
            buf@.len() == SIZE * SIZE * 4,
            checkerboard_filled(buf@, y as int, 0),
        decreases SIZE - y,
    {
        let mut x: u32 = 0;
        while x < SIZE
            invariant
                y < SIZE,
                x <= SIZE,
                buf@.len() == SIZE * SIZE * 4,
                checkerboard_filled(buf@, y as int, x as int),
            decreases SIZE - x,
        {
            let c: [u8; 4] = if (x + y) % 2 == 0 { [255, 0, 255, 255] } else { [0, 0, 0, 255] };
            let ghost before = buf@;
            put(&mut buf, x, y, c);
            assert forall|ty: int, tx: int, k: int|
                0 <= ty < 16 && 0 <= tx < 16 && 0 <= k < 4 && (ty < y || (ty == y && tx < x + 1)) implies #[trigger] buf@[(
            ty * 16 + tx) * 4 + k] == checkerboard_texel(tx, ty)[k] by {
                let i = (ty * 16 + tx) * 4 + k;
                let j = (y * 16 + x) * 4;
                if ty == y && tx == x {
                    assert(i == j + k);
                } else {
                    assert(i < j || i >= j + 4) by (nonlinear_arith)
                        requires
                            i == (ty * 16 + tx) * 4 + k,
                            j == (y * 16 + x) * 4,
                            0 <= k < 4,
                            0 <= tx < 16,
                            0 <= x < 16,
                            ty != y || tx != x,
                    ;
                    assert(buf@[i] == before[i]);
                }
            }
            x += 1;
        }
        assert(checkerboard_filled(buf@, y + 1, 0));
        y += 1;
    }
    buf
}

} // verus!
