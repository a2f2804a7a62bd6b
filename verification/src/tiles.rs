use vstd::prelude::*;

verus! {

/// Side of the square work units a frame is split into.
pub const TILE: u32 = 16;

/// The pixels `x0 <= x < x1`, `y0 <= y < y1` of a frame.
#[derive(Debug, Clone, Copy, PartialEq, Eq)]
pub struct Tile {
    pub x0: u32,
    pub y0: u32,
    pub x1: u32,
    pub y1: u32,
}

/// How many tiles cover `n` pixels along one axis.
pub open spec fn tiles_along(n: int) -> int {
    (n + 15) / 16
}

/// The tile in column `i`, row `j` of the tiling of a `width x height`
/// frame: 16 x 16, cut short at the right and bottom edges.
pub open spec fn tile_at(width: u32, height: u32, i: int, j: int) -> Tile {
    Tile {
        x0: (16 * i) as u32,
        y0: (16 * j) as u32,
        x1: if 16 * i + 16 <= width { (16 * i + 16) as u32 } else { width },
        y1: if 16 * j + 16 <= height { (16 * j + 16) as u32 } else { height },
    }
}

pub open spec fn tile_contains(t: Tile, x: int, y: int) -> bool {
    t.x0 <= x < t.x1 && t.y0 <= y < t.y1
}

/// Splits a `width x height` frame into tiles of at most 16 x 16 pixels,
/// row by row from the top-left corner.
pub fn build_tiles(width: u32, height: u32) -> (tiles: Vec<Tile>)
    requires
        width <= u32::MAX - 15,
        height <= u32::MAX - 15,
    ensures
        tiles@.len() == tiles_along(width as int) * tiles_along(height as int),
        forall|i: int, j: int|
            0 <= i < tiles_along(width as int) && 0 <= j < tiles_along(height as int)
                ==> #[trigger] tiles@[j * tiles_along(width as int) + i] == tile_at(width, height, i, j),
{
    let ghost cols = tiles_along(width as int);
    let ghost rows = tiles_along(height as int);
    let mut tiles: Vec<Tile> = Vec::new();
    let mut y: u32 = 0;
    let ghost mut j: int = 0;
    while y < height
        invariant
            width <= u32::MAX - 15,
            height <= u32::MAX - 15,
            cols == tiles_along(width as int),
            rows == tiles_along(height as int),
            y == 16 * j,
            0 <= j <= rows,
            y < height ==> j < rows,
            y >= height ==> j == rows,
            tiles@.len() == j * cols,
            forall|i: int, jj: int|
                0 <= i < cols && 0 <= jj < j ==> #[trigger] tiles@[jj * cols + i] == tile_at(
                    width,
                    height,
                    i,
                    jj,
                ),
        decreases rows - j,
    {
        let mut x: u32 = 0;
        let y1 = if y + TILE < height { y + TILE } else { height };
        let ghost mut i: int = 0;
        while x < width
            invariant
                width <= u32::MAX - 15,
                height <= u32::MAX - 15,
                cols == tiles_along(width as int),
                y == 16 * j,
                0 <= j < rows,
                y < height,
                y1 == (if 16 * j + 16 <= height { (16 * j + 16) as u32 } else { height }),
                x == 16 * i,
                0 <= i <= cols,
                x < width ==> i < cols,
                x >= width ==> i == cols,
                tiles@.len() == j * cols + i,
                forall|ii: int, jj: int|
                    0 <= ii < cols && 0 <= jj < j ==> #[trigger] tiles@[jj * cols + ii] == tile_at(
                        width,
                        height,
                        ii,
                        jj,
                    ),
                forall|ii: int| 0 <= ii < i ==> #[trigger] tiles@[j * cols + ii] == tile_at(width, height, ii, j),
            decreases cols - i,
        {
            let x1 = if x + TILE < width { x + TILE } else { width };
            let ghost before = tiles@;
            tiles.push(Tile { x0: x, y0: y, x1, y1 });
            proof {
                assert forall|ii: int, jj: int|
                    0 <= ii < cols && 0 <= jj < j implies #[trigger] tiles@[jj * cols + ii] == tile_at(
                    width,
                    height,
                    ii,
                    jj,
                ) by {
                    assert(jj * cols + ii < j * cols) by (nonlinear_arith)
                        requires
                            0 <= ii < cols,
                            0 <= jj < j,
                    ;
                    assert(tiles@[jj * cols + ii] == before[jj * cols + ii]);
                }
            }
            x += TILE;
            proof {
                i = i + 1;
            }
        }
        assert((j + 1) * cols == j * cols + cols) by (nonlinear_arith);
        y += TILE;
        proof {
            j = j + 1;
        }
    }
    tiles
}

/// Every pixel of the frame lies in exactly one tile of the tiling: the one
/// in column `x / 16`, row `y / 16`.
pub proof fn lemma_tiles_partition_frame(width: u32, height: u32, x: int, y: int, i: int, j: int)
    requires
        0 <= x < width,
        0 <= y < height,
        0 <= i < tiles_along(width as int),
        0 <= j < tiles_along(height as int),
    ensures
        tile_contains(tile_at(width, height, i, j), x, y) <==> (i == x / 16 && j == y / 16),
{
}

} // verus!
