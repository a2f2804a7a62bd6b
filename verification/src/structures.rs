use vstd::prelude::*;

use crate::block;
use crate::heightmap::Heightmap;
use crate::noise::{advanced, drawn_chance, drawn_in_range, pcg_increment, pcg_seeded_state, Pcg32, CHANCE_30, CHANCE_35, CHANCE_40};
use crate::world::{block_at, grid_domain, max_int, min_int, painted, placed, shell_painted, Grid, Voxel, World};

verus! {

// ---------- helpers shared by the builders' specifications ----------

/// `v` lies between `a` and `b`, inclusive, in either order.
pub open spec fn in_span(v: int, a: int, b: int) -> bool {
    min_int(a, b) <= v <= max_int(a, b)
}

/// `n / 2` rounded toward zero, as integer division does.
pub open spec fn half_toward_zero(n: int) -> int {
    if n >= 0 {
        n / 2
    } else {
        -((-n) / 2)
    }
}

/// The height a structure centred on column `(cx, cz)` stands on: the
/// terrain surface there, or half the grid height off the island.
pub open spec fn base_height(hm: Heightmap, ny: int, cx: int, cz: int) -> int {
    match hm.surface(cx, cz) {
        Some(t) => t as int,
        None => half_toward_zero(ny),
    }
}

/// `i32::MIN + lo <= v <= i32::MAX - hi`: offsets up to `lo` below and `hi`
/// above `v` do not overflow.
pub open spec fn has_room(v: int, lo: int, hi: int) -> bool {
    i32::MIN + lo <= v <= i32::MAX - hi
}

pub open spec fn vox(x: int, y: int, z: int) -> Voxel {
    (x, y, z)
}

/// Four pillars of `id` from `y0` to `y1` at the corners `(cx +- d, cz +- d)`,
/// placed in the order `(-d, -d)`, `(d, -d)`, `(-d, d)`, `(d, d)`.
pub open spec fn corner_pillars(g: Grid, cx: int, cz: int, dx: int, dz: int, y0: int, y1: int, id: u8) -> Grid {
    let g1 = painted(g, vox(cx - dx, y0, cz - dz), vox(cx - dx, y1, cz - dz), id);
    let g2 = painted(g1, vox(cx + dx, y0, cz - dz), vox(cx + dx, y1, cz - dz), id);
    let g3 = painted(g2, vox(cx - dx, y0, cz + dz), vox(cx - dx, y1, cz + dz), id);
    painted(g3, vox(cx + dx, y0, cz + dz), vox(cx + dx, y1, cz + dz), id)
}

fn base_y(world: &World, hm: &Heightmap, cx: i32, cz: i32) -> (b: i32)
    requires
        world.wf(),
        hm.wf(),
    ensures
        b == base_height(*hm, world.ny as int, cx as int, cz as int),
{
    match hm.top_at(cx, cz) {
        Some(t) => t,
        None => world.ny / 2,
    }
}

// ---------- generic helpers ----------

/// The column of a flattened area at height `y`: the top block at
/// `target_y`, up to four layers of stone bricks under it, and air up to
/// twelve blocks above it (capped at the grid's top).
pub open spec fn flattened_column(v: u8, y: int, target_y: int, ny: int, top: u8) -> u8 {
    if y == target_y {
        top
    } else if in_span(y, max_int(target_y - 4, 0), target_y - 1) {
        block::STONE_BRICKS
    } else if in_span(y, target_y + 1, min_int(target_y + 12, ny - 1)) {
        block::AIR
    } else {
        v
    }
}

/// `g` with every column `x0 <= x <= x1`, `z0 <= z <= z1` flattened to
/// `target_y`.
pub open spec fn flattened(
    g: Grid,
    ny: int,
    x0: int,
    z0: int,
    x1: int,
    z1: int,
    target_y: int,
    top: u8,
) -> Grid {
    Map::new(
        |p: Voxel| g.dom().contains(p),
        |p: Voxel|
            if x0 <= p.0 <= x1 && z0 <= p.2 <= z1 {
                flattened_column(g[p], p.1, target_y, ny, top)
            } else {
                g[p]
            },
    )
}

/// Levels the rectangle of columns `x0..=x1`, `z0..=z1` at `target_y`:
/// clears whatever sticks out above and fills what is missing below, so that
/// a structure sits evenly whatever the terrain beneath.
pub fn flatten_area(
    world: &mut World,
    x0: i32,
    z0: i32,
    x1: i32,
    z1: i32,
    target_y: i32,
    top_block: u8,
)
    requires
        old(world).wf(),
        x0 <= x1 && z0 <= z1 ==> old(world).ny > i32::MIN && has_room(target_y as int, 4, 12),
    ensures
        final(world).wf(),
        final(world).same_dims(old(world)),
        final(world)@ == flattened(
            old(world)@,
            old(world).ny as int,
            x0 as int,
            z0 as int,
            x1 as int,
            z1 as int,
            target_y as int,
            top_block,
        ),
{
    let ghost g0 = world@;
    let ghost ny = world.ny as int;
    let ghost dims = (world.nx, world.ny, world.nz);
    let mut z: i64 = z0 as i64;
    assert(g0 =~= flattened(g0, ny, x0 as int, z0 as int, x1 as int, z0 - 1, target_y as int, top_block));
    while z <= z1 as i64
        invariant
            world.wf(),
            (world.nx, world.ny, world.nz) == dims,
            ny == world.ny,
            x0 <= x1 && z0 <= z1 ==> world.ny > i32::MIN && has_room(target_y as int, 4, 12),
            g0.dom() == world@.dom(),
            z0 <= z <= z1 + 1 || z == z0,
            world@ == flattened(g0, ny, x0 as int, z0 as int, x1 as int, z - 1, target_y as int, top_block),
        decreases z1 - z + 1,
    {
        let ghost row_start = world@;
        let mut x: i64 = x0 as i64;
        assert(row_start =~= flattened(row_start, ny, x0 as int, z as int, x0 - 1, z as int, target_y as int, top_block));
        while x <= x1 as i64
            invariant
                world.wf(),
                (world.nx, world.ny, world.nz) == dims,
                ny == world.ny,
                z0 <= z <= z1,
                x0 <= x1 && z0 <= z1 ==> world.ny > i32::MIN && has_room(target_y as int, 4, 12),
                row_start.dom() == world@.dom(),
                i32::MIN <= z <= i32::MAX,
                x0 <= x <= x1 + 1 || x == x0,
                world@ == flattened(row_start, ny, x0 as int, z as int, x - 1, z as int, target_y as int, top_block),
            decreases x1 - x + 1,
        {
            let xi = x as i32;
            let zi = z as i32;
            let ghost before = world@;
            world.fill_box((xi, target_y + 1, zi), (xi, (target_y + 12).min(world.ny - 1), zi), block::AIR);
            world.fill_box((xi, (target_y - 4).max(0), zi), (xi, target_y - 1, zi), block::STONE_BRICKS);
            world.set(xi, target_y, zi, top_block);
            assert(world@ =~= flattened(row_start, ny, x0 as int, z as int, x as int, z as int, target_y as int, top_block));
            x = x + 1;
        }
        assert(world@ =~= flattened(g0, ny, x0 as int, z0 as int, x1 as int, z as int, target_y as int, top_block));
        z = z + 1;
    }
}

/// A vertical pillar of `id` in column `(x, z)` from `y0` to `y1`.
pub fn place_pillar(world: &mut World, x: i32, z: i32, y0: i32, y1: i32, id: u8)
    requires
        old(world).wf(),
    ensures
        final(world).wf(),
        final(world).same_dims(old(world)),
        final(world)@ == painted(old(world)@, vox(x as int, y0 as int, z as int), vox(x as int, y1 as int, z as int), id),
{
    world.fill_box((x, y0, z), (x, y1, z), id);
}

// ---------- structures ----------

/// The monolith statue centred on `(cx, cz)`.
pub open spec fn statue_built(g: Grid, ny: int, hm: Heightmap, cx: int, cz: int) -> Grid {
    let b = base_height(hm, ny, cx, cz);
    let g1 = flattened(g, ny, cx - 2, cz - 2, cx + 2, cz + 2, b, block::GRASS);
    let g2 = painted(g1, vox(cx - 1, b + 1, cz - 1), vox(cx + 1, b + 1, cz + 1), block::STONE_BRICKS);
    let g3 = painted(g2, vox(cx, b + 2, cz), vox(cx, b + 7, cz), block::IRON_BLOCK);
    painted(g3, vox(cx - 1, b + 3, cz), vox(cx + 1, b + 3, cz), block::IRON_BLOCK)
}

/// A polished iron monolith on a stone plinth, on a 5x5 levelled patch.
pub fn build_statue(world: &mut World, hm: &Heightmap, cx: i32, cz: i32)
    requires
        old(world).wf(),
        old(world).ny > i32::MIN,
        hm.wf(),
        has_room(base_height(*hm, old(world).ny as int, cx as int, cz as int), 4, 12),
        has_room(cx as int, 2, 2),
        has_room(cz as int, 2, 2),
    ensures
        final(world).wf(),
        final(world).same_dims(old(world)),
        final(world)@ == statue_built(old(world)@, old(world).ny as int, *hm, cx as int, cz as int),
{
    let base_y = base_y(world, hm, cx, cz);
    flatten_area(world, cx - 2, cz - 2, cx + 2, cz + 2, base_y, block::GRASS);
    world.fill_box((cx - 1, base_y + 1, cz - 1), (cx + 1, base_y + 1, cz + 1), block::STONE_BRICKS);
    world.fill_box((cx, base_y + 2, cz), (cx, base_y + 7, cz), block::IRON_BLOCK);
    world.fill_box((cx - 1, base_y + 3, cz), (cx + 1, base_y + 3, cz), block::IRON_BLOCK);
}

/// The lighthouse centred on `(cx, cz)`.
pub open spec fn lighthouse_built(g: Grid, ny: int, hm: Heightmap, cx: int, cz: int) -> Grid {
    let b = base_height(hm, ny, cx, cz);
    let g1 = flattened(g, ny, cx - 4, cz - 4, cx + 4, cz + 4, b, block::GRASS);
    let g2 = painted(g1, vox(cx - 3, b + 1, cz - 3), vox(cx + 3, b + 4, cz + 3), block::STONE_BRICKS);
    let g3 = painted(g2, vox(cx - 3, b + 5, cz - 3), vox(cx + 3, b + 5, cz + 3), block::IRON_BLOCK);
    let g4 = painted(g3, vox(cx - 2, b + 6, cz - 2), vox(cx + 2, b + 9, cz + 2), block::STONE_BRICKS);
    let g5 = painted(g4, vox(cx - 2, b + 10, cz - 2), vox(cx + 2, b + 10, cz + 2), block::IRON_BLOCK);
    let g6 = painted(g5, vox(cx - 1, b + 11, cz - 1), vox(cx + 1, b + 13, cz + 1), block::STONE_BRICKS);
    let g7 = shell_painted(g6, vox(cx - 1, b + 14, cz - 1), vox(cx + 1, b + 16, cz + 1), block::GLASS);
    let g8 = placed(g7, vox(cx, b + 15, cz), block::GLOWSTONE);
    let g9 = painted(g8, vox(cx - 1, b + 17, cz - 1), vox(cx + 1, b + 17, cz + 1), block::IRON_BLOCK);
    placed(g9, vox(cx, b + 18, cz), block::IRON_BLOCK)
}

/// A stepped stone-brick tower with iron bands, a glass lantern room lit by
/// glowstone, and an iron cap, on a 9x9 levelled patch.
pub fn build_lighthouse(world: &mut World, hm: &Heightmap, cx: i32, cz: i32)
    requires
        old(world).wf(),
        old(world).ny > i32::MIN,
        hm.wf(),
        has_room(base_height(*hm, old(world).ny as int, cx as int, cz as int), 4, 18),
        has_room(cx as int, 4, 4),
        has_room(cz as int, 4, 4),
    ensures
        final(world).wf(),
        final(world).same_dims(old(world)),
        final(world)@ == lighthouse_built(old(world)@, old(world).ny as int, *hm, cx as int, cz as int),
{
    let base_y = base_y(world, hm, cx, cz);
    flatten_area(world, cx - 4, cz - 4, cx + 4, cz + 4, base_y, block::GRASS);

    let mut y: i32 = base_y;
    world.fill_box((cx - 3, y + 1, cz - 3), (cx + 3, y + 4, cz + 3), block::STONE_BRICKS);
    y += 4;
    world.fill_box((cx - 3, y + 1, cz - 3), (cx + 3, y + 1, cz + 3), block::IRON_BLOCK);
    y += 1;
    world.fill_box((cx - 2, y + 1, cz - 2), (cx + 2, y + 4, cz + 2), block::STONE_BRICKS);
    y += 4;
    world.fill_box((cx - 2, y + 1, cz - 2), (cx + 2, y + 1, cz + 2), block::IRON_BLOCK);
    y += 1;
    world.fill_box((cx - 1, y + 1, cz - 1), (cx + 1, y + 3, cz + 1), block::STONE_BRICKS);
    y += 3;

    // Lantern room: hollow glass with glowstone inside, seen through the glass.
    world.hollow_box((cx - 1, y + 1, cz - 1), (cx + 1, y + 3, cz + 1), block::GLASS);
    world.set(cx, y + 2, cz, block::GLOWSTONE);
    y += 3;

    world.fill_box((cx - 1, y + 1, cz - 1), (cx + 1, y + 1, cz + 1), block::IRON_BLOCK);
    world.set(cx, y + 2, cz, block::IRON_BLOCK);
}

/// The two glass panes of a window column at `(x, z)`, at `y0 + 1` and `y0 + 2`.
pub open spec fn window_pair(g: Grid, x: int, z: int, y0: int) -> Grid {
    placed(placed(g, vox(x, y0 + 1, z), block::GLASS), vox(x, y0 + 2, z), block::GLASS)
}

/// The windows of the cottage for one offset `off` along three of its walls.
pub open spec fn cottage_windows(g: Grid, cx: int, cz: int, y0: int, r: int, off: int) -> Grid {
    let g1 = window_pair(g, cx + off, cz - r, y0);
    let g2 = window_pair(g1, cx - r, cz + off, y0);
    window_pair(g2, cx + r, cz + off, y0)
}

/// The cottage centred on `(cx, cz)`.
pub open spec fn house_built(g: Grid, ny: int, hm: Heightmap, cx: int, cz: int) -> Grid {
    let b = base_height(hm, ny, cx, cz);
    let y0 = b + 1;
    let g1 = flattened(g, ny, cx - 5, cz - 5, cx + 5, cz + 5, b, block::GRASS);
    let g2 = shell_painted(g1, vox(cx - 4, y0, cz - 4), vox(cx + 4, y0 + 5, cz + 4), block::OAK_PLANKS);
    let g3 = corner_pillars(g2, cx, cz, 4, 4, y0, y0 + 5, block::OAK_LOG);
    let g4 = cottage_windows(cottage_windows(g3, cx, cz, y0, 4, -2), cx, cz, y0, 4, 2);
    let g5 = painted(g4, vox(cx, y0, cz + 4), vox(cx, y0 + 1, cz + 4), block::AIR);
    let g6 = placed(placed(g5, vox(cx, y0 + 2, cz), block::GLOWSTONE), vox(cx - 1, y0 + 2, cz), block::GLOWSTONE);
    let ry = y0 + 6;
    let g7 = painted(g6, vox(cx - 4, ry, cz - 4), vox(cx + 4, ry, cz + 4), block::OAK_PLANKS);
    let g8 = painted(g7, vox(cx - 3, ry + 1, cz - 3), vox(cx + 3, ry + 1, cz + 3), block::OAK_PLANKS);
    let g9 = painted(g8, vox(cx - 2, ry + 2, cz - 2), vox(cx + 2, ry + 2, cz + 2), block::OAK_PLANKS);
    let g10 = painted(g9, vox(cx - 1, ry + 3, cz - 1), vox(cx + 1, ry + 3, cz + 1), block::OAK_PLANKS);
    placed(g10, vox(cx, ry + 4, cz), block::OAK_PLANKS)
}

/// A 9x9 plank cottage with log corners, two windows on three sides, a
/// double-height door at the front (+z), two interior lights and a stepped
/// roof, on an 11x11 levelled patch.
pub fn build_house(world: &mut World, hm: &Heightmap, cx: i32, cz: i32)
    requires
        old(world).wf(),
        old(world).ny > i32::MIN,
        hm.wf(),
        has_room(base_height(*hm, old(world).ny as int, cx as int, cz as int), 4, 12),
        has_room(cx as int, 5, 5),
        has_room(cz as int, 5, 5),
    ensures
        final(world).wf(),
        final(world).same_dims(old(world)),
        final(world)@ == house_built(old(world)@, old(world).ny as int, *hm, cx as int, cz as int),
{
    let base_y = base_y(world, hm, cx, cz);
    flatten_area(world, cx - 5, cz - 5, cx + 5, cz + 5, base_y, block::GRASS);

    let h: i32 = 6;
    let r: i32 = 4;  // half footprint: a 9x9 cottage
    let y0 = base_y + 1;

    world.hollow_box((cx - r, y0, cz - r), (cx + r, y0 + h - 1, cz + r), block::OAK_PLANKS);
    place_pillar(world, cx - r, cz - r, y0, y0 + h - 1, block::OAK_LOG);
    place_pillar(world, cx + r, cz - r, y0, y0 + h - 1, block::OAK_LOG);
    place_pillar(world, cx - r, cz + r, y0, y0 + h - 1, block::OAK_LOG);
    place_pillar(world, cx + r, cz + r, y0, y0 + h - 1, block::OAK_LOG);

    // Two windows per side (but the door side), and a double-height door at
    // the front (+z).
    world.set(cx - 2, y0 + 1, cz - r, block::GLASS);
    world.set(cx - 2, y0 + 2, cz - r, block::GLASS);
    world.set(cx - r, y0 + 1, cz - 2, block::GLASS);
    world.set(cx - r, y0 + 2, cz - 2, block::GLASS);
    world.set(cx + r, y0 + 1, cz - 2, block::GLASS);
    world.set(cx + r, y0 + 2, cz - 2, block::GLASS);
    world.set(cx + 2, y0 + 1, cz - r, block::GLASS);
    world.set(cx + 2, y0 + 2, cz - r, block::GLASS);
    world.set(cx - r, y0 + 1, cz + 2, block::GLASS);
    world.set(cx - r, y0 + 2, cz + 2, block::GLASS);
    world.set(cx + r, y0 + 1, cz + 2, block::GLASS);
    world.set(cx + r, y0 + 2, cz + 2, block::GLASS);
    world.fill_box((cx, y0, cz + r), (cx, y0 + 1, cz + r), block::AIR);  // door
    world.set(cx, y0 + 2, cz, block::GLOWSTONE);  // interior lamp, seen through the windows at night
    world.set(cx - 1, y0 + 2, cz, block::GLOWSTONE);

    let roof_y = y0 + h;
    world.fill_box((cx - r, roof_y, cz - r), (cx + r, roof_y, cz + r), block::OAK_PLANKS);
    world.fill_box((cx - r + 1, roof_y + 1, cz - r + 1), (cx + r - 1, roof_y + 1, cz + r - 1), block::OAK_PLANKS);
    world.fill_box((cx - r + 2, roof_y + 2, cz - r + 2), (cx + r - 2, roof_y + 2, cz + r - 2), block::OAK_PLANKS);
    world.fill_box((cx - r + 3, roof_y + 3, cz - r + 3), (cx + r - 3, roof_y + 3, cz + r - 3), block::OAK_PLANKS);
    world.set(cx, roof_y + 4, cz, block::OAK_PLANKS);
}

/// The village well centred on `(cx, cz)`.
pub open spec fn well_built(g: Grid, ny: int, hm: Heightmap, cx: int, cz: int) -> Grid {
    let b = base_height(hm, ny, cx, cz);
    let g1 = flattened(g, ny, cx - 2, cz - 2, cx + 2, cz + 2, b, block::COBBLESTONE);
    let g2 = shell_painted(g1, vox(cx - 1, b + 1, cz - 1), vox(cx + 1, b + 2, cz + 1), block::COBBLESTONE);
    let g3 = painted(g2, vox(cx - 1, b + 1, cz - 1), vox(cx + 1, b + 1, cz + 1), block::WATER);
    let g4 = corner_pillars(g3, cx, cz, 1, 1, b + 3, b + 5, block::OAK_LOG);
    let g5 = painted(g4, vox(cx - 2, b + 6, cz - 2), vox(cx + 2, b + 6, cz + 2), block::OAK_PLANKS);
    let g6 = painted(g5, vox(cx - 1, b + 7, cz - 1), vox(cx + 1, b + 7, cz + 1), block::OAK_PLANKS);
    placed(g6, vox(cx, b + 8, cz), block::OAK_PLANKS)
}

/// A stone well: a hollow cobblestone ring holding a water surface, four log
/// posts and a small stepped plank roof, on a 5x5 levelled patch.
pub fn build_well(world: &mut World, hm: &Heightmap, cx: i32, cz: i32)
    requires
        old(world).wf(),
        old(world).ny > i32::MIN,
        hm.wf(),
        has_room(base_height(*hm, old(world).ny as int, cx as int, cz as int), 4, 12),
        has_room(cx as int, 2, 2),
        has_room(cz as int, 2, 2),
    ensures
        final(world).wf(),
        final(world).same_dims(old(world)),
        final(world)@ == well_built(old(world)@, old(world).ny as int, *hm, cx as int, cz as int),
{
    let base_y = base_y(world, hm, cx, cz);
    flatten_area(world, cx - 2, cz - 2, cx + 2, cz + 2, base_y, block::COBBLESTONE);
    world.hollow_box((cx - 1, base_y + 1, cz - 1), (cx + 1, base_y + 2, cz + 1), block::COBBLESTONE);
    world.fill_box((cx - 1, base_y + 1, cz - 1), (cx + 1, base_y + 1, cz + 1), block::WATER);

    place_pillar(world, cx - 1, cz - 1, base_y + 3, base_y + 5, block::OAK_LOG);
    place_pillar(world, cx + 1, cz - 1, base_y + 3, base_y + 5, block::OAK_LOG);
    place_pillar(world, cx - 1, cz + 1, base_y + 3, base_y + 5, block::OAK_LOG);
    place_pillar(world, cx + 1, cz + 1, base_y + 3, base_y + 5, block::OAK_LOG);
    world.fill_box((cx - 2, base_y + 6, cz - 2), (cx + 2, base_y + 6, cz + 2), block::OAK_PLANKS);
    world.fill_box((cx - 1, base_y + 7, cz - 1), (cx + 1, base_y + 7, cz + 1), block::OAK_PLANKS);
    world.set(cx, base_y + 8, cz, block::OAK_PLANKS);
}

/// The Nether portal centred on `(cx, cz)`.
pub open spec fn portal_built(g: Grid, ny: int, hm: Heightmap, cx: int, cz: int) -> Grid {
    let b = base_height(hm, ny, cx, cz);
    let g1 = flattened(g, ny, cx - 3, cz - 3, cx + 3, cz + 3, b, block::NETHERRACK);
    let g2 = painted(g1, vox(cx - 2, b + 1, cz), vox(cx + 1, b + 5, cz), block::OBSIDIAN);
    painted(g2, vox(cx - 1, b + 2, cz), vox(cx, b + 4, cz), block::PORTAL)
}

/// A Nether portal: a 4 wide by 5 high obsidian frame whose 2x3 opening is
/// filled with portal blocks, on a 7x7 levelled netherrack patch.
pub fn build_nether_portal(world: &mut World, hm: &Heightmap, cx: i32, cz: i32)
    requires
        old(world).wf(),
        old(world).ny > i32::MIN,
        hm.wf(),
        has_room(base_height(*hm, old(world).ny as int, cx as int, cz as int), 4, 12),
        has_room(cx as int, 3, 3),
        has_room(cz as int, 3, 3),
    ensures
        final(world).wf(),
        final(world).same_dims(old(world)),
        final(world)@ == portal_built(old(world)@, old(world).ny as int, *hm, cx as int, cz as int),
{
    let base_y = base_y(world, hm, cx, cz);
    flatten_area(world, cx - 3, cz - 3, cx + 3, cz + 3, base_y, block::NETHERRACK);
    let y0 = base_y + 1;
    world.fill_box((cx - 2, y0, cz), (cx + 1, y0 + 4, cz), block::OBSIDIAN);
    world.fill_box((cx - 1, y0 + 1, cz), (cx, y0 + 3, cz), block::PORTAL);
}

/// The central tower of the End city centred on `(cx, cz)`.
pub open spec fn central_tower_built(g: Grid, ny: int, hm: Heightmap, cx: int, cz: int, height: int) -> Grid {
    let b = base_height(hm, ny, cx, cz);
    let g1 = flattened(g, ny, cx - 3, cz - 3, cx + 3, cz + 3, b, block::PURPUR);
    let g2 = painted(g1, vox(cx - 1, b + 1, cz - 1), vox(cx + 1, b + 2, cz + 1), block::PURPUR);
    let g3 = painted(g2, vox(cx, b + 3, cz), vox(cx, b + height, cz), block::PURPUR_PILLAR);
    placed(g3, vox(cx, b + height + 1, cz), block::END_ROD)
}

/// The End city's central tower: a purpur base and a slim purpur pillar
/// `height` blocks above the ground, topped by an end rod, on a 7x7 levelled
/// patch. Returns the height of the base, where the stairs are anchored.
pub fn build_central_tower(world: &mut World, hm: &Heightmap, cx: i32, cz: i32, height: i32) -> (base: i32)
    requires
        old(world).wf(),
        old(world).ny > i32::MIN,
        hm.wf(),
        has_room(base_height(*hm, old(world).ny as int, cx as int, cz as int), 4, 12),
        i32::MIN <= base_height(*hm, old(world).ny as int, cx as int, cz as int) + height,
        base_height(*hm, old(world).ny as int, cx as int, cz as int) + height + 1 <= i32::MAX,
        has_room(cx as int, 3, 3),
        has_room(cz as int, 3, 3),
    ensures
        base == base_height(*hm, old(world).ny as int, cx as int, cz as int),
        final(world).wf(),
        final(world).same_dims(old(world)),
        final(world)@ == central_tower_built(old(world)@, old(world).ny as int, *hm, cx as int, cz as int, height as int),
{
    let base_y = base_y(world, hm, cx, cz);
    flatten_area(world, cx - 3, cz - 3, cx + 3, cz + 3, base_y, block::PURPUR);
    world.fill_box((cx - 1, base_y + 1, cz - 1), (cx + 1, base_y + 2, cz + 1), block::PURPUR);
    place_pillar(world, cx, cz, base_y + 3, base_y + height, block::PURPUR_PILLAR);
    world.set(cx, base_y + height + 1, cz, block::END_ROD);
    base_y
}

/// The village tower centred on `(cx, cz)`.
pub open spec fn village_tower_built(g: Grid, ny: int, hm: Heightmap, cx: int, cz: int) -> Grid {
    let b = base_height(hm, ny, cx, cz);
    let y0 = b + 1;
    let y1 = b + 8;
    let g1 = flattened(g, ny, cx - 3, cz - 3, cx + 3, cz + 3, b, block::COBBLESTONE);
    let g2 = shell_painted(g1, vox(cx - 2, y0, cz - 2), vox(cx + 2, y1, cz + 2), block::STONE_BRICKS);
    let g3 = corner_pillars(g2, cx, cz, 2, 2, y0, y1, block::COBBLESTONE);
    let g4 = painted(g3, vox(cx, y0, cz - 2), vox(cx, y0 + 1, cz - 2), block::AIR);
    let g5 = ring_windows(ring_windows(g4, cx, cz, y0 + 3, 2, -1, block::GLASS), cx, cz, y0 + 3, 2, 1, block::GLASS);
    let g6 = painted(g5, vox(cx - 2, y1 + 1, cz - 2), vox(cx + 2, y1 + 1, cz + 2), block::OAK_PLANKS);
    let g7 = painted(g6, vox(cx - 1, y1 + 2, cz - 1), vox(cx + 1, y1 + 2, cz + 1), block::OAK_PLANKS);
    placed(g7, vox(cx, y1 + 3, cz), block::LANTERN)
}

/// Four panes of `id` at offset `off` along the walls of a ring of half
/// size `r`, placed in the order `-z`, `+z`, `-x`, `+x` wall.
pub open spec fn ring_windows(g: Grid, cx: int, cz: int, y: int, r: int, off: int, id: u8) -> Grid {
    let g1 = placed(g, vox(cx + off, y, cz - r), id);
    let g2 = placed(g1, vox(cx + off, y, cz + r), id);
    let g3 = placed(g2, vox(cx - r, y, cz + off), id);
    placed(g3, vox(cx + r, y, cz + off), id)
}

/// The village's stone centrepiece: a hollow stone-brick tower with
/// cobblestone corners, a door, windows on every side and a solid stepped
/// plank roof with a lantern on top, on a 7x7 levelled cobblestone patch.
pub fn build_village_tower(world: &mut World, hm: &Heightmap, cx: i32, cz: i32)
    requires
        old(world).wf(),
        old(world).ny > i32::MIN,
        hm.wf(),
        has_room(base_height(*hm, old(world).ny as int, cx as int, cz as int), 4, 12),
        has_room(cx as int, 3, 3),
        has_room(cz as int, 3, 3),
    ensures
        final(world).wf(),
        final(world).same_dims(old(world)),
        final(world)@ == village_tower_built(old(world)@, old(world).ny as int, *hm, cx as int, cz as int),
{
    let base_y = base_y(world, hm, cx, cz);
    let r: i32 = 2;
    flatten_area(world, cx - r - 1, cz - r - 1, cx + r + 1, cz + r + 1, base_y, block::COBBLESTONE);

    let y0 = base_y + 1;
    let wall_h: i32 = 8;
    let y1 = y0 + wall_h - 1;
    world.hollow_box((cx - r, y0, cz - r), (cx + r, y1, cz + r), block::STONE_BRICKS);
    place_pillar(world, cx - r, cz - r, y0, y1, block::COBBLESTONE);
    place_pillar(world, cx + r, cz - r, y0, y1, block::COBBLESTONE);
    place_pillar(world, cx - r, cz + r, y0, y1, block::COBBLESTONE);
    place_pillar(world, cx + r, cz + r, y0, y1, block::COBBLESTONE);
    // Door and windows.
    world.fill_box((cx, y0, cz - r), (cx, y0 + 1, cz - r), block::AIR);
    world.set(cx - 1, y0 + 3, cz - r, block::GLASS);
    world.set(cx - 1, y0 + 3, cz + r, block::GLASS);
    world.set(cx - r, y0 + 3, cz - 1, block::GLASS);
    world.set(cx + r, y0 + 3, cz - 1, block::GLASS);
    world.set(cx + 1, y0 + 3, cz - r, block::GLASS);
    world.set(cx + 1, y0 + 3, cz + r, block::GLASS);
    world.set(cx - r, y0 + 3, cz + 1, block::GLASS);
    world.set(cx + r, y0 + 3, cz + 1, block::GLASS);

    // Solid stepped plank roof, each layer a little smaller than the one
    // below, with a lantern on top.
    let mut y = y1 + 1;
    world.fill_box((cx - r, y, cz - r), (cx + r, y, cz + r), block::OAK_PLANKS);
    y += 1;
    world.fill_box((cx - r + 1, y, cz - r + 1), (cx + r - 1, y, cz + r - 1), block::OAK_PLANKS);
    y += 1;
    world.set(cx, y, cz, block::LANTERN);
}

pub open spec fn abs_int(v: int) -> int {
    if v < 0 { -v } else { v }
}

/// `p` is one of the roof blocks of a gable roof whose ridge runs along x
/// (`ridge_along_x`) or z, over walls of half sizes `half_x`, `half_z`,
/// counting only the slope rows at offsets `o < upto` across the ridge.
pub open spec fn gable_cell(
    p: Voxel,
    cx: int,
    cz: int,
    half_x: int,
    half_z: int,
    roof_y0: int,
    ridge_along_x: bool,
    upto: int,
) -> bool {
    if ridge_along_x {
        let oh = half_z + 1;
        let o = p.2 - cz;
        &&& -oh <= o <= oh
        &&& o < upto
        &&& p.1 == roof_y0 + (oh - abs_int(o))
        &&& in_span(p.0, cx - (half_x + 1), cx + (half_x + 1))
    } else {
        let oh = half_x + 1;
        let o = p.0 - cx;
        &&& -oh <= o <= oh
        &&& o < upto
        &&& p.1 == roof_y0 + (oh - abs_int(o))
        &&& in_span(p.2, cz - (half_z + 1), cz + (half_z + 1))
    }
}

pub open spec fn gable_partial(
    g: Grid,
    cx: int,
    cz: int,
    half_x: int,
    half_z: int,
    roof_y0: int,
    ridge_along_x: bool,
    id: u8,
    upto: int,
) -> Grid {
    Map::new(
        |p: Voxel| g.dom().contains(p),
        |p: Voxel| if gable_cell(p, cx, cz, half_x, half_z, roof_y0, ridge_along_x, upto) { id } else { g[p] },
    )
}

/// `g` with a gable roof of `id`: the rows of each slope rise one block per
/// step from the eaves, which overhang the walls by one block, to the
/// central ridge.
pub open spec fn gable_roofed(
    g: Grid,
    cx: int,
    cz: int,
    half_x: int,
    half_z: int,
    roof_y0: int,
    ridge_along_x: bool,
    id: u8,
) -> Grid {
    let oh = if ridge_along_x { half_z + 1 } else { half_x + 1 };
    gable_partial(g, cx, cz, half_x, half_z, roof_y0, ridge_along_x, id, oh + 1)
}

/// The coordinates a gable roof computes stay within `i32`.
pub open spec fn gable_fits(cx: int, cz: int, half_x: int, half_z: int, roof_y0: int, ridge_along_x: bool) -> bool {
    &&& half_x < i32::MAX
    &&& half_z < i32::MAX
    &&& if ridge_along_x {
        half_z + 1 >= 0 ==> {
            &&& has_room(cz, half_z + 1, half_z + 1)
            &&& roof_y0 + half_z + 1 <= i32::MAX
            &&& i32::MIN <= cx - (half_x + 1) <= i32::MAX
            &&& i32::MIN <= cx + (half_x + 1) <= i32::MAX
        }
    } else {
        half_x + 1 >= 0 ==> {
            &&& has_room(cx, half_x + 1, half_x + 1)
            &&& roof_y0 + half_x + 1 <= i32::MAX
            &&& i32::MIN <= cz - (half_z + 1) <= i32::MAX
            &&& i32::MIN <= cz + (half_z + 1) <= i32::MAX
        }
    }
}

/// Gable roof: two slopes rising from the long walls to a central ridge,
/// with one block of eaves beyond the walls on each side. `ridge_along_x`
/// decides whether the ridge runs along x (the roof rises and falls along
/// z) or along z.
pub fn build_gable_roof(
    world: &mut World,
    cx: i32,
    cz: i32,
    half_x: i32,
    half_z: i32,
    roof_y0: i32,
    ridge_along_x: bool,
    id: u8,
)
    requires
        old(world).wf(),
        gable_fits(cx as int, cz as int, half_x as int, half_z as int, roof_y0 as int, ridge_along_x),
    ensures
        final(world).wf(),
        final(world).same_dims(old(world)),
        final(world)@ == gable_roofed(
            old(world)@,
            cx as int,
            cz as int,
            half_x as int,
            half_z as int,
            roof_y0 as int,
            ridge_along_x,
            id,
        ),
{
    let ghost g0 = world@;
    let ortho_half: i32 = if ridge_along_x { half_z + 1 } else { half_x + 1 };
    let span_half: i32 = if ridge_along_x { half_x + 1 } else { half_z + 1 };
    let mut o: i64 = -(ortho_half as i64);
    assert(g0 =~= gable_partial(g0, cx as int, cz as int, half_x as int, half_z as int, roof_y0 as int, ridge_along_x, id, o as int));
    while o <= ortho_half as i64
        invariant
            world.wf(),
            world.same_dims(old(world)),
            g0 == old(world)@,
            gable_fits(cx as int, cz as int, half_x as int, half_z as int, roof_y0 as int, ridge_along_x),
            ortho_half == if ridge_along_x { half_z + 1 } else { half_x + 1 },
            span_half == if ridge_along_x { half_x + 1 } else { half_z + 1 },
            -ortho_half <= o <= ortho_half + 1 || o == -ortho_half,
            world@ == gable_partial(g0, cx as int, cz as int, half_x as int, half_z as int, roof_y0 as int, ridge_along_x, id, o as int),
        decreases ortho_half + 1 - o,
    {
        let oi = o as i32;
        let y = roof_y0 + (ortho_half - if oi < 0 { -oi } else { oi });
        if ridge_along_x {
            world.fill_box((cx - span_half, y, cz + oi), (cx + span_half, y, cz + oi), id);
        } else {
            world.fill_box((cx + oi, y, cz - span_half), (cx + oi, y, cz + span_half), id);
        }
        assert(world@ =~= gable_partial(g0, cx as int, cz as int, half_x as int, half_z as int, roof_y0 as int, ridge_along_x, id, o + 1));
        o = o + 1;
    }
    assert(world@ =~= gable_roofed(g0, cx as int, cz as int, half_x as int, half_z as int, roof_y0 as int, ridge_along_x, id));
}

/// Footprint half sizes, wall height and ridge direction of the village
/// house variant `variant % 3`.
pub open spec fn village_house_shape(variant: u32) -> (int, int, int, bool) {
    if variant % 3 == 0 {
        (2, 1, 4, true)
    } else if variant % 3 == 1 {
        (1, 2, 4, false)
    } else {
        (2, 2, 5, true)
    }
}

/// The village house of variant `variant` centred on `(cx, cz)`.
pub open spec fn village_house_built(g: Grid, ny: int, hm: Heightmap, cx: int, cz: int, variant: u32) -> Grid {
    let b = base_height(hm, ny, cx, cz);
    let (hw, hd, wall_h, ridge) = village_house_shape(variant);
    let y0 = b + 1;
    let y1 = y0 + wall_h - 1;
    let wy = y0 + 1;
    let g1 = flattened(g, ny, cx - hw - 1, cz - hd - 1, cx + hw + 1, cz + hd + 1, b, block::GRASS);
    let g2 = painted(g1, vox(cx - hw, b, cz - hd), vox(cx + hw, b, cz + hd), block::COBBLESTONE);
    let g3 = shell_painted(g2, vox(cx - hw, y0, cz - hd), vox(cx + hw, y1, cz + hd), block::OAK_PLANKS);
    let g4 = corner_pillars(g3, cx, cz, hw, hd, y0, y1, block::OAK_LOG);
    let g5 = shell_painted(g4, vox(cx - hw, y1, cz - hd), vox(cx + hw, y1, cz + hd), block::OAK_LOG);
    let g6 = painted(g5, vox(cx, y0, cz + hd), vox(cx, y0 + 1, cz + hd), block::AIR);
    let g7 = placed(g6, vox(cx - hw, wy, cz), block::GLASS);
    let g8 = placed(g7, vox(cx + hw, wy, cz), block::GLASS);
    let g9 = placed(g8, vox(cx, wy, cz - hd), block::GLASS);
    let g10 = if hw >= 3 { placed(g9, vox(cx - hw, wy, cz - 1), block::GLASS) } else { g9 };
    let g11 = placed(g10, vox(cx + 1, y0, cz + hd + 1), block::LANTERN);
    let g12 = placed(g11, vox(cx, y0 + 1, cz), block::LANTERN);
    gable_roofed(g12, cx, cz, hw, hd, y1 + 1, ridge, block::OAK_PLANKS)
}

/// A village house: a cobblestone footing, hollow plank walls with log
/// corners and a log band under the roof, a gable roof with eaves, glass
/// windows, a door at the front (+z), a lantern by the entrance and another
/// inside. `variant` (taken modulo 3) changes the footprint and the
/// direction of the ridge, so that neighbouring houses do not all look
/// alike.
pub fn build_village_house(world: &mut World, hm: &Heightmap, cx: i32, cz: i32, variant: u32)
    requires
        old(world).wf(),
        old(world).ny > i32::MIN,
        hm.wf(),
        has_room(base_height(*hm, old(world).ny as int, cx as int, cz as int), 4, 12),
        has_room(cx as int, 3, 3),
        has_room(cz as int, 3, 3),
    ensures
        final(world).wf(),
        final(world).same_dims(old(world)),
        final(world)@ == village_house_built(old(world)@, old(world).ny as int, *hm, cx as int, cz as int, variant),
{
    let base_y = base_y(world, hm, cx, cz);
    let (half_w, half_d, wall_h, ridge_along_x): (i32, i32, i32, bool) = if variant % 3 == 0 {
        (2, 1, 4, true)
    } else if variant % 3 == 1 {
        (1, 2, 4, false)
    } else {
        (2, 2, 5, true)
    };
    flatten_area(world, cx - half_w - 1, cz - half_d - 1, cx + half_w + 1, cz + half_d + 1, base_y, block::GRASS);

    world.fill_box((cx - half_w, base_y, cz - half_d), (cx + half_w, base_y, cz + half_d), block::COBBLESTONE);

    let y0 = base_y + 1;
    let y1 = y0 + wall_h - 1;
    world.hollow_box((cx - half_w, y0, cz - half_d), (cx + half_w, y1, cz + half_d), block::OAK_PLANKS);

    place_pillar(world, cx - half_w, cz - half_d, y0, y1, block::OAK_LOG);
    place_pillar(world, cx + half_w, cz - half_d, y0, y1, block::OAK_LOG);
    place_pillar(world, cx - half_w, cz + half_d, y0, y1, block::OAK_LOG);
    place_pillar(world, cx + half_w, cz + half_d, y0, y1, block::OAK_LOG);
    world.hollow_box((cx - half_w, y1, cz - half_d), (cx + half_w, y1, cz + half_d), block::OAK_LOG);

    // Door at the front (+z), two blocks high.
    world.fill_box((cx, y0, cz + half_d), (cx, y0 + 1, cz + half_d), block::AIR);

    // Windows on the free sides.
    let wy = y0 + 1;
    world.set(cx - half_w, wy, cz, block::GLASS);
    world.set(cx + half_w, wy, cz, block::GLASS);
    world.set(cx, wy, cz - half_d, block::GLASS);
    if half_w >= 3 {
        world.set(cx - half_w, wy, cz - 1, block::GLASS);
    }

    // Lantern by the entrance and a light inside, seen through the windows at night.
    world.set(cx + 1, y0, cz + half_d + 1, block::LANTERN);
    world.set(cx, y0 + 1, cz, block::LANTERN);

    build_gable_roof(world, cx, cz, half_w, half_d, y1 + 1, ridge_along_x, block::OAK_PLANKS);
}

/// Half width of the ship's hull at offset `i` along its length.
pub open spec fn hull_half_width(i: int) -> int {
    if abs_int(i) > 3 { 1 } else { 2 }
}

/// `g` with the hull slices `-4 <= i < upto` of a ship centred on
/// `(cx, y, cz)` filled with purpur.
pub open spec fn hull_partial(g: Grid, cx: int, y: int, cz: int, upto: int) -> Grid {
    Map::new(
        |p: Voxel| g.dom().contains(p),
        |p: Voxel|
            if p.1 == y && -4 <= p.0 - cx < upto && abs_int(p.2 - cz) <= hull_half_width(p.0 - cx) {
                block::PURPUR
            } else {
                g[p]
            },
    )
}

/// The purpur ship floating over `(cx, cz)`.
pub open spec fn ship_built(g: Grid, ny: int, hm: Heightmap, cx: int, cz: int) -> Grid {
    let b = base_height(hm, ny, cx, cz) + 3;
    let g1 = hull_partial(g, cx, b, cz, 5);
    let g2 = placed(g1, vox(cx + 5, b, cz), block::PURPUR);
    let g3 = placed(g2, vox(cx + 6, b, cz), block::PURPUR_PILLAR);
    let g4 = painted(g3, vox(cx, b + 1, cz), vox(cx, b + 5, cz), block::PURPUR_PILLAR);
    let g5 = painted(g4, vox(cx, b + 4, cz), vox(cx + 2, b + 4, cz), block::END_STONE_BRICKS);
    let g6 = placed(g5, vox(cx + 2, b + 5, cz), block::END_ROD);
    placed(g6, vox(cx - 3, b + 1, cz), block::END_ROD)
}

/// A small purpur ship floating three blocks over the ground: a long hull
/// with a bow, a purpur-pillar mast carrying an end-stone-brick sail, and
/// end rods for light.
pub fn build_purpur_ship(world: &mut World, hm: &Heightmap, cx: i32, cz: i32)
    requires
        old(world).wf(),
        hm.wf(),
        has_room(base_height(*hm, old(world).ny as int, cx as int, cz as int), 0, 8),
        has_room(cx as int, 4, 6),
        has_room(cz as int, 2, 2),
    ensures
        final(world).wf(),
        final(world).same_dims(old(world)),
        final(world)@ == ship_built(old(world)@, old(world).ny as int, *hm, cx as int, cz as int),
{
    let base_y = base_y(world, hm, cx, cz) + 3;
    let ghost g0 = world@;
    let mut i: i32 = -4;
    assert(g0 =~= hull_partial(g0, cx as int, base_y as int, cz as int, -4));
    while i <= 4
        invariant
            world.wf(),
            world.same_dims(old(world)),
            g0 == old(world)@,
            has_room(cx as int, 4, 6),
            has_room(cz as int, 2, 2),
            -4 <= i <= 5,
            world@ == hull_partial(g0, cx as int, base_y as int, cz as int, i as int),
        decreases 5 - i,
    {
        let width: i32 = if i > 3 || i < -3 { 1 } else { 2 };
        world.fill_box((cx + i, base_y, cz - width), (cx + i, base_y, cz + width), block::PURPUR);
        assert(world@ =~= hull_partial(g0, cx as int, base_y as int, cz as int, i + 1));
        i += 1;
    }
    world.set(cx + 5, base_y, cz, block::PURPUR);
    world.set(cx + 6, base_y, cz, block::PURPUR_PILLAR);
    place_pillar(world, cx, cz, base_y + 1, base_y + 5, block::PURPUR_PILLAR);
    world.fill_box((cx, base_y + 4, cz), (cx + 2, base_y + 4, cz), block::END_STONE_BRICKS);
    world.set(cx + 2, base_y + 5, cz, block::END_ROD);
    world.set(cx - 3, base_y + 1, cz, block::END_ROD);
}

/// One storey of a city tower whose ledge lies at height `y`: a purpur ledge
/// ring with end rods on its corners, then hollow end-stone-brick walls three
/// blocks high with magenta windows, and a door on the first storey.
pub open spec fn city_floor(g: Grid, cx: int, cz: int, y: int, first: bool) -> Grid {
    let g1 = shell_painted(g, vox(cx - 4, y, cz - 4), vox(cx + 4, y, cz + 4), block::PURPUR);
    let g2 = placed(g1, vox(cx - 4, y + 1, cz - 4), block::END_ROD);
    let g3 = placed(g2, vox(cx + 4, y + 1, cz - 4), block::END_ROD);
    let g4 = placed(g3, vox(cx - 4, y + 1, cz + 4), block::END_ROD);
    let g5 = placed(g4, vox(cx + 4, y + 1, cz + 4), block::END_ROD);
    let yf = y + 1;
    let g6 = shell_painted(g5, vox(cx - 3, yf, cz - 3), vox(cx + 3, yf + 2, cz + 3), block::END_STONE_BRICKS);
    let g7 = ring_windows(
        ring_windows(g6, cx, cz, yf + 1, 3, -1, block::MAGENTA_GLASS),
        cx,
        cz,
        yf + 1,
        3,
        1,
        block::MAGENTA_GLASS,
    );
    if first {
        painted(g7, vox(cx, yf, cz - 3), vox(cx, yf + 1, cz - 3), block::AIR)
    } else {
        g7
    }
}

/// The first `n` storeys of a city tower whose first ledge lies at `y0`;
/// each storey is four blocks high.
pub open spec fn city_floors(g: Grid, cx: int, cz: int, y0: int, n: nat) -> Grid
    decreases n,
{
    if n == 0 {
        g
    } else {
        city_floor(city_floors(g, cx, cz, y0, (n - 1) as nat), cx, cz, y0 + 4 * (n - 1), n == 1)
    }
}

/// The stepped purpur cap of a pointed city tower, starting at `y`.
pub open spec fn city_cap(g: Grid, cx: int, cz: int, y: int) -> Grid {
    let g1 = shell_painted(g, vox(cx - 4, y, cz - 4), vox(cx + 4, y, cz + 4), block::PURPUR);
    let g2 = painted(g1, vox(cx - 3, y + 1, cz - 3), vox(cx + 3, y + 1, cz + 3), block::PURPUR);
    let g3 = painted(g2, vox(cx - 2, y + 2, cz - 2), vox(cx + 2, y + 2, cz + 2), block::PURPUR);
    let g4 = painted(g3, vox(cx - 1, y + 3, cz - 1), vox(cx + 1, y + 3, cz + 1), block::PURPUR);
    placed(g4, vox(cx, y + 4, cz), block::END_ROD)
}

pub open spec fn nonneg(n: int) -> nat {
    if n > 0 { n as nat } else { 0 }
}

/// The city tower of `floors` storeys centred on `(cx, cz)`.
pub open spec fn city_tower_built(g: Grid, ny: int, hm: Heightmap, cx: int, cz: int, floors: int, pointed: bool) -> Grid {
    let b = base_height(hm, ny, cx, cz);
    let g1 = flattened(g, ny, cx - 4, cz - 4, cx + 4, cz + 4, b, block::PURPUR);
    let g2 = city_floors(g1, cx, cz, b + 1, nonneg(floors));
    if pointed {
        city_cap(g2, cx, cz, b + 1 + 4 * nonneg(floors))
    } else {
        g2
    }
}

/// A secondary tower of the End city: `floors` stacked 7x7 storeys of
/// end-stone bricks, each on a purpur ledge one block wider with end rods on
/// its corners and magenta windows; `pointed` adds a stepped cap with a tip.
/// Returns the height of the base, where the stairs are anchored.
pub fn build_city_tower(world: &mut World, hm: &Heightmap, cx: i32, cz: i32, floors: i32, pointed: bool) -> (base: i32)
    requires
        old(world).wf(),
        old(world).ny > i32::MIN,
        hm.wf(),
        has_room(base_height(*hm, old(world).ny as int, cx as int, cz as int), 4, 12),
        base_height(*hm, old(world).ny as int, cx as int, cz as int) + 1 + 4 * nonneg(floors as int) + (if pointed { 4int } else { 0int }) <= i32::MAX,
        has_room(cx as int, 4, 4),
        has_room(cz as int, 4, 4),
    ensures
        base == base_height(*hm, old(world).ny as int, cx as int, cz as int),
        final(world).wf(),
        final(world).same_dims(old(world)),
        final(world)@ == city_tower_built(old(world)@, old(world).ny as int, *hm, cx as int, cz as int, floors as int, pointed),
{
    let base_y = base_y(world, hm, cx, cz);
    flatten_area(world, cx - 4, cz - 4, cx + 4, cz + 4, base_y, block::PURPUR);
    let ghost g1 = world@;
    let ghost n = nonneg(floors as int);
    let r: i32 = 3;  // 7x7 storeys
    let mut y = base_y + 1;
    let mut floor: i32 = 0;
    while floor < floors
        invariant
            world.wf(),
            world.same_dims(old(world)),
            has_room(cx as int, 4, 4),
            has_room(cz as int, 4, 4),
            r == 3,
            n == nonneg(floors as int),
            base_y + 1 + 4 * n <= i32::MAX,
            has_room(base_y as int, 4, 12),
            0 <= floor <= n,
            y == base_y + 1 + 4 * floor,
            world@ == city_floors(g1, cx as int, cz as int, base_y + 1, floor as nat),
        decreases floors - floor,
    {
        let ghost before = world@;
        world.hollow_box((cx - r - 1, y, cz - r - 1), (cx + r + 1, y, cz + r + 1), block::PURPUR);
        world.set(cx - r - 1, y + 1, cz - r - 1, block::END_ROD);
        world.set(cx + r + 1, y + 1, cz - r - 1, block::END_ROD);
        world.set(cx - r - 1, y + 1, cz + r + 1, block::END_ROD);
        world.set(cx + r + 1, y + 1, cz + r + 1, block::END_ROD);
        y += 1;
        let floor_h: i32 = 3;
        world.hollow_box((cx - r, y, cz - r), (cx + r, y + floor_h - 1, cz + r), block::END_STONE_BRICKS);
        world.set(cx - 1, y + 1, cz - r, block::MAGENTA_GLASS);
        world.set(cx - 1, y + 1, cz + r, block::MAGENTA_GLASS);
        world.set(cx - r, y + 1, cz - 1, block::MAGENTA_GLASS);
        world.set(cx + r, y + 1, cz - 1, block::MAGENTA_GLASS);
        world.set(cx + 1, y + 1, cz - r, block::MAGENTA_GLASS);
        world.set(cx + 1, y + 1, cz + r, block::MAGENTA_GLASS);
        world.set(cx - r, y + 1, cz + 1, block::MAGENTA_GLASS);
        world.set(cx + r, y + 1, cz + 1, block::MAGENTA_GLASS);
        if floor == 0 {
            world.fill_box((cx, y, cz - r), (cx, y + 1, cz - r), block::AIR);  // door
        }
        y += floor_h;
        assert(world@ == city_floor(before, cx as int, cz as int, y - 4, floor == 0));
        floor += 1;
    }
    if pointed {
        let cap_r: i32 = 4;
        world.hollow_box((cx - cap_r, y, cz - cap_r), (cx + cap_r, y, cz + cap_r), block::PURPUR);
        y += 1;
        world.fill_box((cx - cap_r + 1, y, cz - cap_r + 1), (cx + cap_r - 1, y, cz + cap_r - 1), block::PURPUR);
        y += 1;
        world.fill_box((cx - cap_r + 2, y, cz - cap_r + 2), (cx + cap_r - 2, y, cz + cap_r - 2), block::PURPUR);
        y += 1;
        world.fill_box((cx - cap_r + 3, y, cz - cap_r + 3), (cx + cap_r - 3, y, cz + cap_r - 3), block::PURPUR);
        y += 1;
        world.set(cx, y, cz, block::END_ROD);
    }
    base_y
}

/// `g` with the water channel of a farm plot: column `cx` at height `y`,
/// rows `-half_d <= dz < upto`.
pub open spec fn farm_channel(g: Grid, cx: int, y: int, cz: int, half_d: int, upto: int) -> Grid {
    Map::new(
        |p: Voxel| g.dom().contains(p),
        |p: Voxel| if p.1 == y && p.0 == cx && -half_d <= p.2 - cz <= half_d && p.2 - cz < upto { block::WATER } else { g[p] },
    )
}

/// `g` with crops at height `y` on the cells `dx0 <= dx <= dx1`,
/// `dz0 <= dz <= dz1` of a farm plot centred on `(cx, cz)`, but its channel
/// `dx == 0`.
pub open spec fn farm_crops(g: Grid, cx: int, y: int, cz: int, dx0: int, dx1: int, dz0: int, dz1: int) -> Grid {
    Map::new(
        |p: Voxel| g.dom().contains(p),
        |p: Voxel|
            if p.1 == y && dx0 <= p.0 - cx <= dx1 && dz0 <= p.2 - cz <= dz1 && p.0 != cx {
                block::CROPS
            } else {
                g[p]
            },
    )
}

/// A post of the fence along the front and back of a farm plot stands at
/// offset `dx`: every other block, and at both corners.
pub open spec fn fence_post_x(dx: int, half_w: int) -> bool {
    dx % 2 == 0 || dx == -half_w - 1 || dx == half_w + 1
}

/// `g` with the posts of the front and back fences at offsets
/// `-half_w - 1 <= dx < upto`.
pub open spec fn farm_fence_rows(g: Grid, cx: int, y: int, cz: int, half_w: int, half_d: int, upto: int) -> Grid {
    Map::new(
        |p: Voxel| g.dom().contains(p),
        |p: Voxel|
            if p.1 == y && (p.2 == cz - half_d - 1 || p.2 == cz + half_d + 1) && -half_w - 1 <= p.0 - cx <= half_w + 1
                && p.0 - cx < upto && fence_post_x(p.0 - cx, half_w) {
                block::OAK_LOG
            } else {
                g[p]
            },
    )
}

/// `g` with the posts of the side fences at offsets `-half_d <= dz < upto`:
/// every other block.
pub open spec fn farm_fence_cols(g: Grid, cx: int, y: int, cz: int, half_w: int, half_d: int, upto: int) -> Grid {
    Map::new(
        |p: Voxel| g.dom().contains(p),
        |p: Voxel|
            if p.1 == y && (p.0 == cx - half_w - 1 || p.0 == cx + half_w + 1) && -half_d <= p.2 - cz <= half_d
                && p.2 - cz < upto && (p.2 - cz) % 2 == 0 {
                block::OAK_LOG
            } else {
                g[p]
            },
    )
}

/// The farm plot of half sizes `half_w`, `half_d` centred on `(cx, cz)`.
pub open spec fn farm_built(g: Grid, ny: int, hm: Heightmap, cx: int, cz: int, half_w: int, half_d: int) -> Grid {
    let b = base_height(hm, ny, cx, cz);
    let g1 = flattened(g, ny, cx - half_w, cz - half_d, cx + half_w, cz + half_d, b, block::FARMLAND);
    let g2 = farm_channel(g1, cx, b, cz, half_d, half_d + 1);
    let g3 = farm_crops(g2, cx, b + 1, cz, -half_w, half_w, -half_d, half_d);
    let g4 = farm_fence_rows(g3, cx, b + 1, cz, half_w, half_d, half_w + 2);
    farm_fence_cols(g4, cx, b + 1, cz, half_w, half_d, half_d + 1)
}

/// A farm plot: a levelled rectangle of farmland with a one-block water
/// channel down the middle, rows of crops on the rest, and a fence of log
/// posts around it.
pub fn build_farm_plot(world: &mut World, hm: &Heightmap, cx: i32, cz: i32, half_w: i32, half_d: i32)
    requires
        old(world).wf(),
        old(world).ny > i32::MIN,
        hm.wf(),
        has_room(base_height(*hm, old(world).ny as int, cx as int, cz as int), 4, 12),
        has_room(cx as int, abs_int(half_w as int) + 1, abs_int(half_w as int) + 1),
        has_room(cz as int, abs_int(half_d as int) + 1, abs_int(half_d as int) + 1),
    ensures
        final(world).wf(),
        final(world).same_dims(old(world)),
        final(world)@ == farm_built(old(world)@, old(world).ny as int, *hm, cx as int, cz as int, half_w as int, half_d as int),
{
    let base_y = base_y(world, hm, cx, cz);
    flatten_area(world, cx - half_w, cz - half_d, cx + half_w, cz + half_d, base_y, block::FARMLAND);
    let ghost g1 = world@;

    let mut dz: i32 = -half_d;
    assert(g1 =~= farm_channel(g1, cx as int, base_y as int, cz as int, half_d as int, dz as int));
    while dz <= half_d
        invariant
            world.wf(),
            world.same_dims(old(world)),
            has_room(cx as int, abs_int(half_w as int) + 1, abs_int(half_w as int) + 1),
            has_room(cz as int, abs_int(half_d as int) + 1, abs_int(half_d as int) + 1),
            -half_d <= dz <= half_d + 1 || dz == -half_d,
            world@ == farm_channel(g1, cx as int, base_y as int, cz as int, half_d as int, dz as int),
        decreases half_d + 1 - dz,
    {
        world.set(cx, base_y, cz + dz, block::WATER);
        assert(world@ =~= farm_channel(g1, cx as int, base_y as int, cz as int, half_d as int, dz + 1));
        dz += 1;
    }
    assert(world@ =~= farm_channel(g1, cx as int, base_y as int, cz as int, half_d as int, half_d + 1));
    let ghost g2 = world@;

    let mut dz: i32 = -half_d;
    assert(g2 =~= farm_crops(g2, cx as int, base_y + 1, cz as int, -half_w, half_w as int, -half_d, dz - 1));
    while dz <= half_d
        invariant
            world.wf(),
            world.same_dims(old(world)),
            has_room(base_y as int, 4, 12),
            has_room(cx as int, abs_int(half_w as int) + 1, abs_int(half_w as int) + 1),
            has_room(cz as int, abs_int(half_d as int) + 1, abs_int(half_d as int) + 1),
            -half_d <= dz <= half_d + 1 || dz == -half_d,
            world@ == farm_crops(g2, cx as int, base_y + 1, cz as int, -half_w, half_w as int, -half_d, dz - 1),
        decreases half_d + 1 - dz,
    {
        let ghost row_start = world@;
        let mut dx: i32 = -half_w;
        assert(row_start =~= farm_crops(row_start, cx as int, base_y + 1, cz as int, -half_w, dx - 1, dz as int, dz as int));
        while dx <= half_w
            invariant
                world.wf(),
                world.same_dims(old(world)),
                has_room(base_y as int, 4, 12),
                has_room(cx as int, abs_int(half_w as int) + 1, abs_int(half_w as int) + 1),
                has_room(cz as int, abs_int(half_d as int) + 1, abs_int(half_d as int) + 1),
                -half_d <= dz <= half_d,
                -half_w <= dx <= half_w + 1 || dx == -half_w,
                world@ == farm_crops(row_start, cx as int, base_y + 1, cz as int, -half_w, dx - 1, dz as int, dz as int),
            decreases half_w + 1 - dx,
        {
            if dx != 0 {
                world.set(cx + dx, base_y + 1, cz + dz, block::CROPS);
            }
            assert(world@ =~= farm_crops(row_start, cx as int, base_y + 1, cz as int, -half_w, dx as int, dz as int, dz as int));
            dx += 1;
        }
        assert(world@ =~= farm_crops(g2, cx as int, base_y + 1, cz as int, -half_w, half_w as int, -half_d, dz as int));
        dz += 1;
    }
    let ghost g3 = world@;

    let mut dx: i64 = -(half_w as i64) - 1;
    assert(g3 =~= farm_fence_rows(g3, cx as int, base_y + 1, cz as int, half_w as int, half_d as int, dx as int));
    while dx <= half_w as i64 + 1
        invariant
            world.wf(),
            world.same_dims(old(world)),
            has_room(base_y as int, 4, 12),
            has_room(cx as int, abs_int(half_w as int) + 1, abs_int(half_w as int) + 1),
            has_room(cz as int, abs_int(half_d as int) + 1, abs_int(half_d as int) + 1),
            -half_w - 1 <= dx <= half_w + 2 || dx == -half_w - 1,
            world@ == farm_fence_rows(g3, cx as int, base_y + 1, cz as int, half_w as int, half_d as int, dx as int),
        decreases half_w + 2 - dx,
    {
        let dxi = dx as i32;
        let post = dxi % 2 == 0 || dxi == -half_w - 1 || dxi == half_w + 1;
        if post {
            world.set(cx + dxi, base_y + 1, cz - half_d - 1, block::OAK_LOG);
            world.set(cx + dxi, base_y + 1, cz + half_d + 1, block::OAK_LOG);
        }
        assert(world@ =~= farm_fence_rows(g3, cx as int, base_y + 1, cz as int, half_w as int, half_d as int, dx + 1));
        dx += 1;
    }
    assert(world@ =~= farm_fence_rows(g3, cx as int, base_y + 1, cz as int, half_w as int, half_d as int, half_w + 2));
    let ghost g4 = world@;

    let mut dz: i32 = -half_d;
    assert(g4 =~= farm_fence_cols(g4, cx as int, base_y + 1, cz as int, half_w as int, half_d as int, dz as int));
    while dz <= half_d
        invariant
            world.wf(),
            world.same_dims(old(world)),
            has_room(base_y as int, 4, 12),
            has_room(cx as int, abs_int(half_w as int) + 1, abs_int(half_w as int) + 1),
            has_room(cz as int, abs_int(half_d as int) + 1, abs_int(half_d as int) + 1),
            -half_d <= dz <= half_d + 1 || dz == -half_d,
            world@ == farm_fence_cols(g4, cx as int, base_y + 1, cz as int, half_w as int, half_d as int, dz as int),
        decreases half_d + 1 - dz,
    {
        let post = dz % 2 == 0;
        if post {
            world.set(cx - half_w - 1, base_y + 1, cz + dz, block::OAK_LOG);
            world.set(cx + half_w + 1, base_y + 1, cz + dz, block::OAK_LOG);
        }
        assert(world@ =~= farm_fence_cols(g4, cx as int, base_y + 1, cz as int, half_w as int, half_d as int, dz + 1));
        dz += 1;
    }
    assert(world@ =~= farm_fence_cols(g4, cx as int, base_y + 1, cz as int, half_w as int, half_d as int, half_d + 1));
}

/// `(dx, dz)` lies in the disc of radius `r` scanned by the square
/// `-r..=r` in both directions.
pub open spec fn in_disc(dx: int, dz: int, r: int) -> bool {
    &&& -r <= dx <= r
    &&& -r <= dz <= r
    &&& dx * dx + dz * dz <= r * r
}

/// `id` is part of a tree.
pub open spec fn is_tree_block(id: u8) -> bool {
    id == block::OAK_LOG || id == block::LEAVES
}

/// `g` with the tree blocks turned to air in the columns of the disc of
/// radius `r` around `(cx, cz)` whose offsets lie in `dx0..=dx1`,
/// `dz0..=dz1`, up to height `y1`.
pub open spec fn trees_cleared_in(
    g: Grid,
    cx: int,
    cz: int,
    r: int,
    dx0: int,
    dx1: int,
    dz0: int,
    dz1: int,
    y1: int,
) -> Grid {
    Map::new(
        |p: Voxel| g.dom().contains(p),
        |p: Voxel|
            if in_disc(p.0 - cx, p.2 - cz, r) && dx0 <= p.0 - cx <= dx1 && dz0 <= p.2 - cz <= dz1 && p.1 <= y1
                && is_tree_block(g[p]) {
                block::AIR
            } else {
                g[p]
            },
    )
}

/// `g` with every tree block in the disc of radius `r` around `(cx, cz)`
/// turned to air, at every height.
pub open spec fn trees_cleared(g: Grid, ny: int, cx: int, cz: int, r: int) -> Grid {
    trees_cleared_in(g, cx, cz, r, -r, r, -r, r, ny)
}

/// Squares and sums of offsets within the radius `r` fit in `i32`.
pub open spec fn disc_fits(cx: int, cz: int, r: int) -> bool {
    &&& 2 * r * r <= i32::MAX
    &&& has_room(cx, abs_int(r), abs_int(r))
    &&& has_room(cz, abs_int(r), abs_int(r))
}

proof fn lemma_disc_radius(r: int)
    requires
        2 * r * r <= i32::MAX,
    ensures
        -0x8000 <= r <= 0x8000,
{
    assert(-0x8000 <= r <= 0x8000) by (nonlinear_arith)
        requires
            2 * r * r <= i32::MAX,
    ;
}

proof fn lemma_disc_terms(dx: int, dz: int, r: int)
    requires
        -abs_int(r) <= dx <= abs_int(r),
        -abs_int(r) <= dz <= abs_int(r),
        2 * r * r <= i32::MAX,
    ensures
        0 <= dx * dx <= r * r,
        0 <= dz * dz <= r * r,
        dx * dx + dz * dz <= i32::MAX,
        r * r <= i32::MAX,
{
    let a = abs_int(r);
    assert(2 * r * r == 2 * (r * r) && r * r >= 0) by (nonlinear_arith);
    assert(a * a == r * r) by (nonlinear_arith)
        requires
            a == r || a == -r,
    ;
    assert(0 <= dx * dx <= a * a) by (nonlinear_arith)
        requires
            -a <= dx <= a,
    ;
    assert(0 <= dz * dz <= a * a) by (nonlinear_arith)
        requires
            -a <= dz <= a,
    ;
}

/// Removes logs and leaves at every height in the disc of radius `radius`
/// around `(cx, cz)`, so that trees planted earlier do not end up stuck in
/// the structures built there.
pub fn clear_trees_near(world: &mut World, cx: i32, cz: i32, radius: i32)
    requires
        old(world).wf(),
        disc_fits(cx as int, cz as int, radius as int),
    ensures
        final(world).wf(),
        final(world).same_dims(old(world)),
        final(world)@ == trees_cleared(old(world)@, old(world).ny as int, cx as int, cz as int, radius as int),
{
    let ghost g0 = world@;
    let ghost r = radius as int;
    let ghost ny = world.ny as int;
    proof {
        lemma_disc_radius(r);
    }
    let mut dz: i32 = -radius;
    assert(g0 =~= trees_cleared_in(g0, cx as int, cz as int, r, -r, r, -r, dz - 1, ny));
    while dz <= radius
        invariant
            world.wf(),
            world.same_dims(old(world)),
            ny == world.ny,
            r == radius,
            disc_fits(cx as int, cz as int, r),
            -0x8000 <= r <= 0x8000,
            -radius <= dz <= radius + 1 || dz == -radius,
            world@ == trees_cleared_in(g0, cx as int, cz as int, r, -r, r, -r, dz - 1, ny),
        decreases radius + 1 - dz,
    {
        let ghost row_start = world@;
        let mut dx: i32 = -radius;
        assert(row_start =~= trees_cleared_in(row_start, cx as int, cz as int, r, -r, dx - 1, dz as int, dz as int, ny));
        while dx <= radius
            invariant
                world.wf(),
                world.same_dims(old(world)),
                ny == world.ny,
                r == radius,
                disc_fits(cx as int, cz as int, r),
                -0x8000 <= r <= 0x8000,
                -radius <= dz <= radius,
                -radius <= dx <= radius + 1 || dx == -radius,
                world@ == trees_cleared_in(row_start, cx as int, cz as int, r, -r, dx - 1, dz as int, dz as int, ny),
            decreases radius + 1 - dx,
        {
            proof {
                lemma_disc_terms(dx as int, dz as int, r);
            }
            if dx * dx + dz * dz > radius * radius {
                assert(world@ =~= trees_cleared_in(row_start, cx as int, cz as int, r, -r, dx as int, dz as int, dz as int, ny));
                dx += 1;
                continue;
            }
            let x = cx + dx;
            let z = cz + dz;
            let ghost col_start = world@;
            let mut y: i32 = 0;
            assert(col_start =~= trees_cleared_in(col_start, cx as int, cz as int, r, dx as int, dx as int, dz as int, dz as int, -1));
            while y < world.ny
                invariant
                    world.wf(),
                    world.same_dims(old(world)),
                    ny == world.ny,
                    0 <= y,
                    y <= ny || y == 0,
                    in_disc(dx as int, dz as int, r),
                    x == cx + dx,
                    z == cz + dz,
                    world@ == trees_cleared_in(col_start, cx as int, cz as int, r, dx as int, dx as int, dz as int, dz as int, y - 1),
                decreases world.ny - y,
            {
                let id = world.get(x, y, z);
                if id == block::OAK_LOG || id == block::LEAVES {
                    world.set(x, y, z, block::AIR);
                }
                assert(world@ =~= trees_cleared_in(col_start, cx as int, cz as int, r, dx as int, dx as int, dz as int, dz as int, y as int));
                y += 1;
            }
            assert(world@ =~= trees_cleared_in(row_start, cx as int, cz as int, r, -r, dx as int, dz as int, dz as int, ny));
            dx += 1;
        }
        assert(world@ =~= trees_cleared_in(g0, cx as int, cz as int, r, -r, r, -r, dz as int, ny));
        dz += 1;
    }
}

/// `p` is the surface voxel of its column.
pub open spec fn on_surface(hm: Heightmap, p: Voxel) -> bool {
    hm.surface(p.0, p.2) matches Some(t) && t == p.1
}

/// `g` with the netherrack surface blocks of the columns of the disc of
/// radius `r` around `(cx, cz)` whose offsets lie in `dx0..=dx1`,
/// `dz0..=dz1` turned into `nylium`.
pub open spec fn nylium_in(
    g: Grid,
    hm: Heightmap,
    cx: int,
    cz: int,
    r: int,
    dx0: int,
    dx1: int,
    dz0: int,
    dz1: int,
    nylium: u8,
) -> Grid {
    Map::new(
        |p: Voxel| g.dom().contains(p),
        |p: Voxel|
            if in_disc(p.0 - cx, p.2 - cz, r) && dx0 <= p.0 - cx <= dx1 && dz0 <= p.2 - cz <= dz1 && on_surface(hm, p)
                && g[p] == block::NETHERRACK {
                nylium
            } else {
                g[p]
            },
    )
}

/// Turns the netherrack surface of the disc of radius `r` around `(cx, cz)`
/// into `nylium_id` (crimson or warped): the ground under a giant fungus.
pub fn build_nylium_patch(world: &mut World, hm: &Heightmap, cx: i32, cz: i32, r: i32, nylium_id: u8)
    requires
        old(world).wf(),
        hm.wf(),
        disc_fits(cx as int, cz as int, r as int),
    ensures
        final(world).wf(),
        final(world).same_dims(old(world)),
        final(world)@ == nylium_in(old(world)@, *hm, cx as int, cz as int, r as int, -r, r as int, -r, r as int, nylium_id),
{
    let ghost g0 = world@;
    let ghost ri = r as int;
    proof {
        lemma_disc_radius(ri);
    }
    let mut dz: i32 = -r;
    assert(g0 =~= nylium_in(g0, *hm, cx as int, cz as int, ri, -ri, ri, -ri, dz - 1, nylium_id));
    while dz <= r
        invariant
            world.wf(),
            world.same_dims(old(world)),
            hm.wf(),
            ri == r,
            disc_fits(cx as int, cz as int, ri),
            -0x8000 <= ri <= 0x8000,
            -r <= dz <= r + 1 || dz == -r,
            world@ == nylium_in(g0, *hm, cx as int, cz as int, ri, -ri, ri, -ri, dz - 1, nylium_id),
        decreases r + 1 - dz,
    {
        let ghost row_start = world@;
        let mut dx: i32 = -r;
        assert(row_start =~= nylium_in(row_start, *hm, cx as int, cz as int, ri, -ri, dx - 1, dz as int, dz as int, nylium_id));
        while dx <= r
            invariant
                world.wf(),
                world.same_dims(old(world)),
                hm.wf(),
                ri == r,
                disc_fits(cx as int, cz as int, ri),
                -0x8000 <= ri <= 0x8000,
                -r <= dz <= r,
                -r <= dx <= r + 1 || dx == -r,
                world@ == nylium_in(row_start, *hm, cx as int, cz as int, ri, -ri, dx - 1, dz as int, dz as int, nylium_id),
            decreases r + 1 - dx,
        {
            proof {
                lemma_disc_terms(dx as int, dz as int, ri);
            }
            if dx * dx + dz * dz <= r * r {
                let x = cx + dx;
                let z = cz + dz;
                if let Some(y) = hm.top_at(x, z) {
                    if world.get(x, y, z) == block::NETHERRACK {
                        world.set(x, y, z, nylium_id);
                    }
                }
            }
            assert(world@ =~= nylium_in(row_start, *hm, cx as int, cz as int, ri, -ri, dx as int, dz as int, dz as int, nylium_id));
            dx += 1;
        }
        assert(world@ =~= nylium_in(g0, *hm, cx as int, cz as int, ri, -ri, ri, -ri, dz as int, nylium_id));
        dz += 1;
    }
}

/// `g` after the street light at `(x, z)`: where the column's surface is
/// grass or sand, a two-block log post on it topped by glowstone.
pub open spec fn street_light(g: Grid, hm: Heightmap, x: int, z: int) -> Grid {
    match hm.surface(x, z) {
        Some(y) => {
            let top = block_at(g, vox(x, y as int, z));
            if top == block::GRASS || top == block::SAND {
                let g1 = painted(g, vox(x, y + 1, z), vox(x, y + 2, z), block::OAK_LOG);
                placed(g1, vox(x, y + 3, z), block::GLOWSTONE)
            } else {
                g
            }
        },
        None => g,
    }
}

/// `g` after the street lights of the first `n` points, in order.
pub open spec fn street_lights(g: Grid, hm: Heightmap, points: Seq<(i32, i32)>, n: nat) -> Grid
    decreases n,
{
    if n == 0 {
        g
    } else {
        let prev = street_lights(g, hm, points, (n - 1) as nat);
        street_light(prev, hm, points[n - 1].0 as int, points[n - 1].1 as int)
    }
}

/// The surface under each point leaves room for a light three blocks above it.
pub open spec fn lights_fit(hm: Heightmap, points: Seq<(i32, i32)>) -> bool {
    forall|i: int|
        0 <= i < points.len() ==> (#[trigger] hm.surface(points[i].0 as int, points[i].1 as int) matches Some(t) ==> t
            + 3 <= i32::MAX)
}

/// Puts a street light (a log post with glowstone on top) at each point
/// whose surface is grass or sand; other points are skipped.
pub fn build_path_lights(world: &mut World, hm: &Heightmap, points: &[(i32, i32)])
    requires
        old(world).wf(),
        hm.wf(),
        lights_fit(*hm, points@),
    ensures
        final(world).wf(),
        final(world).same_dims(old(world)),
        final(world)@ == street_lights(old(world)@, *hm, points@, points@.len()),
{
    let mut i: usize = 0;
    while i < points.len()
        invariant
            world.wf(),
            world.same_dims(old(world)),
            hm.wf(),
            lights_fit(*hm, points@),
            0 <= i <= points@.len(),
            world@ == street_lights(old(world)@, *hm, points@, i as nat),
        decreases points@.len() - i,
    {
        let (x, z) = points[i];
        let ghost prev = world@;
        match hm.top_at(x, z) {
            Some(y) => {
                assert(hm.surface(points@[i as int].0 as int, points@[i as int].1 as int) matches Some(t) ==> t + 3 <= i32::MAX);
                let top = world.get(x, y, z);
                if top == block::GRASS || top == block::SAND {
                    place_pillar(world, x, z, y + 1, y + 2, block::OAK_LOG);
                    world.set(x, y + 3, z, block::GLOWSTONE);
                }
            },
            None => {},
        }
        assert(world@ == street_light(prev, *hm, x as int, z as int));
        i += 1;
    }
}

pub open spec fn in_i32(v: int) -> bool {
    i32::MIN <= v <= i32::MAX
}

/// `g` with the first `n` columns of one stair step painted: column `w`
/// stands at `(cx + px * w, cz + pz * w)` and spans `yb..=y`.
pub open spec fn stair_columns(g: Grid, cx: int, cz: int, yb: int, y: int, px: int, pz: int, n: nat, id: u8) -> Grid
    decreases n,
{
    if n == 0 {
        g
    } else {
        let w = n - 1;
        let prev = stair_columns(g, cx, cz, yb, y, px, pz, (n - 1) as nat, id);
        painted(prev, vox(cx + px * w, yb, cz + pz * w), vox(cx + px * w, y, cz + pz * w), id)
    }
}

/// `g` with the first `n` steps of a staircase: step `s` is `width` columns
/// wide, starts at `(x0 + sdx * s, z0 + sdz * s)`, runs across the stair
/// direction, and rises from `yb` to `yb + s`.
pub open spec fn stair_steps(g: Grid, x0: int, z0: int, yb: int, sdx: int, sdz: int, width: int, n: nat, id: u8) -> Grid
    decreases n,
{
    if n == 0 {
        g
    } else {
        let s = n - 1;
        let prev = stair_steps(g, x0, z0, yb, sdx, sdz, width, (n - 1) as nat, id);
        stair_columns(prev, x0 + sdx * s, z0 + sdz * s, yb, yb + s, -sdz, sdx, nonneg(width), id)
    }
}

/// The coordinates computed for step `s` fit in `i32`.
pub open spec fn stair_step_fits(x0: int, z0: int, yb: int, sdx: int, sdz: int, s: int) -> bool {
    &&& in_i32(sdx * s)
    &&& in_i32(sdz * s)
    &&& in_i32(x0 + sdx * s)
    &&& in_i32(z0 + sdz * s)
    &&& in_i32(yb + s)
}

/// The coordinates computed for column `w` of step `s` fit in `i32`.
pub open spec fn stair_column_fits(x0: int, z0: int, sdx: int, sdz: int, s: int, w: int) -> bool {
    &&& in_i32((-sdz) * w)
    &&& in_i32(sdx * w)
    &&& in_i32(x0 + sdx * s + (-sdz) * w)
    &&& in_i32(z0 + sdz * s + sdx * w)
}

/// Every coordinate a staircase computes fits in `i32`.
pub open spec fn stairs_fit(x0: int, z0: int, yb: int, sdx: int, sdz: int, steps: int, width: int) -> bool {
    &&& sdz > i32::MIN
    &&& forall|s: int| 0 <= s < steps ==> #[trigger] stair_step_fits(x0, z0, yb, sdx, sdz, s)
    &&& forall|s: int, w: int|
        0 <= s < steps && 0 <= w < width ==> #[trigger] stair_column_fits(x0, z0, sdx, sdz, s, w)
}

/// A staircase of `steps` steps, `width` blocks wide, advancing by
/// `(step_dx, step_dz)` per step and rising one block per step; each step
/// is filled down to `y_base`.
pub fn place_stairs_like(
    world: &mut World,
    x0: i32,
    z0: i32,
    y_base: i32,
    step_dx: i32,
    step_dz: i32,
    steps: i32,
    width: i32,
    id: u8,
)
    requires
        old(world).wf(),
        stairs_fit(x0 as int, z0 as int, y_base as int, step_dx as int, step_dz as int, steps as int, width as int),
    ensures
        final(world).wf(),
        final(world).same_dims(old(world)),
        final(world)@ == stair_steps(
            old(world)@,
            x0 as int,
            z0 as int,
            y_base as int,
            step_dx as int,
            step_dz as int,
            width as int,
            nonneg(steps as int),
            id,
        ),
{
    let (perp_x, perp_z) = (-step_dz, step_dx);
    let mut s: i32 = 0;
    while s < steps
        invariant
            world.wf(),
            world.same_dims(old(world)),
            stairs_fit(x0 as int, z0 as int, y_base as int, step_dx as int, step_dz as int, steps as int, width as int),
            perp_x == -step_dz,
            perp_z == step_dx,
            0 <= s,
            s <= steps || s == 0,
            world@ == stair_steps(old(world)@, x0 as int, z0 as int, y_base as int, step_dx as int, step_dz as int, width as int, s as nat, id),
        decreases steps - s,
    {
        assert(stair_step_fits(x0 as int, z0 as int, y_base as int, step_dx as int, step_dz as int, s as int));
        let cx = x0 + step_dx * s;
        let cz = z0 + step_dz * s;
        let y = y_base + s;
        let ghost step_start = world@;
        let mut w: i32 = 0;
        while w < width
            invariant
                world.wf(),
                world.same_dims(old(world)),
                stairs_fit(x0 as int, z0 as int, y_base as int, step_dx as int, step_dz as int, steps as int, width as int),
                perp_x == -step_dz,
                perp_z == step_dx,
                0 <= s < steps,
                cx == x0 + step_dx * s,
                cz == z0 + step_dz * s,
                y == y_base + s,
                0 <= w,
                w <= width || w == 0,
                world@ == stair_columns(step_start, cx as int, cz as int, y_base as int, y as int, perp_x as int, perp_z as int, w as nat, id),
            decreases width - w,
        {
            assert(stair_column_fits(x0 as int, z0 as int, step_dx as int, step_dz as int, s as int, w as int));
            let wx = cx + perp_x * w;
            let wz = cz + perp_z * w;
            world.fill_box((wx, y_base, wz), (wx, y, wz), id);
            w += 1;
        }
        assert(world@ == stair_columns(step_start, cx as int, cz as int, y_base as int, y as int, perp_x as int, perp_z as int, nonneg(width as int), id));
        s += 1;
    }
}

/// `g` with `id` at height `y` on the columns of the disc of radius `r`
/// around `(cx, cz)` whose offsets lie in `dx0..=dx1`, `dz0..=dz1`.
pub open spec fn disc_filled_in(
    g: Grid,
    cx: int,
    y: int,
    cz: int,
    r: int,
    dx0: int,
    dx1: int,
    dz0: int,
    dz1: int,
    id: u8,
) -> Grid {
    Map::new(
        |p: Voxel| g.dom().contains(p),
        |p: Voxel|
            if p.1 == y && in_disc(p.0 - cx, p.2 - cz, r) && dx0 <= p.0 - cx <= dx1 && dz0 <= p.2 - cz <= dz1 {
                id
            } else {
                g[p]
            },
    )
}

/// One planting attempt of a garden from the generator state `s`: a spot
/// within four blocks of the centre is drawn; near the fountain it is
/// skipped, elsewhere it gets a leaf block, doubled in height with
/// probability 0.4. Gives the grid, the generator state after the draws, and
/// whether a shrub was planted.
pub open spec fn shrub_attempt(g: Grid, s: (u64, u64), cx: int, y: int, cz: int) -> (Grid, (u64, u64), bool) {
    let dx = drawn_in_range(s, -4, 4);
    let s1 = advanced(s);
    let dz = drawn_in_range(s1, -4, 4);
    let s2 = advanced(s1);
    if dx * dx + dz * dz <= 9 {
        (g, s2, false)
    } else {
        let g1 = placed(g, vox(cx + dx, y + 1, cz + dz), block::LEAVES);
        let g2 = if drawn_chance(s2, CHANCE_40) { placed(g1, vox(cx + dx, y + 2, cz + dz), block::LEAVES) } else { g1 };
        (g2, advanced(s2), true)
    }
}

/// The shrubs of a garden planted from the generator state `s`, with
/// `planted` shrubs planted after `attempts` attempts; planting stops at
/// six shrubs or sixty attempts.
pub open spec fn shrubs(g: Grid, s: (u64, u64), cx: int, y: int, cz: int, planted: int, attempts: int) -> Grid
    decreases 60 - attempts,
{
    if planted < 6 && attempts < 60 {
        let (g1, s1, hit) = shrub_attempt(g, s, cx, y, cz);
        shrubs(g1, s1, cx, y, cz, if hit { planted + 1 } else { planted }, attempts + 1)
    } else {
        g
    }
}

/// The garden grown with `seed` centred on `(cx, cz)`.
pub open spec fn garden_built(g: Grid, ny: int, hm: Heightmap, cx: int, cz: int, seed: u32) -> Grid {
    let b = base_height(hm, ny, cx, cz);
    let g1 = flattened(g, ny, cx - 5, cz - 5, cx + 5, cz + 5, b, block::GRASS);
    let g2 = disc_filled_in(g1, cx, b + 1, cz, 2, -2, 2, -2, 2, block::WATER);
    let g3 = placed(g2, vox(cx, b + 1, cz), block::IRON_BLOCK);
    shrubs(g3, seeded(seed, 0xDEAD_BEEF, 0x0A2D_E100), cx, b, cz, 0, 0)
}

/// A garden: an 11x11 levelled lawn with a round pond holding an iron
/// fountain in the middle, and up to six shrubs scattered around it from
/// `seed`.
pub fn build_garden(world: &mut World, hm: &Heightmap, cx: i32, cz: i32, seed: u32)
    requires
        old(world).wf(),
        old(world).ny > i32::MIN,
        hm.wf(),
        has_room(base_height(*hm, old(world).ny as int, cx as int, cz as int), 4, 12),
        has_room(cx as int, 5, 5),
        has_room(cz as int, 5, 5),
    ensures
        final(world).wf(),
        final(world).same_dims(old(world)),
        final(world)@ == garden_built(old(world)@, old(world).ny as int, *hm, cx as int, cz as int, seed),
{
    let base_y = base_y(world, hm, cx, cz);
    flatten_area(world, cx - 5, cz - 5, cx + 5, cz + 5, base_y, block::GRASS);
    let ghost g1 = world@;

    let r: i32 = 2;
    let mut dz: i32 = -r;
    assert(g1 =~= disc_filled_in(g1, cx as int, base_y + 1, cz as int, 2, -2, 2, -2, dz - 1, block::WATER));
    while dz <= r
        invariant
            world.wf(),
            world.same_dims(old(world)),
            r == 2,
            has_room(base_y as int, 4, 12),
            has_room(cx as int, 5, 5),
            has_room(cz as int, 5, 5),
            -2 <= dz <= 3,
            world@ == disc_filled_in(g1, cx as int, base_y + 1, cz as int, 2, -2, 2, -2, dz - 1, block::WATER),
        decreases 3 - dz,
    {
        let ghost row_start = world@;
        let mut dx: i32 = -r;
        assert(row_start =~= disc_filled_in(row_start, cx as int, base_y + 1, cz as int, 2, -2, dx - 1, dz as int, dz as int, block::WATER));
        while dx <= r
            invariant
                world.wf(),
                world.same_dims(old(world)),
                r == 2,
                has_room(base_y as int, 4, 12),
                has_room(cx as int, 5, 5),
                has_room(cz as int, 5, 5),
                -2 <= dz <= 2,
                -2 <= dx <= 3,
                world@ == disc_filled_in(row_start, cx as int, base_y + 1, cz as int, 2, -2, dx - 1, dz as int, dz as int, block::WATER),
            decreases 3 - dx,
        {
            assert(0 <= dx * dx <= 4 && 0 <= dz * dz <= 4) by (nonlinear_arith)
                requires
                    -2 <= dx <= 2,
                    -2 <= dz <= 2,
            ;
            if dx * dx + dz * dz <= r * r {
                world.set(cx + dx, base_y + 1, cz + dz, block::WATER);
            }
            assert(world@ =~= disc_filled_in(row_start, cx as int, base_y + 1, cz as int, 2, -2, dx as int, dz as int, dz as int, block::WATER));
            dx += 1;
        }
        assert(world@ =~= disc_filled_in(g1, cx as int, base_y + 1, cz as int, 2, -2, 2, -2, dz as int, block::WATER));
        dz += 1;
    }
    world.set(cx, base_y + 1, cz, block::IRON_BLOCK);
    let ghost g3 = world@;

    let mut rng = Pcg32::new(seed as u64 ^ 0xDEAD_BEEF, 0x0A2D_E100);
    let mut placed: i32 = 0;
    let mut attempts: i32 = 0;
    while placed < 6 && attempts < 60
        invariant
            world.wf(),
            world.same_dims(old(world)),
            r == 2,
            has_room(base_y as int, 4, 12),
            has_room(cx as int, 5, 5),
            has_room(cz as int, 5, 5),
            0 <= placed <= 6,
            0 <= attempts <= 60,
            shrubs(world@, rng@, cx as int, base_y as int, cz as int, placed as int, attempts as int)
                == shrubs(g3, seeded(seed, 0xDEAD_BEEF, 0x0A2D_E100), cx as int, base_y as int, cz as int, 0, 0),
        decreases 60 - attempts,
    {
        let ghost g = world@;
        let ghost s = rng@;
        attempts += 1;
        let bx = cx + rng.range_i32(-4, 4);
        let bz = cz + rng.range_i32(-4, 4);
        assert(0 <= (bx - cx) * (bx - cx) <= 16 && 0 <= (bz - cz) * (bz - cz) <= 16) by (nonlinear_arith)
            requires
                -4 <= bx - cx <= 4,
                -4 <= bz - cz <= 4,
        ;
        if (bx - cx) * (bx - cx) + (bz - cz) * (bz - cz) <= (r + 1) * (r + 1) {
            assert(shrub_attempt(g, s, cx as int, base_y as int, cz as int) == (world@, rng@, false));
            continue;  // not on top of the fountain
        }
        world.set(bx, base_y + 1, bz, block::LEAVES);
        if rng.chance(CHANCE_40) {
            world.set(bx, base_y + 2, bz, block::LEAVES);
        }
        assert(shrub_attempt(g, s, cx as int, base_y as int, cz as int) == (world@, rng@, true));
        placed += 1;
    }
}

/// The generator state of a generator seeded with `seed ^ salt` on the
/// stream `seq`.
pub open spec fn seeded(seed: u32, salt: u64, seq: u64) -> (u64, u64) {
    (pcg_seeded_state((seed as u64) ^ salt, seq), pcg_increment(seq))
}

/// The surface of column `(x, z)`, where there is one, leaves room for
/// `hi` blocks above it.
pub open spec fn column_room(hm: Heightmap, x: int, z: int, hi: int) -> bool {
    hm.surface(x, z) matches Some(t) ==> t + hi <= i32::MAX
}

/// The surfaces of the columns of the disc of radius `r` around `(cx, cz)`
/// leave room for `hi` blocks above them.
pub open spec fn disc_room(hm: Heightmap, cx: int, cz: int, r: int, hi: int) -> bool {
    forall|x: int, z: int| in_disc(x - cx, z - cz, r) ==> #[trigger] column_room(hm, x, z, hi)
}

/// The surfaces of the columns within `d` of `(cx, cz)` on both axes leave
/// room for `hi` blocks above them.
pub open spec fn square_room(hm: Heightmap, cx: int, cz: int, d: int, hi: int) -> bool {
    forall|x: int, z: int| -d <= x - cx <= d && -d <= z - cz <= d ==> #[trigger] column_room(hm, x, z, hi)
}

/// Grid and generator state after the soul-sand column `(x, z)`: its
/// surface turns to soul sand, with a soul fire on it with probability
/// 0.35; columns off the island are left alone and draw nothing.
pub open spec fn soul_column(gs: (Grid, (u64, u64)), hm: Heightmap, x: int, z: int) -> (Grid, (u64, u64)) {
    match hm.surface(x, z) {
        Some(y) => {
            let g1 = placed(gs.0, vox(x, y as int, z), block::SOUL_SAND);
            let g2 = if drawn_chance(gs.1, CHANCE_35) { placed(g1, vox(x, y + 1, z), block::SOUL_FIRE) } else { g1 };
            (g2, advanced(gs.1))
        },
        None => gs,
    }
}

/// The first `n` columns `dx = -r, -r + 1, ...` of the row `dz` of a
/// soul-sand patch of radius `r`.
pub open spec fn soul_row(gs: (Grid, (u64, u64)), hm: Heightmap, cx: int, cz: int, r: int, dz: int, n: nat) -> (Grid, (u64, u64))
    decreases n,
{
    if n == 0 {
        gs
    } else {
        let dx = -r + n - 1;
        let prev = soul_row(gs, hm, cx, cz, r, dz, (n - 1) as nat);
        if in_disc(dx, dz, r) { soul_column(prev, hm, cx + dx, cz + dz) } else { prev }
    }
}

/// The first `n` rows `dz = -r, -r + 1, ...` of a soul-sand patch of radius `r`.
pub open spec fn soul_rows(gs: (Grid, (u64, u64)), hm: Heightmap, cx: int, cz: int, r: int, n: nat) -> (Grid, (u64, u64))
    decreases n,
{
    if n == 0 {
        gs
    } else {
        let prev = soul_rows(gs, hm, cx, cz, r, (n - 1) as nat);
        soul_row(prev, hm, cx, cz, r, -r + n - 1, nonneg(2 * r + 1))
    }
}

/// The soul-sand patch of radius `r` around `(cx, cz)` grown with `seed`.
pub open spec fn soul_patch_built(g: Grid, hm: Heightmap, cx: int, cz: int, r: int, seed: u32) -> Grid {
    soul_rows((g, seeded(seed, 0x50F1_0000, 0x17)), hm, cx, cz, r, nonneg(2 * r + 1)).0
}

/// A round patch of soul sand of radius `r` on the surface around
/// `(cx, cz)`, with blue soul fires on about a third of it, drawn from `seed`.
pub fn build_soul_fire_patch(world: &mut World, hm: &Heightmap, cx: i32, cz: i32, r: i32, seed: u32)
    requires
        old(world).wf(),
        hm.wf(),
        disc_fits(cx as int, cz as int, r as int),
        disc_room(*hm, cx as int, cz as int, r as int, 1),
    ensures
        final(world).wf(),
        final(world).same_dims(old(world)),
        final(world)@ == soul_patch_built(old(world)@, *hm, cx as int, cz as int, r as int, seed),
{
    let mut rng = Pcg32::new(seed as u64 ^ 0x50F1_0000, 0x17);
    let ghost start = (world@, rng@);
    let ghost ri = r as int;
    proof {
        lemma_disc_radius(ri);
    }
    let mut dz: i32 = -r;
    while dz <= r
        invariant
            world.wf(),
            world.same_dims(old(world)),
            hm.wf(),
            ri == r,
            disc_fits(cx as int, cz as int, ri),
            disc_room(*hm, cx as int, cz as int, ri, 1),
            -0x8000 <= ri <= 0x8000,
            -r <= dz <= r + 1 || dz == -r,
            start == (old(world)@, seeded(seed, 0x50F1_0000, 0x17)),
            (world@, rng@) == soul_rows(start, *hm, cx as int, cz as int, ri, (dz + r) as nat),
        decreases r + 1 - dz,
    {
        let ghost row_start = (world@, rng@);
        let mut dx: i32 = -r;
        while dx <= r
            invariant
                world.wf(),
                world.same_dims(old(world)),
                hm.wf(),
                ri == r,
                disc_fits(cx as int, cz as int, ri),
                disc_room(*hm, cx as int, cz as int, ri, 1),
                -0x8000 <= ri <= 0x8000,
                -r <= dz <= r,
                -r <= dx <= r + 1 || dx == -r,
                (world@, rng@) == soul_row(row_start, *hm, cx as int, cz as int, ri, dz as int, (dx + r) as nat),
            decreases r + 1 - dx,
        {
            let ghost before = (world@, rng@);
            proof {
                lemma_disc_terms(dx as int, dz as int, ri);
            }
            if dx * dx + dz * dz <= r * r {
                let x = cx + dx;
                let z = cz + dz;
                assert(column_room(*hm, x as int, z as int, 1));
                if let Some(y) = hm.top_at(x, z) {
                    world.set(x, y, z, block::SOUL_SAND);
                    if rng.chance(CHANCE_35) {
                        world.set(x, y + 1, z, block::SOUL_FIRE);
                    }
                }
                assert((world@, rng@) == soul_column(before, *hm, x as int, z as int));
            }
            dx += 1;
        }
        dz += 1;
    }
}

/// One fire-scattering attempt from the generator state `s`: a column
/// within `radius` of the centre on both axes is drawn, and if its surface
/// is netherrack or nylium a fire goes on top. Gives the grid, the state
/// after the draws and whether a fire was placed.
pub open spec fn fire_attempt(g: Grid, s: (u64, u64), hm: Heightmap, cx: int, cz: int, radius: int) -> (Grid, (u64, u64), bool) {
    let x = cx + drawn_in_range(s, -radius, radius);
    let s1 = advanced(s);
    let z = cz + drawn_in_range(s1, -radius, radius);
    let s2 = advanced(s1);
    match hm.surface(x, z) {
        Some(y) => {
            let top = block_at(g, vox(x, y as int, z));
            if top == block::NETHERRACK || top == block::CRIMSON_NYLIUM || top == block::WARPED_NYLIUM {
                (placed(g, vox(x, y + 1, z), block::FIRE), s2, true)
            } else {
                (g, s2, false)
            }
        },
        None => (g, s2, false),
    }
}

/// Fires scattered from the generator state `s`, with `planted` fires
/// placed after `attempts` attempts; scattering stops at `count` fires or
/// `20 * count` attempts.
pub open spec fn fires(
    g: Grid,
    s: (u64, u64),
    hm: Heightmap,
    cx: int,
    cz: int,
    radius: int,
    count: int,
    planted: int,
    attempts: int,
) -> Grid
    decreases count * 20 - attempts,
{
    if planted < count && attempts < count * 20 {
        let (g1, s1, hit) = fire_attempt(g, s, hm, cx, cz, radius);
        fires(g1, s1, hm, cx, cz, radius, count, if hit { planted + 1 } else { planted }, attempts + 1)
    } else {
        g
    }
}

proof fn lemma_fires_keep_fire(g: Grid, s: (u64, u64), hm: Heightmap, cx: int, cz: int, radius: int, count: int, planted: int, attempts: int, q: Voxel)
    requires
        block_at(g, q) == block::FIRE,
    ensures
        block_at(fires(g, s, hm, cx, cz, radius, count, planted, attempts), q) == block::FIRE,
    decreases count * 20 - attempts,
{
    if planted < count && attempts < count * 20 {
        let (g1, s1, hit) = fire_attempt(g, s, hm, cx, cz, radius);
        assert(block_at(g1, q) == block::FIRE);
        lemma_fires_keep_fire(g1, s1, hm, cx, cz, radius, count, if hit { planted + 1 } else { planted }, attempts + 1, q);
    }
}

/// Fire takes on netherrack and on both nyliums alike: when the first
/// column drawn from the generator state has a netherrack, crimson nylium
/// or warped nylium surface block, and at least one fire is asked for, the
/// result has a fire standing on that block; fires once lit stay.
pub proof fn lemma_fire_on_nether_ground(g: Grid, s: (u64, u64), hm: Heightmap, cx: int, cz: int, radius: int, count: int)
    requires
        count >= 1,
        ({
            let x = cx + drawn_in_range(s, -radius, radius);
            let z = cz + drawn_in_range(advanced(s), -radius, radius);
            &&& hm.surface(x, z) is Some
            &&& {
                let y = hm.surface(x, z)->Some_0 as int;
                let top = block_at(g, vox(x, y, z));
                &&& top == block::NETHERRACK || top == block::CRIMSON_NYLIUM || top == block::WARPED_NYLIUM
                &&& g.dom().contains(vox(x, y + 1, z))
            }
        }),
    ensures
        ({
            let x = cx + drawn_in_range(s, -radius, radius);
            let z = cz + drawn_in_range(advanced(s), -radius, radius);
            let y = hm.surface(x, z)->Some_0 as int;
            block_at(fires(g, s, hm, cx, cz, radius, count, 0, 0), vox(x, y + 1, z)) == block::FIRE
        }),
{
    let x = cx + drawn_in_range(s, -radius, radius);
    let z = cz + drawn_in_range(advanced(s), -radius, radius);
    let y = hm.surface(x, z)->Some_0 as int;
    let (g1, s1, hit) = fire_attempt(g, s, hm, cx, cz, radius);
    assert(hit);
    assert(block_at(g1, vox(x, y + 1, z)) == block::FIRE);
    lemma_fires_keep_fire(g1, s1, hm, cx, cz, radius, count, 1, 1, vox(x, y + 1, z));
}

/// Scatters up to `count` fires on netherrack or nylium surface within
/// `radius` of `(cx, cz)` on both axes, drawing the spots from `seed` and
/// giving up after `20 * count` attempts.
pub fn scatter_fire(world: &mut World, hm: &Heightmap, cx: i32, cz: i32, radius: i32, count: u32, seed: u32)
    requires
        old(world).wf(),
        hm.wf(),
        count * 20 <= u32::MAX,
        i32::MIN <= 2 * radius,
        2 * radius + 1 <= i32::MAX,
        has_room(cx as int, abs_int(radius as int), abs_int(radius as int)),
        has_room(cz as int, abs_int(radius as int), abs_int(radius as int)),
        square_room(*hm, cx as int, cz as int, abs_int(radius as int), 1),
    ensures
        final(world).wf(),
        final(world).same_dims(old(world)),
        final(world)@ == fires(
            old(world)@,
            seeded(seed, 0xF17E_0000, 0x42),
            *hm,
            cx as int,
            cz as int,
            radius as int,
            count as int,
            0,
            0,
        ),
{
    let mut rng = Pcg32::new(seed as u64 ^ 0xF17E_0000, 0x42);
    let mut placed: u32 = 0;
    let mut attempts: u32 = 0;
    while placed < count && attempts < count * 20
        invariant
            world.wf(),
            world.same_dims(old(world)),
            hm.wf(),
            count * 20 <= u32::MAX,
            i32::MIN <= 2 * radius,
            2 * radius + 1 <= i32::MAX,
            has_room(cx as int, abs_int(radius as int), abs_int(radius as int)),
            has_room(cz as int, abs_int(radius as int), abs_int(radius as int)),
            square_room(*hm, cx as int, cz as int, abs_int(radius as int), 1),
            attempts <= count * 20,
            fires(world@, rng@, *hm, cx as int, cz as int, radius as int, count as int, placed as int, attempts as int)
                == fires(old(world)@, seeded(seed, 0xF17E_0000, 0x42), *hm, cx as int, cz as int, radius as int, count as int, 0, 0),
        decreases count * 20 - attempts,
    {
        let ghost g = world@;
        let ghost s = rng@;
        attempts += 1;
        let x = cx + rng.range_i32(-radius, radius);
        let z = cz + rng.range_i32(-radius, radius);
        assert(column_room(*hm, x as int, z as int, 1));
        let y = match hm.top_at(x, z) {
            Some(y) => y,
            None => {
                assert(fire_attempt(g, s, *hm, cx as int, cz as int, radius as int) == (world@, rng@, false));
                continue;
            },
        };
        let top = world.get(x, y, z);
        if top != block::NETHERRACK && top != block::CRIMSON_NYLIUM && top != block::WARPED_NYLIUM {
            assert(fire_attempt(g, s, *hm, cx as int, cz as int, radius as int) == (world@, rng@, false));
            continue;
        }
        world.set(x, y + 1, z, block::FIRE);
        assert(fire_attempt(g, s, *hm, cx as int, cz as int, radius as int) == (world@, rng@, true));
        placed += 1;
    }
}

/// A chorus stalk grown `n` blocks up from `(px, py, pz)` with the
/// generator state `s`: each block goes one higher, drifting by `-1..=1` on
/// both axes with probability 0.3. Gives the grid, the generator state and
/// the position of the stalk's top.
pub open spec fn stalk(g: Grid, s: (u64, u64), px: int, py: int, pz: int, n: nat) -> (Grid, (u64, u64), int, int, int)
    decreases n,
{
    if n == 0 {
        (g, s, px, py, pz)
    } else {
        let (g1, s1, x1, y1, z1) = stalk(g, s, px, py, pz, (n - 1) as nat);
        let s2 = advanced(s1);
        let (x2, z2, s3) = if drawn_chance(s1, CHANCE_30) {
            (x1 + drawn_in_range(s2, -1, 1), z1 + drawn_in_range(advanced(s2), -1, 1), advanced(advanced(s2)))
        } else {
            (x1, z1, s2)
        };
        (placed(g1, vox(x2, y1 + 1, z2), block::CHORUS_PLANT), s3, x2, y1 + 1, z2)
    }
}

/// One planting attempt of a chorus grove from the generator state `s`: a
/// column within four blocks of the centre is drawn, and if its surface is
/// end stone a stalk four to seven blocks high grows there, topped by a
/// chorus flower. Gives the grid, the state after the draws and whether a
/// plant grew.
pub open spec fn chorus_attempt(g: Grid, s: (u64, u64), hm: Heightmap, cx: int, cz: int) -> (Grid, (u64, u64), bool) {
    let x = cx + drawn_in_range(s, -4, 4);
    let s1 = advanced(s);
    let z = cz + drawn_in_range(s1, -4, 4);
    let s2 = advanced(s1);
    match hm.surface(x, z) {
        Some(y) => {
            if block_at(g, vox(x, y as int, z)) != block::END_STONE {
                (g, s2, false)
            } else {
                let h = drawn_in_range(s2, 4, 7);
                let (g1, s3, px, py, pz) = stalk(g, advanced(s2), x, y as int, z, h as nat);
                (placed(g1, vox(px, py + 1, pz), block::CHORUS), s3, true)
            }
        },
        None => (g, s2, false),
    }
}

/// A chorus grove grown from the generator state `s`, with `planted`
/// plants grown after `attempts` attempts; planting stops at `count` plants
/// or `20 * count` attempts.
pub open spec fn chorus_grove(
    g: Grid,
    s: (u64, u64),
    hm: Heightmap,
    cx: int,
    cz: int,
    count: int,
    planted: int,
    attempts: int,
) -> Grid
    decreases count * 20 - attempts,
{
    if planted < count && attempts < count * 20 {
        let (g1, s1, hit) = chorus_attempt(g, s, hm, cx, cz);
        chorus_grove(g1, s1, hm, cx, cz, count, if hit { planted + 1 } else { planted }, attempts + 1)
    } else {
        g
    }
}

/// A grove of up to `count` chorus plants on the end stone within four
/// blocks of `(cx, cz)`: stalks growing upwards with random sideways
/// drift, each topped by a chorus flower, drawn from `seed`.
pub fn build_chorus_grove(world: &mut World, hm: &Heightmap, cx: i32, cz: i32, count: u32, seed: u32)
    requires
        old(world).wf(),
        hm.wf(),
        count * 20 <= u32::MAX,
        has_room(cx as int, 11, 11),
        has_room(cz as int, 11, 11),
        square_room(*hm, cx as int, cz as int, 4, 8),
    ensures
        final(world).wf(),
        final(world).same_dims(old(world)),
        final(world)@ == chorus_grove(old(world)@, seeded(seed, 0x6C02_C0DE, 0x0E27), *hm, cx as int, cz as int, count as int, 0, 0),
{
    let mut rng = Pcg32::new(seed as u64 ^ 0x6C02_C0DE, 0x0E27);
    let mut placed: u32 = 0;
    let mut attempts: u32 = 0;
    while placed < count && attempts < count * 20
        invariant
            world.wf(),
            world.same_dims(old(world)),
            hm.wf(),
            count * 20 <= u32::MAX,
            has_room(cx as int, 11, 11),
            has_room(cz as int, 11, 11),
            square_room(*hm, cx as int, cz as int, 4, 8),
            attempts <= count * 20,
            chorus_grove(world@, rng@, *hm, cx as int, cz as int, count as int, placed as int, attempts as int)
                == chorus_grove(old(world)@, seeded(seed, 0x6C02_C0DE, 0x0E27), *hm, cx as int, cz as int, count as int, 0, 0),
        decreases count * 20 - attempts,
    {
        let ghost g = world@;
        let ghost s = rng@;
        attempts += 1;
        let x = cx + rng.range_i32(-4, 4);
        let z = cz + rng.range_i32(-4, 4);
        assert(column_room(*hm, x as int, z as int, 8));
        let y = match hm.top_at(x, z) {
            Some(y) => y,
            None => {
                assert(chorus_attempt(g, s, *hm, cx as int, cz as int) == (world@, rng@, false));
                continue;
            },
        };
        if world.get(x, y, z) != block::END_STONE {
            assert(chorus_attempt(g, s, *hm, cx as int, cz as int) == (world@, rng@, false));
            continue;
        }
        let (mut px, mut pz, mut py) = (x, z, y);
        let h = rng.range_i32(4, 7);
        let ghost stalk_start = (world@, rng@);
        let mut k: i32 = 0;
        while k < h
            invariant
                world.wf(),
                world.same_dims(old(world)),
                has_room(cx as int, 11, 11),
                has_room(cz as int, 11, 11),
                -4 <= x - cx <= 4,
                -4 <= z - cz <= 4,
                y + 8 <= i32::MAX,
                4 <= h <= 7,
                0 <= k <= h,
                -k <= px - x <= k,
                -k <= pz - z <= k,
                py == y + k,
                (world@, rng@, px as int, py as int, pz as int)
                    == stalk(stalk_start.0, stalk_start.1, x as int, y as int, z as int, k as nat),
            decreases h - k,
        {
            py += 1;
            if rng.chance(CHANCE_30) {
                px += rng.range_i32(-1, 1);
                pz += rng.range_i32(-1, 1);
            }
            world.set(px, py, pz, block::CHORUS_PLANT);
            k += 1;
        }
        world.set(px, py + 1, pz, block::CHORUS);
        assert(chorus_attempt(g, s, *hm, cx as int, cz as int) == (world@, rng@, true));
        placed += 1;
    }
}

/// Grid and generator state after the cap cell at offset `(dx, dz)` of a
/// fungus cap layer of radius `r` at height `cy` over the stem at
/// `(cx, cz)`: the stem's own column and cells outside the radius are
/// skipped, and cells exactly on the radius are left out with probability
/// 0.35 (one draw each) for a ragged rim.
pub open spec fn cap_cell(gs: (Grid, (u64, u64)), cx: int, cy: int, cz: int, r: int, dx: int, dz: int, wart: u8) -> (Grid, (u64, u64)) {
    let d2 = dx * dx + dz * dz;
    if d2 > r * r || (dx == 0 && dz == 0) {
        gs
    } else if d2 == r * r {
        if drawn_chance(gs.1, CHANCE_35) {
            (gs.0, advanced(gs.1))
        } else {
            (placed(gs.0, vox(cx + dx, cy, cz + dz), wart), advanced(gs.1))
        }
    } else {
        (placed(gs.0, vox(cx + dx, cy, cz + dz), wart), gs.1)
    }
}

/// The first `n` cells `dx = -r, -r + 1, ...` of the row `dz` of a cap layer.
pub open spec fn cap_row(gs: (Grid, (u64, u64)), cx: int, cy: int, cz: int, r: int, dz: int, n: nat, wart: u8) -> (Grid, (u64, u64))
    decreases n,
{
    if n == 0 {
        gs
    } else {
        cap_cell(cap_row(gs, cx, cy, cz, r, dz, (n - 1) as nat, wart), cx, cy, cz, r, -r + n - 1, dz, wart)
    }
}

/// The first `n` rows `dz = -r, -r + 1, ...` of a cap layer.
pub open spec fn cap_layer(gs: (Grid, (u64, u64)), cx: int, cy: int, cz: int, r: int, n: nat, wart: u8) -> (Grid, (u64, u64))
    decreases n,
{
    if n == 0 {
        gs
    } else {
        cap_row(cap_layer(gs, cx, cy, cz, r, (n - 1) as nat, wart), cx, cy, cz, r, -r + n - 1, nonneg(2 * r + 1), wart)
    }
}

/// Radius of layer `layer` of a fungus cap: three, and two for the top one.
pub open spec fn cap_radius(layer: int) -> int {
    if layer == 2 { 2 } else { 3 }
}

/// The first `n` layers of a fungus cap whose lowest layer lies at `cy`.
pub open spec fn fungus_cap(gs: (Grid, (u64, u64)), cx: int, cy: int, cz: int, n: nat, wart: u8) -> (Grid, (u64, u64))
    decreases n,
{
    if n == 0 {
        gs
    } else {
        let layer = n - 1;
        let r = cap_radius(layer);
        cap_layer(fungus_cap(gs, cx, cy, cz, (n - 1) as nat, wart), cx, cy + layer, cz, r, nonneg(2 * r + 1), wart)
    }
}

/// The cap of a giant fungus: three layers of wart blocks (radius three,
/// three and two) from `canopy_y` up around the stem at `(cx, cz)`, with a
/// ragged rim drawn from `rng`.
pub fn build_fungus_cap(world: &mut World, cx: i32, canopy_y: i32, cz: i32, wart_id: u8, rng: &mut Pcg32)
    requires
        old(world).wf(),
        has_room(cx as int, 3, 3),
        has_room(cz as int, 3, 3),
        canopy_y + 2 <= i32::MAX,
    ensures
        final(world).wf(),
        final(world).same_dims(old(world)),
        (final(world)@, final(rng)@) == fungus_cap((old(world)@, old(rng)@), cx as int, canopy_y as int, cz as int, 3, wart_id),
{
    let ghost start = (world@, rng@);
    let r: i32 = 3;
    let mut layer: i32 = 0;
    while layer < 3
        invariant
            world.wf(),
            world.same_dims(old(world)),
            has_room(cx as int, 3, 3),
            has_room(cz as int, 3, 3),
            canopy_y + 2 <= i32::MAX,
            r == 3,
            0 <= layer <= 3,
            start == (old(world)@, old(rng)@),
            (world@, rng@) == fungus_cap(start, cx as int, canopy_y as int, cz as int, layer as nat, wart_id),
        decreases 3 - layer,
    {
        let cy = canopy_y + layer;
        let lr: i32 = if layer == 2 { r - 1 } else { r };
        let ghost layer_start = (world@, rng@);
        let mut dz: i32 = -lr;
        while dz <= lr
            invariant
                world.wf(),
                world.same_dims(old(world)),
                has_room(cx as int, 3, 3),
                has_room(cz as int, 3, 3),
                0 <= layer < 3,
                lr == cap_radius(layer as int),
                -lr <= dz <= lr + 1,
                (world@, rng@) == cap_layer(layer_start, cx as int, cy as int, cz as int, lr as int, (dz + lr) as nat, wart_id),
            decreases lr + 1 - dz,
        {
            let ghost row_start = (world@, rng@);
            let mut dx: i32 = -lr;
            while dx <= lr
                invariant
                    world.wf(),
                    world.same_dims(old(world)),
                    has_room(cx as int, 3, 3),
                    has_room(cz as int, 3, 3),
                    0 <= layer < 3,
                    lr == cap_radius(layer as int),
                    -lr <= dz <= lr,
                    -lr <= dx <= lr + 1,
                    (world@, rng@) == cap_row(row_start, cx as int, cy as int, cz as int, lr as int, dz as int, (dx + lr) as nat, wart_id),
                decreases lr + 1 - dx,
            {
                let ghost before = (world@, rng@);
                assert(0 <= dx * dx <= 9 && 0 <= dz * dz <= 9) by (nonlinear_arith)
                    requires
                        -3 <= dx <= 3,
                        -3 <= dz <= 3,
                ;
                let d2 = dx * dx + dz * dz;
                if d2 > lr * lr || (dx == 0 && dz == 0) {
                } else if d2 == lr * lr && rng.chance(CHANCE_35) {
                    // ragged rim
                } else {
                    world.set(cx + dx, cy, cz + dz, wart_id);
                }
                assert((world@, rng@) == cap_cell(before, cx as int, cy as int, cz as int, lr as int, dx as int, dz as int, wart_id));
                dx += 1;
            }
            dz += 1;
        }
        layer += 1;
    }
}

/// `g` with `id` filling the layers `y0..=y1` of the disc of radius `r`
/// around `(c, c)`, for columns with offsets in `dx0..=dx1`, `dz0..=dz1`.
pub open spec fn disc_slab_in(g: Grid, c: int, r: int, y0: int, y1: int, dx0: int, dx1: int, dz0: int, dz1: int, id: u8) -> Grid {
    Map::new(
        |p: Voxel| g.dom().contains(p),
        |p: Voxel|
            if in_disc(p.0 - c, p.2 - c, r) && dx0 <= p.0 - c <= dx1 && dz0 <= p.2 - c <= dz1 && y0 <= p.1 <= y1 {
                id
            } else {
                g[p]
            },
    )
}

/// The grid of a small floating island of radius `radius`: a square grid two
/// blocks wider than the disc on every side, six blocks high, holding a
/// disc three blocks thick of `body` at the bottom, topped by a layer of
/// `top` when `top_layer`.
pub open spec fn disc_island(radius: int, body: u8, top: u8, top_layer: bool) -> Grid {
    let half = radius + 2;
    let size = 2 * half + 1;
    let g0 = Map::new(|p: Voxel| grid_domain(size, 6, size).contains(p), |p: Voxel| block::AIR);
    let g1 = disc_slab_in(g0, half, radius, 0, 2, -radius, radius, -radius, radius, body);
    if top_layer {
        disc_slab_in(g1, half, radius, 3, 3, -radius, radius, -radius, radius, top)
    } else {
        g1
    }
}

/// The grid of a small floating island: a disc of radius `radius`, three
/// blocks of `body` thick, centred in its own grid two blocks wider than the
/// disc on every side and six high, topped by a layer of `top` when
/// `top_layer`. The disc's centre lies at `(radius + 2, radius + 2)`.
pub fn disc_island_world(radius: i32, body: u8, top: u8, top_layer: bool) -> (w: World)
    requires
        i32::MIN <= 2 * radius + 5,
        (2 * radius + 5) * 6 * (2 * radius + 5) <= i32::MAX,
    ensures
        w.wf(),
        w.nx == 2 * radius + 5,
        w.ny == 6,
        w.nz == 2 * radius + 5,
        w@ == disc_island(radius as int, body, top, top_layer),
{
    assert(-0x2500 <= radius <= 0x2500) by (nonlinear_arith)
        requires
            (2 * radius + 5) * 6 * (2 * radius + 5) <= i32::MAX,
    {
        if radius > 0x2500 {
            assert((2 * radius + 5) * 6 * (2 * radius + 5) >= 0x4A05 * 6 * (2 * radius + 5));
            assert(0x4A05 * 6 * (2 * radius + 5) >= 0x4A05 * 6 * 0x4A05);
        }
        if radius < -0x2500 {
            assert(-(2 * radius + 5) >= 0x49F5);
            assert((2 * radius + 5) * 6 * (2 * radius + 5) == (-(2 * radius + 5)) * 6 * (-(2 * radius + 5)));
            assert((-(2 * radius + 5)) * 6 * (-(2 * radius + 5)) >= 0x49F5 * 6 * (-(2 * radius + 5)));
            assert(0x49F5 * 6 * (-(2 * radius + 5)) >= 0x49F5 * 6 * 0x49F5);
        }
    }
    let half = radius + 2;
    let size = half * 2 + 1;
    assert(i32::MIN <= size * 6 <= i32::MAX) by (nonlinear_arith)
        requires
            size == 2 * radius + 5,
            -0x2500 <= radius <= 0x2500,
    ;
    assert(0 <= size * 6 * size) by (nonlinear_arith);
    let mut world = World::new(size, 6, size);
    let ghost g0 = world@;
    assert(g0 =~= Map::new(|p: Voxel| grid_domain(size as int, 6, size as int).contains(p), |p: Voxel| block::AIR));
    let mut dz: i32 = -radius;
    assert(g0 =~= disc_slab_in(g0, half as int, radius as int, 0, 2, -radius, radius as int, -radius, dz - 1, body));
    assert(g0 =~= disc_slab_in(g0, half as int, radius as int, 3, 3, -radius, radius as int, -radius, dz - 1, top));
    let ghost g1 = disc_slab_in(g0, half as int, radius as int, 0, 2, -radius, radius as int, -radius, radius as int, body);
    while dz <= radius
        invariant
            world.wf(),
            world.nx == size,
            world.ny == 6,
            world.nz == size,
            half == radius + 2,
            -0x2500 <= radius <= 0x2500,
            -radius <= dz <= radius + 1 || dz == -radius,
            g1 == disc_slab_in(g0, half as int, radius as int, 0, 2, -radius, radius as int, -radius, radius as int, body),
            world@ == if top_layer {
                disc_slab_in(
                    disc_slab_in(g0, half as int, radius as int, 0, 2, -radius, radius as int, -radius, dz - 1, body),
                    half as int, radius as int, 3, 3, -radius, radius as int, -radius, dz - 1, top)
            } else {
                disc_slab_in(g0, half as int, radius as int, 0, 2, -radius, radius as int, -radius, dz - 1, body)
            },
        decreases radius + 1 - dz,
    {
        let ghost row_start = world@;
        let mut dx: i32 = -radius;
        while dx <= radius
            invariant
                world.wf(),
                world.nx == size,
                world.ny == 6,
                world.nz == size,
                half == radius + 2,
                -0x2500 <= radius <= 0x2500,
                -radius <= dz <= radius,
                -radius <= dx <= radius + 1,
                world@ == if top_layer {
                    disc_slab_in(
                        disc_slab_in(row_start, half as int, radius as int, 0, 2, -radius, dx - 1, dz as int, dz as int, body),
                        half as int, radius as int, 3, 3, -radius, dx - 1, dz as int, dz as int, top)
                } else {
                    disc_slab_in(row_start, half as int, radius as int, 0, 2, -radius, dx - 1, dz as int, dz as int, body)
                },
            decreases radius + 1 - dx,
        {
            assert(0 <= dx * dx <= radius * radius && 0 <= dz * dz <= radius * radius && radius * radius <= 0x600_0000) by (nonlinear_arith)
                requires
                    -radius <= dx <= radius,
                    -radius <= dz <= radius,
                    radius <= 0x2500,
            ;
            if dx * dx + dz * dz <= radius * radius {
                world.fill_box((half + dx, 0, half + dz), (half + dx, 2, half + dz), body);
                if top_layer {
                    world.set(half + dx, 3, half + dz, top);
                }
            }
            proof {
                if top_layer {
                    assert(world@ =~= disc_slab_in(
                        disc_slab_in(row_start, half as int, radius as int, 0, 2, -radius, dx as int, dz as int, dz as int, body),
                        half as int, radius as int, 3, 3, -radius, dx as int, dz as int, dz as int, top));
                } else {
                    assert(world@ =~= disc_slab_in(row_start, half as int, radius as int, 0, 2, -radius, dx as int, dz as int, dz as int, body));
                }
            }
            dx += 1;
        }
        proof {
            if top_layer {
                assert(world@ =~= disc_slab_in(
                    disc_slab_in(g0, half as int, radius as int, 0, 2, -radius, radius as int, -radius, dz as int, body),
                    half as int, radius as int, 3, 3, -radius, radius as int, -radius, dz as int, top));
            } else {
                assert(world@ =~= disc_slab_in(g0, half as int, radius as int, 0, 2, -radius, radius as int, -radius, dz as int, body));
            }
        }
        dz += 1;
    }
    world
}

// ---------- laws ----------

/// Levelling an area leaves each of its columns with the top block at
/// `target_y`, stone bricks in the four layers under it (down to the grid's
/// floor) and, when `target_y` is not below the floor, air in the twelve
/// above it (up to the grid's top); columns outside the area are untouched.
pub proof fn lemma_flatten_levels(
    g: Grid,
    ny: int,
    x0: int,
    z0: int,
    x1: int,
    z1: int,
    target_y: int,
    top: u8,
    p: Voxel,
)
    requires
        g.dom().contains(p),
    ensures
        flattened(g, ny, x0, z0, x1, z1, target_y, top).dom() == g.dom(),
        x0 <= p.0 <= x1 && z0 <= p.2 <= z1 && p.1 == target_y ==> flattened(g, ny, x0, z0, x1, z1, target_y, top)[p]
            == top,
        x0 <= p.0 <= x1 && z0 <= p.2 <= z1 && 0 <= target_y < p.1 <= target_y + 12 && p.1 < ny ==> flattened(
            g,
            ny,
            x0,
            z0,
            x1,
            z1,
            target_y,
            top,
        )[p] == block::AIR,
        x0 <= p.0 <= x1 && z0 <= p.2 <= z1 && target_y - 4 <= p.1 < target_y && 0 <= p.1 ==> flattened(
            g,
            ny,
            x0,
            z0,
            x1,
            z1,
            target_y,
            top,
        )[p] == block::STONE_BRICKS,
        !(x0 <= p.0 <= x1 && z0 <= p.2 <= z1) ==> flattened(g, ny, x0, z0, x1, z1, target_y, top)[p] == g[p],
{
    assert(flattened(g, ny, x0, z0, x1, z1, target_y, top).dom() =~= g.dom());
}

/// Clearing trees leaves no log or leaf block in the disc, at any height;
/// everything else stays as it was.
pub proof fn lemma_no_trees_left(g: Grid, ny: int, cx: int, cz: int, r: int, p: Voxel)
    requires
        g.dom().contains(p),
        p.1 < ny,
    ensures
        in_disc(p.0 - cx, p.2 - cz, r) ==> !is_tree_block(trees_cleared(g, ny, cx, cz, r)[p]),
        !in_disc(p.0 - cx, p.2 - cz, r) || !is_tree_block(g[p]) ==> trees_cleared(g, ny, cx, cz, r)[p] == g[p],
{
}

/// A nylium patch only ever turns netherrack surface blocks into nylium.
pub proof fn lemma_nylium_only_on_netherrack(g: Grid, hm: Heightmap, cx: int, cz: int, r: int, nylium: u8, p: Voxel)
    requires
        g.dom().contains(p),
    ensures
        nylium_in(g, hm, cx, cz, r, -r, r, -r, r, nylium)[p] != g[p] ==> g[p] == block::NETHERRACK && on_surface(hm, p)
            && nylium_in(g, hm, cx, cz, r, -r, r, -r, r, nylium)[p] == nylium,
{
}

/// The statue changes nothing outside its 5x5 patch of columns.
pub proof fn lemma_statue_footprint(g: Grid, ny: int, hm: Heightmap, cx: int, cz: int, p: Voxel)
    requires
        g.dom().contains(p),
        !(cx - 2 <= p.0 <= cx + 2 && cz - 2 <= p.2 <= cz + 2),
    ensures
        statue_built(g, ny, hm, cx, cz)[p] == g[p],
{
}

/// The lighthouse changes nothing outside its 9x9 patch of columns.
pub proof fn lemma_lighthouse_footprint(g: Grid, ny: int, hm: Heightmap, cx: int, cz: int, p: Voxel)
    requires
        g.dom().contains(p),
        !(cx - 4 <= p.0 <= cx + 4 && cz - 4 <= p.2 <= cz + 4),
    ensures
        lighthouse_built(g, ny, hm, cx, cz)[p] == g[p],
{
}

/// The cottage changes nothing outside its 11x11 patch of columns.
#[verifier::rlimit(100)]
pub proof fn lemma_house_footprint(g: Grid, ny: int, hm: Heightmap, cx: int, cz: int, p: Voxel)
    requires
        g.dom().contains(p),
        !(cx - 5 <= p.0 <= cx + 5 && cz - 5 <= p.2 <= cz + 5),
    ensures
        house_built(g, ny, hm, cx, cz)[p] == g[p],
{
}

/// The well changes nothing outside its 5x5 patch of columns.
pub proof fn lemma_well_footprint(g: Grid, ny: int, hm: Heightmap, cx: int, cz: int, p: Voxel)
    requires
        g.dom().contains(p),
        !(cx - 2 <= p.0 <= cx + 2 && cz - 2 <= p.2 <= cz + 2),
    ensures
        well_built(g, ny, hm, cx, cz)[p] == g[p],
{
}

/// The village tower changes nothing outside its 7x7 patch of columns.
pub proof fn lemma_village_tower_footprint(g: Grid, ny: int, hm: Heightmap, cx: int, cz: int, p: Voxel)
    requires
        g.dom().contains(p),
        !(cx - 3 <= p.0 <= cx + 3 && cz - 3 <= p.2 <= cz + 3),
    ensures
        village_tower_built(g, ny, hm, cx, cz)[p] == g[p],
{
}

/// The Nether portal changes nothing outside its 7x7 patch of columns.
pub proof fn lemma_portal_footprint(g: Grid, ny: int, hm: Heightmap, cx: int, cz: int, p: Voxel)
    requires
        g.dom().contains(p),
        !(cx - 3 <= p.0 <= cx + 3 && cz - 3 <= p.2 <= cz + 3),
    ensures
        portal_built(g, ny, hm, cx, cz)[p] == g[p],
{
}

} // verus!
