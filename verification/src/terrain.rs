use vstd::prelude::*;

use crate::block;
use crate::heightmap::Heightmap;
use crate::noise::{advanced, drawn_chance, drawn_in_range, pcg_output, Pcg32, CHANCE_35};
use crate::structures::{abs_int, column_room, has_room, nonneg, seeded, square_room, vox};
use crate::world::max_int;
use crate::world::{block_at, painted, placed, Grid, Voxel, World};

verus! {

/// Radius of canopy layer `layer` of a tree: two for the lower two, one
/// for the top.
pub open spec fn canopy_radius(layer: int) -> int {
    if layer == 2 { 1 } else { 2 }
}

/// Grid and generator state after the leaf at offset `(dx, dz)` of a canopy
/// layer of radius `r` at height `cy` over the trunk at `(x, z)`: the trunk's
/// own column is skipped in the lower two layers, cells outside the radius
/// are skipped, and cells exactly on it are left out with probability 0.35
/// (one draw each) for a ragged edge.
pub open spec fn leaf_cell(gs: (Grid, (u64, u64)), x: int, cy: int, z: int, r: int, layer: int, dx: int, dz: int) -> (Grid, (u64, u64)) {
    let d2 = dx * dx + dz * dz;
    if dx == 0 && dz == 0 && layer < 2 {
        gs
    } else if d2 > r * r {
        gs
    } else if d2 == r * r {
        if drawn_chance(gs.1, CHANCE_35) {
            (gs.0, advanced(gs.1))
        } else {
            (placed(gs.0, vox(x + dx, cy, z + dz), block::LEAVES), advanced(gs.1))
        }
    } else {
        (placed(gs.0, vox(x + dx, cy, z + dz), block::LEAVES), gs.1)
    }
}

/// The first `n` cells `dx = -r, -r + 1, ...` of the row `dz` of a canopy layer.
pub open spec fn leaf_row(gs: (Grid, (u64, u64)), x: int, cy: int, z: int, r: int, layer: int, dz: int, n: nat) -> (Grid, (u64, u64))
    decreases n,
{
    if n == 0 {
        gs
    } else {
        leaf_cell(leaf_row(gs, x, cy, z, r, layer, dz, (n - 1) as nat), x, cy, z, r, layer, -r + n - 1, dz)
    }
}

/// The first `n` rows `dz = -r, -r + 1, ...` of a canopy layer.
pub open spec fn leaf_layer(gs: (Grid, (u64, u64)), x: int, cy: int, z: int, r: int, layer: int, n: nat) -> (Grid, (u64, u64))
    decreases n,
{
    if n == 0 {
        gs
    } else {
        let prev = leaf_layer(gs, x, cy, z, r, layer, (n - 1) as nat);
        leaf_row(prev, x, cy, z, r, layer, -r + n - 1, nonneg(2 * r + 1))
    }
}

/// The first `n` layers of the canopy whose lowest layer lies at `cb`.
pub open spec fn canopy(gs: (Grid, (u64, u64)), x: int, cb: int, z: int, n: nat) -> (Grid, (u64, u64))
    decreases n,
{
    if n == 0 {
        gs
    } else {
        let layer = n - 1;
        let r = canopy_radius(layer);
        leaf_layer(canopy(gs, x, cb, z, (n - 1) as nat), x, cb + layer, z, r, layer, nonneg(2 * r + 1))
    }
}

/// Grid and generator state after a tree of trunk height `height` grows on
/// the surface `base_y` of column `(x, z)` from the generator state `s`.
pub open spec fn tree_grown(g: Grid, s: (u64, u64), x: int, base_y: int, z: int, height: int) -> (Grid, (u64, u64)) {
    let g1 = painted(g, vox(x, base_y + 1, z), vox(x, base_y + height, z), block::OAK_LOG);
    canopy((g1, s), x, base_y + height - 1, z, 3)
}

/// An oak: a log trunk `height` blocks high over `base_y`, and a canopy of
/// three leaf layers (radius 2, 2 and 1) around its top with a ragged edge
/// drawn from `rng`.
pub fn place_tree(world: &mut World, x: i32, base_y: i32, z: i32, height: i32, rng: &mut Pcg32)
    requires
        old(world).wf(),
        has_room(x as int, 2, 2),
        has_room(z as int, 2, 2),
        base_y < i32::MAX,
        i32::MIN <= base_y + height - 1,
        base_y + height + 1 <= i32::MAX,
    ensures
        final(world).wf(),
        final(world).same_dims(old(world)),
        (final(world)@, final(rng)@) == tree_grown(old(world)@, old(rng)@, x as int, base_y as int, z as int, height as int),
{
    world.fill_box((x, base_y + 1, z), (x, base_y + height, z), block::OAK_LOG);
    let ghost start = (world@, rng@);
    let canopy_base = base_y + height - 1;
    let mut layer: i32 = 0;
    while layer < 3
        invariant
            world.wf(),
            world.same_dims(old(world)),
            has_room(x as int, 2, 2),
            has_room(z as int, 2, 2),
            canopy_base == base_y + height - 1,
            canopy_base + 2 <= i32::MAX,
            i32::MIN <= canopy_base,
            0 <= layer <= 3,
            start == (painted(old(world)@, vox(x as int, base_y + 1, z as int), vox(x as int, base_y + height, z as int), block::OAK_LOG), old(rng)@),
            (world@, rng@) == canopy(start, x as int, canopy_base as int, z as int, layer as nat),
        decreases 3 - layer,
    {
        let radius: i32 = if layer == 2 { 1 } else { 2 };
        let cy = canopy_base + layer;
        let ghost layer_start = (world@, rng@);
        let mut dz: i32 = -radius;
        while dz <= radius
            invariant
                world.wf(),
                world.same_dims(old(world)),
                has_room(x as int, 2, 2),
                has_room(z as int, 2, 2),
                0 <= layer < 3,
                radius == canopy_radius(layer as int),
                -radius <= dz <= radius + 1,
                (world@, rng@) == leaf_layer(layer_start, x as int, cy as int, z as int, radius as int, layer as int, (dz + radius) as nat),
            decreases radius + 1 - dz,
        {
            let ghost row_start = (world@, rng@);
            let mut dx: i32 = -radius;
            while dx <= radius
                invariant
                    world.wf(),
                    world.same_dims(old(world)),
                    has_room(x as int, 2, 2),
                    has_room(z as int, 2, 2),
                    0 <= layer < 3,
                    radius == canopy_radius(layer as int),
                    -radius <= dz <= radius,
                    -radius <= dx <= radius + 1,
                    (world@, rng@) == leaf_row(row_start, x as int, cy as int, z as int, radius as int, layer as int, dz as int, (dx + radius) as nat),
                decreases radius + 1 - dx,
            {
                let ghost before = (world@, rng@);
                assert(0 <= dx * dx <= 4 && 0 <= dz * dz <= 4) by (nonlinear_arith)
                    requires
                        -2 <= dx <= 2,
                        -2 <= dz <= 2,
                ;
                let d2 = dx * dx + dz * dz;
                if dx == 0 && dz == 0 && layer < 2 {
                    // the trunk already fills the centre of the lower layers
                } else if d2 > radius * radius {
                } else if d2 == radius * radius && rng.chance(CHANCE_35) {
                    // ragged edge
                } else {
                    world.set(x + dx, cy, z + dz, block::LEAVES);
                }
                assert((world@, rng@) == leaf_cell(before, x as int, cy as int, z as int, radius as int, layer as int, dx as int, dz as int));
                dx += 1;
            }
            dz += 1;
        }
        layer += 1;
    }
}

/// Trees stand at least five blocks apart.
pub const MIN_SPACING2: i32 = 25;

/// A tree already planted stands closer than five blocks to `(x, z)`.
pub open spec fn crowded(planted: Seq<(i32, i32)>, x: int, z: int) -> bool {
    exists|i: int|
        0 <= i < planted.len() && {
            let (px, pz) = #[trigger] planted[i];
            (px - x) * (px - x) + (pz - z) * (pz - z) < MIN_SPACING2
        }
}

/// `(px, pz)` is near enough to `(x, z)` that squared distances fit in `i32`.
pub open spec fn within_reach(p: (i32, i32), x: int, z: int) -> bool {
    -0x7fff <= p.0 - x <= 0x7fff && -0x7fff <= p.1 - z <= 0x7fff
}

/// Whether a tree already planted stands closer than five blocks to `(x, z)`.
fn near_planted(planted: &Vec<(i32, i32)>, x: i32, z: i32) -> (b: bool)
    requires
        forall|i: int| 0 <= i < planted@.len() ==> within_reach(#[trigger] planted@[i], x as int, z as int),
    ensures
        b == crowded(planted@, x as int, z as int),
{
    let mut i: usize = 0;
    while i < planted.len()
        invariant
            0 <= i <= planted@.len(),
            forall|k: int| 0 <= k < planted@.len() ==> within_reach(#[trigger] planted@[k], x as int, z as int),
            forall|k: int|
                0 <= k < i ==> {
                    let (px, pz) = #[trigger] planted@[k];
                    (px - x) * (px - x) + (pz - z) * (pz - z) >= MIN_SPACING2
                },
        decreases planted@.len() - i,
    {
        let (px, pz) = planted[i];
        assert(within_reach(planted@[i as int], x as int, z as int));
        assert(0 <= (px - x) * (px - x) <= 0x3fff_0001 && 0 <= (pz - z) * (pz - z) <= 0x3fff_0001) by (nonlinear_arith)
            requires
                -0x7fff <= px - x <= 0x7fff,
                -0x7fff <= pz - z <= 0x7fff,
        ;
        if (px - x) * (px - x) + (pz - z) * (pz - z) < MIN_SPACING2 {
            assert(crowded(planted@, x as int, z as int)) by {
                assert(planted@[i as int] == (px, pz));
            }
            return true;
        }
        i += 1;
    }
    false
}

/// One tree-planting attempt from the generator state `s`: a column within
/// `radius` of `(cx, cz)` on both axes is drawn; if its surface is grass and
/// no tree planted so far stands closer than five blocks, a tree three to
/// five blocks high grows there. Gives the grid, the generator state and
/// the column planted, if any.
pub open spec fn tree_attempt(
    g: Grid,
    s: (u64, u64),
    hm: Heightmap,
    planted: Seq<(i32, i32)>,
    cx: int,
    cz: int,
    radius: int,
) -> (Grid, (u64, u64), Option<(i32, i32)>) {
    let x = drawn_in_range(s, cx - radius, cx + radius);
    let s1 = advanced(s);
    let z = drawn_in_range(s1, cz - radius, cz + radius);
    let s2 = advanced(s1);
    match hm.surface(x, z) {
        Some(y) => {
            if block_at(g, vox(x, y as int, z)) != block::GRASS || crowded(planted, x, z) {
                (g, s2, None)
            } else {
                let h = drawn_in_range(s2, 3, 5);
                let (g1, s3) = tree_grown(g, advanced(s2), x, y as int, z, h);
                (g1, s3, Some((x as i32, z as i32)))
            }
        },
        None => (g, s2, None),
    }
}

/// The trees planted from the generator state `s`, with the columns
/// `planted` already used after `attempts` attempts; planting stops at
/// `count` trees or `40 * count` attempts. Gives the grid and every column
/// planted, in order.
pub open spec fn forest(
    g: Grid,
    s: (u64, u64),
    hm: Heightmap,
    planted: Seq<(i32, i32)>,
    cx: int,
    cz: int,
    radius: int,
    count: int,
    attempts: int,
) -> (Grid, Seq<(i32, i32)>)
    decreases count * 40 - attempts,
{
    if planted.len() < count && attempts < count * 40 {
        let (g1, s1, spot) = tree_attempt(g, s, hm, planted, cx, cz, radius);
        let planted1 = match spot {
            Some(p) => planted.push(p),
            None => planted,
        };
        forest(g1, s1, hm, planted1, cx, cz, radius, count, attempts + 1)
    } else {
        (g, planted)
    }
}

/// Any two trees stand at least five blocks apart.
pub open spec fn spaced(planted: Seq<(i32, i32)>) -> bool {
    forall|i: int, j: int|
        0 <= i < j < planted.len() ==> {
            let (ax, az) = #[trigger] planted[i];
            let (bx, bz) = #[trigger] planted[j];
            (ax - bx) * (ax - bx) + (az - bz) * (az - bz) >= MIN_SPACING2
        }
}

proof fn lemma_drawn_in_range_bounds(s: (u64, u64), lo: int, hi: int)
    ensures
        lo <= drawn_in_range(s, lo, hi),
        lo <= hi ==> drawn_in_range(s, lo, hi) <= hi,
        hi < lo ==> drawn_in_range(s, lo, hi) == lo,
{
    let span = crate::noise::range_span(lo, hi);
    vstd::arithmetic::div_mod::lemma_mod_bound(pcg_output(s.0) as int, span);
}

/// The columns a forest is planted on are at least five blocks apart.
pub proof fn lemma_forest_spaced(
    g: Grid,
    s: (u64, u64),
    hm: Heightmap,
    planted: Seq<(i32, i32)>,
    cx: int,
    cz: int,
    radius: int,
    count: int,
    attempts: int,
)
    requires
        spaced(planted),
        has_room(cx, abs_int(radius), abs_int(radius)),
        has_room(cz, abs_int(radius), abs_int(radius)),
    ensures
        spaced(forest(g, s, hm, planted, cx, cz, radius, count, attempts).1),
    decreases count * 40 - attempts,
{
    if planted.len() < count && attempts < count * 40 {
        let (g1, s1, spot) = tree_attempt(g, s, hm, planted, cx, cz, radius);
        match spot {
            Some(p) => {
                let x = drawn_in_range(s, cx - radius, cx + radius);
                let z = drawn_in_range(advanced(s), cz - radius, cz + radius);
                lemma_drawn_in_range_bounds(s, cx - radius, cx + radius);
                lemma_drawn_in_range_bounds(advanced(s), cz - radius, cz + radius);
                assert(p == (x as i32, z as i32));
                assert(p.0 == x && p.1 == z);
                assert(!crowded(planted, x, z));
                let planted1 = planted.push(p);
                assert forall|i: int, j: int| 0 <= i < j < planted1.len() implies {
                    let (ax, az) = #[trigger] planted1[i];
                    let (bx, bz) = #[trigger] planted1[j];
                    (ax - bx) * (ax - bx) + (az - bz) * (az - bz) >= MIN_SPACING2
                } by {
                    if j == planted.len() {
                        let (ax, az) = planted[i];
                        assert(!({
                            let (px, pz) = planted[i];
                            (px - x) * (px - x) + (pz - z) * (pz - z) < MIN_SPACING2
                        }));
                        assert((ax - x) * (ax - x) == (x - ax) * (x - ax)) by (nonlinear_arith);
                        assert((az - z) * (az - z) == (z - az) * (z - az)) by (nonlinear_arith);
                    } else {
                        assert(planted1[i] == planted[i] && planted1[j] == planted[j]);
                    }
                }
                lemma_forest_spaced(g1, s1, hm, planted1, cx, cz, radius, count, attempts + 1);
            },
            None => {
                lemma_forest_spaced(g1, s1, hm, planted, cx, cz, radius, count, attempts + 1);
            },
        }
    }
}

/// Every grass block of `g1` was already grass in `g0`.
pub open spec fn keeps_grass(g0: Grid, g1: Grid) -> bool {
    forall|p: Voxel| #[trigger] block_at(g1, p) == block::GRASS ==> block_at(g0, p) == block::GRASS
}

/// Column `p` has a surface in `hm`, and the block there in `g` is grass.
pub open spec fn grass_surface(g: Grid, hm: Heightmap, p: (i32, i32)) -> bool {
    match hm.surface(p.0 as int, p.1 as int) {
        Some(y) => block_at(g, vox(p.0 as int, y as int, p.1 as int)) == block::GRASS,
        None => false,
    }
}

proof fn lemma_leaf_row_keeps_grass(gs: (Grid, (u64, u64)), x: int, cy: int, z: int, r: int, layer: int, dz: int, n: nat)
    ensures
        keeps_grass(gs.0, leaf_row(gs, x, cy, z, r, layer, dz, n).0),
    decreases n,
{
    if n > 0 {
        let prev = leaf_row(gs, x, cy, z, r, layer, dz, (n - 1) as nat);
        lemma_leaf_row_keeps_grass(gs, x, cy, z, r, layer, dz, (n - 1) as nat);
        let next = leaf_cell(prev, x, cy, z, r, layer, -r + n - 1, dz);
        assert(keeps_grass(prev.0, next.0));
    }
}

proof fn lemma_leaf_layer_keeps_grass(gs: (Grid, (u64, u64)), x: int, cy: int, z: int, r: int, layer: int, n: nat)
    ensures
        keeps_grass(gs.0, leaf_layer(gs, x, cy, z, r, layer, n).0),
    decreases n,
{
    if n > 0 {
        let prev = leaf_layer(gs, x, cy, z, r, layer, (n - 1) as nat);
        lemma_leaf_layer_keeps_grass(gs, x, cy, z, r, layer, (n - 1) as nat);
        lemma_leaf_row_keeps_grass(prev, x, cy, z, r, layer, -r + n - 1, nonneg(2 * r + 1));
    }
}

proof fn lemma_canopy_keeps_grass(gs: (Grid, (u64, u64)), x: int, cb: int, z: int, n: nat)
    ensures
        keeps_grass(gs.0, canopy(gs, x, cb, z, n).0),
    decreases n,
{
    if n > 0 {
        let layer = n - 1;
        let r = canopy_radius(layer);
        let prev = canopy(gs, x, cb, z, (n - 1) as nat);
        lemma_canopy_keeps_grass(gs, x, cb, z, (n - 1) as nat);
        lemma_leaf_layer_keeps_grass(prev, x, cb + layer, z, r, layer, nonneg(2 * r + 1));
    }
}

proof fn lemma_tree_keeps_grass(g: Grid, s: (u64, u64), x: int, base_y: int, z: int, height: int)
    ensures
        keeps_grass(g, tree_grown(g, s, x, base_y, z, height).0),
{
    let g1 = painted(g, vox(x, base_y + 1, z), vox(x, base_y + height, z), block::OAK_LOG);
    assert(keeps_grass(g, g1));
    lemma_canopy_keeps_grass((g1, s), x, base_y + height - 1, z, 3);
}

proof fn lemma_attempt_on_grass(
    g0: Grid,
    g: Grid,
    s: (u64, u64),
    hm: Heightmap,
    planted: Seq<(i32, i32)>,
    cx: int,
    cz: int,
    radius: int,
)
    requires
        keeps_grass(g0, g),
        has_room(cx, abs_int(radius), abs_int(radius)),
        has_room(cz, abs_int(radius), abs_int(radius)),
    ensures
        ({
            let (g1, s1, spot) = tree_attempt(g, s, hm, planted, cx, cz, radius);
            &&& keeps_grass(g0, g1)
            &&& spot is None ==> g1 == g
            &&& spot is Some ==> grass_surface(g0, hm, spot->Some_0)
        }),
{
    let x = drawn_in_range(s, cx - radius, cx + radius);
    let z = drawn_in_range(advanced(s), cz - radius, cz + radius);
    lemma_drawn_in_range_bounds(s, cx - radius, cx + radius);
    lemma_drawn_in_range_bounds(advanced(s), cz - radius, cz + radius);
    let s2 = advanced(advanced(s));
    match hm.surface(x, z) {
        Some(y) => {
            if block_at(g, vox(x, y as int, z)) == block::GRASS && !crowded(planted, x, z) {
                let h = drawn_in_range(s2, 3, 5);
                let g1 = tree_grown(g, advanced(s2), x, y as int, z, h).0;
                lemma_tree_keeps_grass(g, advanced(s2), x, y as int, z, h);
                assert(keeps_grass(g0, g1)) by {
                    assert forall|p: Voxel| #[trigger] block_at(g1, p) == block::GRASS implies block_at(g0, p) == block::GRASS by {
                        assert(block_at(g, p) == block::GRASS);
                    }
                }
                assert((x as i32) as int == x && (z as i32) as int == z);
                assert(block_at(g0, vox(x, y as int, z)) == block::GRASS);
            }
        },
        None => {},
    }
}

proof fn lemma_forest_on_grass(
    g0: Grid,
    g: Grid,
    s: (u64, u64),
    hm: Heightmap,
    planted: Seq<(i32, i32)>,
    cx: int,
    cz: int,
    radius: int,
    count: int,
    attempts: int,
)
    requires
        keeps_grass(g0, g),
        forall|i: int| 0 <= i < planted.len() ==> grass_surface(g0, hm, #[trigger] planted[i]),
        has_room(cx, abs_int(radius), abs_int(radius)),
        has_room(cz, abs_int(radius), abs_int(radius)),
    ensures
        ({
            let (g1, spots) = forest(g, s, hm, planted, cx, cz, radius, count, attempts);
            &&& planted.len() <= spots.len()
            &&& forall|i: int| 0 <= i < spots.len() ==> grass_surface(g0, hm, #[trigger] spots[i])
            &&& spots.len() == planted.len() ==> g1 == g
        }),
    decreases count * 40 - attempts,
{
    if planted.len() < count && attempts < count * 40 {
        let (g1, s1, spot) = tree_attempt(g, s, hm, planted, cx, cz, radius);
        lemma_attempt_on_grass(g0, g, s, hm, planted, cx, cz, radius);
        match spot {
            Some(p) => {
                let planted1 = planted.push(p);
                assert forall|i: int| 0 <= i < planted1.len() implies grass_surface(g0, hm, #[trigger] planted1[i]) by {
                    if i < planted.len() {
                        assert(planted1[i] == planted[i]);
                    }
                }
                lemma_forest_on_grass(g0, g1, s1, hm, planted1, cx, cz, radius, count, attempts + 1);
            },
            None => {
                lemma_forest_on_grass(g0, g1, s1, hm, planted, cx, cz, radius, count, attempts + 1);
            },
        }
    }
}

/// Trees grow only on grass: every column a forest plants had a grass
/// surface block before planting began, and when no column is planted
/// the grid is left as it was, so a world with no grass surface within
/// reach is not changed.
pub proof fn lemma_trees_only_on_grass(
    g: Grid,
    s: (u64, u64),
    hm: Heightmap,
    cx: int,
    cz: int,
    radius: int,
    count: int,
)
    requires
        has_room(cx, abs_int(radius), abs_int(radius)),
        has_room(cz, abs_int(radius), abs_int(radius)),
    ensures
        ({
            let (g1, spots) = forest(g, s, hm, Seq::empty(), cx, cz, radius, count, 0);
            &&& forall|i: int| 0 <= i < spots.len() ==> grass_surface(g, hm, #[trigger] spots[i])
            &&& spots.len() == 0 ==> g1 == g
        }),
{
    lemma_forest_on_grass(g, g, s, hm, Seq::empty(), cx, cz, radius, count, 0);
}

/// Plants up to `tree_count` oaks on grass within `radius` of
/// `(center_x, center_z)` on both axes, at least five blocks apart, drawing
/// spots and heights from `seed` and giving up after `40 * tree_count`
/// attempts.
pub fn place_trees(world: &mut World, hm: &Heightmap, center_x: i32, center_z: i32, radius: i32, tree_count: u32, seed: u32)
    requires
        old(world).wf(),
        hm.wf(),
        tree_count * 40 <= u32::MAX,
        8 * radius * radius <= i32::MAX,
        has_room(center_x as int, abs_int(radius as int) + 2, abs_int(radius as int) + 2),
        has_room(center_z as int, abs_int(radius as int) + 2, abs_int(radius as int) + 2),
        square_room(*hm, center_x as int, center_z as int, abs_int(radius as int), 6),
    ensures
        final(world).wf(),
        final(world).same_dims(old(world)),
        final(world)@ == forest(
            old(world)@,
            seeded(seed, 0xA11C_E000, 0x7EE),
            *hm,
            Seq::empty(),
            center_x as int,
            center_z as int,
            radius as int,
            tree_count as int,
            0,
        ).0,
{
    let mut rng = Pcg32::new(seed as u64 ^ 0xA11C_E000, 0x7EE);
    let mut planted: Vec<(i32, i32)> = Vec::new();
    let mut attempts: u32 = 0;
    let ghost r = abs_int(radius as int);
    assert(-0x3fff <= radius <= 0x3fff) by (nonlinear_arith)
        requires
            8 * radius * radius <= i32::MAX,
    ;
    while planted.len() < tree_count as usize && attempts < tree_count * 40
        invariant
            world.wf(),
            world.same_dims(old(world)),
            hm.wf(),
            tree_count * 40 <= u32::MAX,
            r == abs_int(radius as int),
            -0x3fff <= radius <= 0x3fff,
            has_room(center_x as int, r + 2, r + 2),
            has_room(center_z as int, r + 2, r + 2),
            square_room(*hm, center_x as int, center_z as int, r, 6),
            attempts <= tree_count * 40,
            forall|i: int|
                0 <= i < planted@.len() ==> {
                    let (px, pz) = #[trigger] planted@[i];
                    -r <= px - center_x <= r && -r <= pz - center_z <= r
                },
            forest(world@, rng@, *hm, planted@, center_x as int, center_z as int, radius as int, tree_count as int, attempts as int)
                == forest(
                old(world)@,
                seeded(seed, 0xA11C_E000, 0x7EE),
                *hm,
                Seq::empty(),
                center_x as int,
                center_z as int,
                radius as int,
                tree_count as int,
                0,
            ),
        decreases tree_count * 40 - attempts,
    {
        let ghost g = world@;
        let ghost s = rng@;
        let ghost before = planted@;
        attempts += 1;
        let x = rng.range_i32(center_x - radius, center_x + radius);
        let z = rng.range_i32(center_z - radius, center_z + radius);
        assert(column_room(*hm, x as int, z as int, 6));
        let top_y = match hm.top_at(x, z) {
            Some(y) => y,
            None => {
                assert(tree_attempt(g, s, *hm, before, center_x as int, center_z as int, radius as int) == (world@, rng@, None::<(i32, i32)>));
                continue;
            },
        };
        if world.get(x, top_y, z) != block::GRASS {
            assert(tree_attempt(g, s, *hm, before, center_x as int, center_z as int, radius as int) == (world@, rng@, None::<(i32, i32)>));
            continue;
        }
        assert forall|i: int| 0 <= i < planted@.len() implies within_reach(#[trigger] planted@[i], x as int, z as int) by {
            let (px, pz) = planted@[i];
        }
        if near_planted(&planted, x, z) {
            assert(tree_attempt(g, s, *hm, before, center_x as int, center_z as int, radius as int) == (world@, rng@, None::<(i32, i32)>));
            continue;
        }
        let height = rng.range_i32(3, 5);
        place_tree(world, x, top_y, z, height, &mut rng);
        planted.push((x, z));
        assert(tree_attempt(g, s, *hm, before, center_x as int, center_z as int, radius as int) == (world@, rng@, Some((x, z))));
    }
}

/// The column `(x, z)` of a grassy island whose rock starts at `bottom_y`
/// and whose surface lies at `surface_y`: stone bricks up to three blocks
/// under the surface, then dirt, then grass on top (sand within a block of
/// the water level), and water over the surface up to `water_level` where it
/// dips below it.
pub open spec fn island_column(g: Grid, x: int, z: int, surface_y: int, bottom_y: int, water_level: int) -> Grid {
    let g1 = painted(g, vox(x, bottom_y, z), vox(x, max_int(surface_y - 3, bottom_y), z), block::STONE_BRICKS);
    let g2 = painted(g1, vox(x, max_int(surface_y - 2, bottom_y), z), vox(x, surface_y - 1, z), block::DIRT);
    let top = if surface_y <= water_level + 1 { block::SAND } else { block::GRASS };
    let g3 = placed(g2, vox(x, surface_y, z), top);
    if surface_y < water_level {
        painted(g3, vox(x, surface_y + 1, z), vox(x, water_level, z), block::WATER)
    } else {
        g3
    }
}

/// Lays the column `(x, z)` of a grassy island (see `island_column`) and
/// returns the height a structure placed there stands on: the water level
/// over a dip, the surface elsewhere.
pub fn lay_island_column(world: &mut World, x: i32, z: i32, surface_y: i32, bottom_y: i32, water_level: i32) -> (top: i32)
    requires
        old(world).wf(),
        i32::MIN + 3 <= surface_y < i32::MAX,
        water_level < i32::MAX,
    ensures
        final(world).wf(),
        final(world).same_dims(old(world)),
        final(world)@ == island_column(old(world)@, x as int, z as int, surface_y as int, bottom_y as int, water_level as int),
        top == if surface_y < water_level { water_level } else { surface_y },
{
    let is_underwater_dip = surface_y < water_level;
    // Rock up to three blocks under the surface, then dirt, then the top
    // layer (grass, or sand near the water).
    let dirt_layers: i32 = 3;
    world.fill_box((x, bottom_y, z), (x, (surface_y - dirt_layers).max(bottom_y), z), block::STONE_BRICKS);
    world.fill_box((x, (surface_y - dirt_layers + 1).max(bottom_y), z), (x, surface_y - 1, z), block::DIRT);

    let near_water = surface_y <= water_level + 1;
    let top_block = if near_water { block::SAND } else { block::GRASS };
    world.set(x, surface_y, z, top_block);

    if is_underwater_dip {
        world.fill_box((x, surface_y + 1, z), (x, water_level, z), block::WATER);
    }
    if is_underwater_dip { water_level } else { surface_y }
}

/// The column `(x, z)` of a Nether island: netherrack from `bottom_y` up to
/// the surface, topped by magma over a crack and netherrack elsewhere.
pub open spec fn rugged_column(g: Grid, x: int, z: int, surface_y: int, bottom_y: int, crack: bool) -> Grid {
    let g1 = painted(g, vox(x, bottom_y, z), vox(x, max_int(surface_y - 1, bottom_y), z), block::NETHERRACK);
    placed(g1, vox(x, surface_y, z), if crack { block::MAGMA } else { block::NETHERRACK })
}

/// Lays the column `(x, z)` of a Nether island (see `rugged_column`) and
/// returns its surface height.
pub fn lay_rugged_column(world: &mut World, x: i32, z: i32, surface_y: i32, bottom_y: i32, crack: bool) -> (top: i32)
    requires
        old(world).wf(),
        surface_y > i32::MIN,
    ensures
        final(world).wf(),
        final(world).same_dims(old(world)),
        final(world)@ == rugged_column(old(world)@, x as int, z as int, surface_y as int, bottom_y as int, crack),
        top == surface_y,
{
    let top_block = if crack { block::MAGMA } else { block::NETHERRACK };
    world.fill_box((x, bottom_y, z), (x, (surface_y - 1).max(bottom_y), z), block::NETHERRACK);
    world.set(x, surface_y, z, top_block);
    surface_y
}

/// Lays the column `(x, z)` of an End island, end stone from `bottom_y` up
/// to the surface, and returns its surface height.
pub fn lay_soft_column(world: &mut World, x: i32, z: i32, surface_y: i32, bottom_y: i32) -> (top: i32)
    requires
        old(world).wf(),
    ensures
        final(world).wf(),
        final(world).same_dims(old(world)),
        final(world)@ == painted(old(world)@, vox(x as int, bottom_y as int, z as int), vox(x as int, surface_y as int, z as int), block::END_STONE),
        top == surface_y,
{
    world.fill_box((x, bottom_y, z), (x, surface_y, z), block::END_STONE);
    surface_y
}

} // verus!
