use diorama::block;
use diorama::heightmap::Heightmap;
use diorama::noise::Pcg32;
use diorama::terrain::{lay_island_column, lay_rugged_column, lay_soft_column, place_tree, place_trees};
use diorama::world::World;

const N: i32 = 40;

fn count(w: &World, id: u8) -> usize {
    w.blocks.iter().filter(|&&b| b == id).count()
}

#[test]
fn tree_trunk_and_canopy() {
    let mut w = World::new(10, 20, 10);
    let mut rng = Pcg32::new(1, 2);
    place_tree(&mut w, 5, 4, 5, 4, &mut rng);
    for y in 5..=8 {
        assert_eq!(w.get(5, y, 5), block::OAK_LOG);
    }
    // canopy layers at 7, 8 (radius 2, around the trunk) and 9 (radius 1)
    assert_eq!(w.get(5, 9, 5), block::LEAVES);
    assert_eq!(w.get(4, 7, 5), block::LEAVES);
    assert_eq!(w.get(6, 8, 6), block::LEAVES);
    assert_eq!(w.get(5, 10, 5), block::AIR);
    assert_eq!(w.get(7, 7, 7), block::AIR);
    let leaves = count(&w, block::LEAVES);
    // 8 inner cells and up to 4 edge cells on each of the two wide layers,
    // the centre and up to 4 edge cells on the top one
    assert!(leaves >= 8 * 2 + 1 && leaves <= 12 * 2 + 5);
}

#[test]
fn tree_is_reproducible_and_advances_the_generator() {
    let mut a = World::new(10, 20, 10);
    let mut b = World::new(10, 20, 10);
    let mut ra = Pcg32::new(9, 9);
    let mut rb = Pcg32::new(9, 9);
    place_tree(&mut a, 5, 4, 5, 5, &mut ra);
    place_tree(&mut b, 5, 4, 5, 5, &mut rb);
    assert_eq!(a.blocks, b.blocks);
    assert_eq!(ra.next_u32(), rb.next_u32());
    // the edge draws advance the generator: 4 + 4 + 4 cells lie on a radius
    let mut fresh = Pcg32::new(9, 9);
    for _ in 0..12 {
        fresh.next_u32();
    }
    let mut rc = Pcg32::new(9, 9);
    let mut c = World::new(10, 20, 10);
    place_tree(&mut c, 5, 4, 5, 5, &mut rc);
    assert_eq!(rc.next_u32(), fresh.next_u32());
}

fn grass_island() -> (World, Heightmap) {
    let mut w = World::new(N, 30, N);
    for z in 0..N {
        for x in 0..N {
            w.set(x, 10, z, block::GRASS);
        }
    }
    let hm = Heightmap::from_columns(N, N, vec![10; (N * N) as usize], vec![true; (N * N) as usize]);
    (w, hm)
}

#[test]
fn trees_stand_apart() {
    let (mut w, hm) = grass_island();
    place_trees(&mut w, &hm, 20, 20, 15, 10, 1337);
    let mut trunks = Vec::new();
    for z in 0..N {
        for x in 0..N {
            if w.get(x, 11, z) == block::OAK_LOG {
                trunks.push((x, z));
            }
        }
    }
    assert!(!trunks.is_empty() && trunks.len() <= 10);
    for (i, &(ax, az)) in trunks.iter().enumerate() {
        assert!((5..=35).contains(&ax) && (5..=35).contains(&az));
        for &(bx, bz) in &trunks[i + 1..] {
            assert!((ax - bx) * (ax - bx) + (az - bz) * (az - bz) >= 25);
        }
    }
    let (mut again, _) = grass_island();
    place_trees(&mut again, &hm, 20, 20, 15, 10, 1337);
    assert_eq!(w.blocks, again.blocks);
}

#[test]
fn no_trees_without_grass() {
    let mut w = World::new(N, 30, N);
    let hm = Heightmap::from_columns(N, N, vec![10; (N * N) as usize], vec![true; (N * N) as usize]);
    place_trees(&mut w, &hm, 20, 20, 15, 10, 1337);
    assert!(w.blocks.iter().all(|&b| b == block::AIR));
}

#[test]
fn island_column_layers() {
    let mut w = World::new(3, 40, 3);
    let top = lay_island_column(&mut w, 1, 1, 20, 5, 12);
    assert_eq!(top, 20);
    for y in 5..=17 {
        assert_eq!(w.get(1, y, 1), block::STONE_BRICKS);
    }
    assert_eq!(w.get(1, 18, 1), block::DIRT);
    assert_eq!(w.get(1, 19, 1), block::DIRT);
    assert_eq!(w.get(1, 20, 1), block::GRASS);
    assert_eq!(w.get(1, 21, 1), block::AIR);
    assert_eq!(w.get(1, 4, 1), block::AIR);

    let mut dip = World::new(3, 40, 3);
    let top = lay_island_column(&mut dip, 0, 0, 10, 2, 12);
    assert_eq!(top, 12);
    assert_eq!(dip.get(0, 10, 0), block::SAND);
    assert_eq!(dip.get(0, 11, 0), block::WATER);
    assert_eq!(dip.get(0, 12, 0), block::WATER);
    assert_eq!(dip.get(0, 13, 0), block::AIR);

    let mut shore = World::new(3, 40, 3);
    assert_eq!(lay_island_column(&mut shore, 0, 0, 13, 2, 12), 13);
    assert_eq!(shore.get(0, 13, 0), block::SAND);
    assert_eq!(count(&shore, block::WATER), 0);
}

#[test]
fn nether_and_end_columns() {
    let mut w = World::new(2, 20, 2);
    assert_eq!(lay_rugged_column(&mut w, 0, 0, 10, 3, true), 10);
    assert_eq!(w.get(0, 10, 0), block::MAGMA);
    assert_eq!(w.get(0, 3, 0), block::NETHERRACK);
    assert_eq!(w.get(0, 9, 0), block::NETHERRACK);
    assert_eq!(lay_rugged_column(&mut w, 1, 1, 8, 3, false), 8);
    assert_eq!(w.get(1, 8, 1), block::NETHERRACK);
    assert_eq!(lay_soft_column(&mut w, 1, 0, 12, 4), 12);
    assert_eq!(count(&w, block::END_STONE), 9);
}
