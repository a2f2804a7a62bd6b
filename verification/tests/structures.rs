use diorama::block;
use diorama::heightmap::Heightmap;
use diorama::structures::{
    build_central_tower, build_chorus_grove, build_city_tower, build_farm_plot, build_gable_roof, build_garden,
    build_house, build_lighthouse, build_nether_portal, build_nylium_patch, build_path_lights, build_purpur_ship,
    build_soul_fire_patch, build_statue, build_village_house, build_fungus_cap, disc_island_world, build_village_tower, build_well, clear_trees_near,
    flatten_area, place_pillar, place_stairs_like, scatter_fire,
};
use diorama::noise::Pcg32;
use diorama::world::World;

const N: i32 = 32;
const NY: i32 = 48;

/// A flat island: every column's surface at `top`, made of `surface`.
fn flat_island(top: i32, surface: u8) -> (World, Heightmap) {
    let mut w = World::new(N, NY, N);
    for z in 0..N {
        for x in 0..N {
            w.fill_box((x, 0, z), (x, top - 1, z), block::STONE);
            w.set(x, top, z, surface);
        }
    }
    let hm = Heightmap::from_columns(N, N, vec![top; (N * N) as usize], vec![true; (N * N) as usize]);
    (w, hm)
}

fn count(w: &World, id: u8) -> usize {
    w.blocks.iter().filter(|&&b| b == id).count()
}

#[test]
fn flatten_area_levels_columns() {
    let (mut w, _) = flat_island(10, block::GRASS);
    w.set(5, 14, 5, block::OAK_LOG);
    w.set(5, 3, 5, block::AIR);
    flatten_area(&mut w, 4, 4, 6, 6, 8, block::SAND);
    for z in 4..=6 {
        for x in 4..=6 {
            assert_eq!(w.get(x, 8, z), block::SAND);
            for y in 4..8 {
                assert_eq!(w.get(x, y, z), block::STONE_BRICKS);
            }
            for y in 9..=20 {
                assert_eq!(w.get(x, y, z), block::AIR);
            }
        }
    }
    assert_eq!(w.get(5, 3, 5), block::AIR);
    assert_eq!(w.get(3, 10, 3), block::GRASS);
    assert_eq!(w.get(7, 10, 5), block::GRASS);
}

#[test]
fn flatten_area_caps_at_grid_bounds() {
    let (mut w, _) = flat_island(2, block::GRASS);
    flatten_area(&mut w, 0, 0, 0, 0, 1, block::DIRT);
    assert_eq!(w.get(0, 1, 0), block::DIRT);
    assert_eq!(w.get(0, 0, 0), block::STONE_BRICKS);
    assert_eq!(w.get(0, 2, 0), block::AIR);
}

#[test]
fn pillar() {
    let mut w = World::new(4, 10, 4);
    place_pillar(&mut w, 1, 2, 3, 6, block::OAK_LOG);
    for y in 3..=6 {
        assert_eq!(w.get(1, y, 2), block::OAK_LOG);
    }
    assert_eq!(count(&w, block::OAK_LOG), 4);
}

#[test]
fn statue() {
    let (mut w, hm) = flat_island(10, block::DIRT);
    build_statue(&mut w, &hm, 10, 10);
    assert_eq!(w.get(10, 10, 10), block::GRASS);
    assert_eq!(w.get(12, 10, 12), block::GRASS);
    assert_eq!(w.get(13, 10, 12), block::DIRT);
    for x in 9..=11 {
        for z in 9..=11 {
            assert_eq!(w.get(x, 11, z), block::STONE_BRICKS);
        }
    }
    for y in 12..=17 {
        assert_eq!(w.get(10, y, 10), block::IRON_BLOCK);
    }
    assert_eq!(w.get(9, 13, 10), block::IRON_BLOCK);
    assert_eq!(w.get(11, 13, 10), block::IRON_BLOCK);
    assert_eq!(w.get(10, 18, 10), block::AIR);
    assert_eq!(count(&w, block::IRON_BLOCK), 8);
}

#[test]
fn statue_off_island_stands_at_half_height() {
    let mut w = World::new(N, NY, N);
    let hm = Heightmap::from_columns(N, N, vec![10; (N * N) as usize], vec![false; (N * N) as usize]);
    build_statue(&mut w, &hm, 10, 10);
    assert_eq!(w.get(10, NY / 2, 10), block::GRASS);
    assert_eq!(w.get(10, NY / 2 + 2, 10), block::IRON_BLOCK);
}

#[test]
fn lighthouse() {
    let (mut w, hm) = flat_island(10, block::GRASS);
    build_lighthouse(&mut w, &hm, 15, 15);
    assert_eq!(w.get(12, 11, 12), block::STONE_BRICKS);
    assert_eq!(w.get(18, 14, 18), block::STONE_BRICKS);
    assert_eq!(w.get(12, 15, 15), block::IRON_BLOCK);
    assert_eq!(w.get(13, 16, 13), block::STONE_BRICKS);
    assert_eq!(w.get(12, 16, 15), block::AIR);
    assert_eq!(w.get(15, 20, 17), block::IRON_BLOCK);
    assert_eq!(w.get(14, 23, 14), block::STONE_BRICKS);
    // lantern room: glass shell with glowstone in the middle
    assert_eq!(w.get(14, 24, 15), block::GLASS);
    assert_eq!(w.get(15, 25, 15), block::GLOWSTONE);
    assert_eq!(w.get(16, 26, 16), block::GLASS);
    assert_eq!(w.get(15, 27, 15), block::IRON_BLOCK);
    assert_eq!(w.get(15, 28, 15), block::IRON_BLOCK);
    assert_eq!(w.get(15, 29, 15), block::AIR);
}

#[test]
fn house() {
    let (mut w, hm) = flat_island(10, block::GRASS);
    build_house(&mut w, &hm, 15, 15);
    let y0 = 11;
    assert_eq!(w.get(11, y0, 11), block::OAK_LOG);
    assert_eq!(w.get(19, y0 + 5, 19), block::OAK_LOG);
    assert_eq!(w.get(12, y0, 11), block::OAK_PLANKS);
    // door at the front (+z) and windows
    assert_eq!(w.get(15, y0, 19), block::AIR);
    assert_eq!(w.get(15, y0 + 1, 19), block::AIR);
    assert_eq!(w.get(15, y0 + 2, 19), block::OAK_PLANKS);
    assert_eq!(w.get(13, y0 + 1, 11), block::GLASS);
    assert_eq!(w.get(17, y0 + 2, 11), block::GLASS);
    assert_eq!(w.get(11, y0 + 1, 13), block::GLASS);
    assert_eq!(w.get(19, y0 + 2, 17), block::GLASS);
    assert_eq!(w.get(13, y0 + 1, 19), block::OAK_PLANKS);
    assert_eq!(count(&w, block::GLASS), 12);
    // lights inside, hollow walls
    assert_eq!(w.get(15, y0 + 2, 15), block::GLOWSTONE);
    assert_eq!(w.get(14, y0 + 2, 15), block::GLOWSTONE);
    assert_eq!(w.get(15, y0 + 3, 15), block::AIR);
    // stepped roof
    assert_eq!(w.get(11, y0 + 6, 11), block::OAK_PLANKS);
    assert_eq!(w.get(12, y0 + 7, 12), block::OAK_PLANKS);
    assert_eq!(w.get(11, y0 + 7, 11), block::AIR);
    assert_eq!(w.get(15, y0 + 10, 15), block::OAK_PLANKS);
    assert_eq!(w.get(15, y0 + 11, 15), block::AIR);
}

#[test]
fn well() {
    let (mut w, hm) = flat_island(10, block::GRASS);
    build_well(&mut w, &hm, 8, 8);
    assert_eq!(w.get(8, 10, 8), block::COBBLESTONE);
    assert_eq!(w.get(8, 11, 8), block::WATER);
    assert_eq!(w.get(7, 11, 7), block::WATER);
    assert_eq!(w.get(7, 12, 8), block::COBBLESTONE);
    // the ring is two layers high, so it has no hollow inside
    assert_eq!(w.get(8, 12, 8), block::COBBLESTONE);
    for y in 13..=15 {
        assert_eq!(w.get(9, y, 9), block::OAK_LOG);
    }
    assert_eq!(w.get(6, 16, 6), block::OAK_PLANKS);
    assert_eq!(w.get(7, 17, 9), block::OAK_PLANKS);
    assert_eq!(w.get(8, 18, 8), block::OAK_PLANKS);
    assert_eq!(count(&w, block::WATER), 9);
}

#[test]
fn nether_portal() {
    let (mut w, hm) = flat_island(10, block::NETHERRACK);
    build_nether_portal(&mut w, &hm, 10, 10);
    assert_eq!(count(&w, block::PORTAL), 6);
    assert_eq!(count(&w, block::OBSIDIAN), 20 - 6);
    assert_eq!(w.get(8, 11, 10), block::OBSIDIAN);
    assert_eq!(w.get(11, 15, 10), block::OBSIDIAN);
    assert_eq!(w.get(9, 12, 10), block::PORTAL);
    assert_eq!(w.get(10, 14, 10), block::PORTAL);
}

#[test]
fn central_tower() {
    let (mut w, hm) = flat_island(12, block::END_STONE);
    let base = build_central_tower(&mut w, &hm, 10, 10, 18);
    assert_eq!(base, 12);
    assert_eq!(w.get(9, 14, 11), block::PURPUR);
    for y in 15..=30 {
        assert_eq!(w.get(10, y, 10), block::PURPUR_PILLAR);
    }
    assert_eq!(w.get(10, 31, 10), block::END_ROD);
}

#[test]
fn village_tower() {
    let (mut w, hm) = flat_island(10, block::GRASS);
    build_village_tower(&mut w, &hm, 10, 10);
    assert_eq!(w.get(7, 10, 7), block::COBBLESTONE);
    assert_eq!(w.get(8, 11, 8), block::COBBLESTONE);
    assert_eq!(w.get(9, 11, 8), block::STONE_BRICKS);
    assert_eq!(w.get(10, 11, 8), block::AIR);
    assert_eq!(w.get(10, 12, 8), block::AIR);
    assert_eq!(w.get(9, 14, 8), block::GLASS);
    assert_eq!(w.get(12, 14, 11), block::GLASS);
    assert_eq!(count(&w, block::GLASS), 8);
    assert_eq!(w.get(8, 19, 8), block::OAK_PLANKS);
    assert_eq!(w.get(9, 20, 9), block::OAK_PLANKS);
    assert_eq!(w.get(10, 21, 10), block::LANTERN);
}

#[test]
fn gable_roof_rises_to_the_ridge() {
    let mut w = World::new(20, 20, 20);
    build_gable_roof(&mut w, 10, 10, 2, 1, 5, true, block::OAK_PLANKS);
    // ridge along x over z = 10, eaves at z = 8 and z = 12
    for x in 7..=13 {
        assert_eq!(w.get(x, 7, 10), block::OAK_PLANKS);
        assert_eq!(w.get(x, 6, 9), block::OAK_PLANKS);
        assert_eq!(w.get(x, 5, 12), block::OAK_PLANKS);
    }
    assert_eq!(count(&w, block::OAK_PLANKS), 7 * 5);
    let mut v = World::new(20, 20, 20);
    build_gable_roof(&mut v, 10, 10, 2, 1, 5, false, block::OAK_PLANKS);
    assert_eq!(v.get(10, 8, 10), block::OAK_PLANKS);
    assert_eq!(v.get(7, 5, 12), block::OAK_PLANKS);
    assert_eq!(count(&v, block::OAK_PLANKS), 7 * 5);
}

#[test]
fn village_house_variants() {
    for variant in 0..3u32 {
        let (mut w, hm) = flat_island(10, block::GRASS);
        build_village_house(&mut w, &hm, 15, 15, variant);
        let (hw, hd, wall_h) = match variant {
            0 => (2, 1, 4),
            1 => (1, 2, 4),
            _ => (2, 2, 5),
        };
        assert_eq!(w.get(15 - hw, 10, 15 - hd), block::COBBLESTONE);
        assert_eq!(w.get(15 - hw, 11, 15 - hd), block::OAK_LOG);
        assert_eq!(w.get(15, 11, 15 + hd), block::AIR);
        assert_eq!(w.get(15, 12, 15 + hd), block::AIR);
        assert_eq!(w.get(15 - hw, 12, 15), block::GLASS);
        assert_eq!(w.get(16, 11, 15 + hd + 1), block::LANTERN);
        assert_eq!(w.get(15, 12, 15), block::LANTERN);
        assert_eq!(w.get(15 - hw + 1, 10 + wall_h, 15 - hd), block::OAK_LOG);
        let ridge_y = 10 + wall_h + 1 + (if variant == 1 { hw } else { hd }) + 1;
        assert_eq!(w.get(15, ridge_y, 15), block::OAK_PLANKS);
        assert_eq!(w.get(15, ridge_y + 1, 15), block::AIR);
    }
}

#[test]
fn purpur_ship() {
    let (mut w, hm) = flat_island(10, block::END_STONE);
    build_purpur_ship(&mut w, &hm, 15, 15);
    let y = 13;
    assert_eq!(w.get(15, y, 17), block::PURPUR);
    assert_eq!(w.get(18, y, 17), block::PURPUR);
    assert_eq!(w.get(19, y, 17), block::AIR);
    assert_eq!(w.get(19, y, 16), block::PURPUR);
    assert_eq!(w.get(20, y, 15), block::PURPUR);
    assert_eq!(w.get(21, y, 15), block::PURPUR_PILLAR);
    assert_eq!(w.get(15, y + 3, 15), block::PURPUR_PILLAR);
    assert_eq!(w.get(15, y + 4, 15), block::END_STONE_BRICKS);
    assert_eq!(w.get(17, y + 4, 15), block::END_STONE_BRICKS);
    assert_eq!(w.get(15, y + 5, 15), block::PURPUR_PILLAR);
    assert_eq!(w.get(17, y + 5, 15), block::END_ROD);
    assert_eq!(w.get(12, y + 1, 15), block::END_ROD);
    assert_eq!(count(&w, block::PURPUR), 7 * 5 + 2 * 3 + 1);
}

#[test]
fn city_tower() {
    let (mut w, hm) = flat_island(5, block::END_STONE);
    let base = build_city_tower(&mut w, &hm, 15, 15, 2, true);
    assert_eq!(base, 5);
    // first storey: ledge at 6, rods at 7, walls 7..=9 with a door
    assert_eq!(w.get(11, 6, 11), block::PURPUR);
    // a one-block-high ledge is all shell: a full slab
    assert_eq!(w.get(13, 6, 13), block::PURPUR);
    assert_eq!(w.get(19, 7, 19), block::END_ROD);
    assert_eq!(w.get(12, 7, 15), block::END_STONE_BRICKS);
    assert_eq!(w.get(15, 7, 12), block::AIR);
    assert_eq!(w.get(15, 8, 12), block::AIR);
    assert_eq!(w.get(14, 8, 12), block::MAGENTA_GLASS);
    // second storey: no door
    assert_eq!(w.get(15, 11, 12), block::END_STONE_BRICKS);
    assert_eq!(w.get(18, 12, 16), block::MAGENTA_GLASS);
    // cap
    assert_eq!(w.get(11, 14, 15), block::PURPUR);
    assert_eq!(w.get(12, 15, 15), block::PURPUR);
    assert_eq!(w.get(14, 17, 14), block::PURPUR);
    assert_eq!(w.get(15, 18, 15), block::END_ROD);
    assert_eq!(count(&w, block::MAGENTA_GLASS), 16);

    let (mut flat, hm) = flat_island(5, block::END_STONE);
    build_city_tower(&mut flat, &hm, 15, 15, 1, false);
    assert_eq!(flat.get(15, 10, 15), block::AIR);
    assert_eq!(count(&flat, block::END_ROD), 4);
}

#[test]
fn farm_plot() {
    let (mut w, hm) = flat_island(10, block::GRASS);
    build_farm_plot(&mut w, &hm, 10, 10, 2, 2);
    for dz in -2..=2 {
        assert_eq!(w.get(10, 10, 10 + dz), block::WATER);
        assert_eq!(w.get(10, 11, 10 + dz), block::AIR);
        for dx in [-2, -1, 1, 2] {
            assert_eq!(w.get(10 + dx, 10, 10 + dz), block::FARMLAND);
            assert_eq!(w.get(10 + dx, 11, 10 + dz), block::CROPS);
        }
    }
    assert_eq!(count(&w, block::CROPS), 20);
    // fence: front and back rows on even offsets and both corners
    for dx in [-3, -2, 0, 2, 3] {
        assert_eq!(w.get(10 + dx, 11, 7), block::OAK_LOG);
        assert_eq!(w.get(10 + dx, 11, 13), block::OAK_LOG);
    }
    assert_eq!(w.get(9, 11, 7), block::AIR);
    // sides on even offsets
    for dz in [-2, 0, 2] {
        assert_eq!(w.get(7, 11, 10 + dz), block::OAK_LOG);
        assert_eq!(w.get(13, 11, 10 + dz), block::OAK_LOG);
    }
    assert_eq!(w.get(7, 11, 9), block::AIR);
    assert_eq!(count(&w, block::OAK_LOG), 16);
}

#[test]
fn clear_trees_in_a_disc() {
    let (mut w, _) = flat_island(5, block::GRASS);
    for (x, z) in [(10, 10), (12, 10), (12, 12), (14, 10)] {
        w.fill_box((x, 6, z), (x, 9, z), block::OAK_LOG);
        w.set(x, 10, z, block::LEAVES);
    }
    w.set(11, 8, 11, block::GLASS);
    clear_trees_near(&mut w, 10, 10, 2);
    assert_eq!(w.get(10, 7, 10), block::AIR);
    assert_eq!(w.get(12, 10, 10), block::AIR);
    // (2, 2) lies outside the disc of radius 2, (4, 0) too
    assert_eq!(w.get(12, 7, 12), block::OAK_LOG);
    assert_eq!(w.get(14, 10, 10), block::LEAVES);
    assert_eq!(w.get(11, 8, 11), block::GLASS);
    assert_eq!(w.get(10, 5, 10), block::GRASS);
}

#[test]
fn nylium_only_on_netherrack_surface() {
    let (mut w, hm) = flat_island(8, block::NETHERRACK);
    w.set(11, 8, 10, block::MAGMA);
    build_nylium_patch(&mut w, &hm, 10, 10, 2, block::CRIMSON_NYLIUM);
    assert_eq!(w.get(10, 8, 10), block::CRIMSON_NYLIUM);
    assert_eq!(w.get(12, 8, 10), block::CRIMSON_NYLIUM);
    assert_eq!(w.get(11, 8, 10), block::MAGMA);
    assert_eq!(w.get(12, 8, 12), block::NETHERRACK);
    assert_eq!(w.get(10, 7, 10), block::STONE);
    assert_eq!(count(&w, block::CRIMSON_NYLIUM), 12);
}

#[test]
fn path_lights_only_on_grass_or_sand() {
    let (mut w, _) = flat_island(10, block::GRASS);
    w.set(5, 10, 5, block::SAND);
    w.set(7, 10, 7, block::STONE);
    let mut on = vec![true; (N * N) as usize];
    on[(9 * N + 9) as usize] = false;
    let hm = Heightmap::from_columns(N, N, vec![10; (N * N) as usize], on);
    build_path_lights(&mut w, &hm, &[(3, 3), (5, 5), (7, 7), (9, 9), (100, 100)]);
    for (x, z) in [(3, 3), (5, 5)] {
        assert_eq!(w.get(x, 11, z), block::OAK_LOG);
        assert_eq!(w.get(x, 12, z), block::OAK_LOG);
        assert_eq!(w.get(x, 13, z), block::GLOWSTONE);
    }
    assert_eq!(w.get(7, 11, 7), block::AIR);
    assert_eq!(w.get(9, 11, 9), block::AIR);
    assert_eq!(count(&w, block::GLOWSTONE), 2);
}

#[test]
fn stairs_rise_one_per_step() {
    let mut w = World::new(20, 20, 20);
    place_stairs_like(&mut w, 5, 5, 2, 1, 0, 4, 3, block::OAK_PLANKS);
    for s in 0..4 {
        for wd in 0..3 {
            // the stair runs along +x; its width spreads along +z
            let (x, z) = (5 + s, 5 + wd);
            for y in 2..=2 + s {
                assert_eq!(w.get(x, y, z), block::OAK_PLANKS);
            }
            assert_eq!(w.get(x, 3 + s, z), block::AIR);
        }
    }
    assert_eq!(count(&w, block::OAK_PLANKS), 3 * (1 + 2 + 3 + 4));
}

#[test]
fn garden_is_seeded_and_spares_the_fountain() {
    let (mut a, hm) = flat_island(10, block::DIRT);
    build_garden(&mut a, &hm, 15, 15, 7);
    let (mut b, _) = flat_island(10, block::DIRT);
    build_garden(&mut b, &hm, 15, 15, 7);
    assert_eq!(a.blocks, b.blocks);
    assert_eq!(a.get(15, 11, 15), block::IRON_BLOCK);
    assert_eq!(a.get(13, 11, 15), block::WATER);
    assert_eq!(a.get(14, 11, 14), block::WATER);
    assert_eq!(a.get(13, 11, 13), block::AIR);
    assert_eq!(count(&a, block::WATER), 12);
    assert_eq!(a.get(20, 10, 20), block::GRASS);
    let mut shrubs = 0;
    for z in 11..=19 {
        for x in 11..=19 {
            if a.get(x, 11, z) == block::LEAVES {
                shrubs += 1;
                assert!((x - 15) * (x - 15) + (z - 15) * (z - 15) > 9);
            }
        }
    }
    assert!(shrubs >= 1 && shrubs <= 6);
}

#[test]
fn soul_fire_patch() {
    let (mut w, hm) = flat_island(8, block::NETHERRACK);
    build_soul_fire_patch(&mut w, &hm, 10, 10, 2, 5);
    assert_eq!(count(&w, block::SOUL_SAND), 13);
    for z in 0..N {
        for x in 0..N {
            if w.get(x, 9, z) == block::SOUL_FIRE {
                assert_eq!(w.get(x, 8, z), block::SOUL_SAND);
            }
        }
    }
    let (mut again, _) = flat_island(8, block::NETHERRACK);
    build_soul_fire_patch(&mut again, &hm, 10, 10, 2, 5);
    assert_eq!(w.blocks, again.blocks);
}

#[test]
fn fires_only_on_nether_ground() {
    let (mut w, hm) = flat_island(8, block::NETHERRACK);
    w.fill_box((0, 8, 0), (N - 1, 8, 9), block::STONE);
    scatter_fire(&mut w, &hm, 10, 10, 5, 7, 3);
    let fires = count(&w, block::FIRE);
    assert!(fires <= 7);
    for z in 0..N {
        for x in 0..N {
            if w.get(x, 9, z) == block::FIRE {
                assert_eq!(w.get(x, 8, z), block::NETHERRACK);
                assert!((5..=15).contains(&x) && (10..=15).contains(&z));
            }
        }
    }
    let (mut none, hm2) = flat_island(8, block::STONE);
    scatter_fire(&mut none, &hm2, 10, 10, 5, 7, 3);
    assert_eq!(count(&none, block::FIRE), 0);
}

#[test]
fn chorus_grove_on_end_stone() {
    let (mut w, hm) = flat_island(8, block::END_STONE);
    build_chorus_grove(&mut w, &hm, 15, 15, 6, 11);
    let flowers = count(&w, block::CHORUS);
    assert!(flowers >= 1 && flowers <= 6);
    let stalk = count(&w, block::CHORUS_PLANT);
    assert!(stalk >= 4 && stalk <= 7 * 6);
    for y in 0..NY {
        for z in 0..N {
            for x in 0..N {
                if w.get(x, y, z) == block::CHORUS_PLANT {
                    assert!((4..=26).contains(&x) && (4..=26).contains(&z) && (9..=15).contains(&y));
                }
            }
        }
    }
    let (mut bare, hm2) = flat_island(8, block::GRASS);
    build_chorus_grove(&mut bare, &hm2, 15, 15, 6, 11);
    assert_eq!(count(&bare, block::CHORUS), 0);
}

#[test]
fn fungus_cap_layers() {
    let mut w = World::new(16, 16, 16);
    let mut rng = Pcg32::new(4, 0xFE);
    build_fungus_cap(&mut w, 8, 5, 8, block::NETHER_WART_BLOCK, &mut rng);
    let layer = |y: i32| (0..16).flat_map(|z| (0..16).map(move |x| (x, z))).filter(|&(x, z)| w.get(x, y, z) == block::NETHER_WART_BLOCK).count();
    assert!((24..=28).contains(&layer(5)));
    assert!((24..=28).contains(&layer(6)));
    assert!((8..=12).contains(&layer(7)));
    assert_eq!(w.get(8, 5, 8), block::AIR);
    assert_eq!(w.get(8, 7, 8), block::AIR);
    assert_eq!(w.get(9, 5, 9), block::NETHER_WART_BLOCK);
    assert_eq!(w.get(11, 5, 10), block::AIR);
    let mut again = World::new(16, 16, 16);
    let mut rng2 = Pcg32::new(4, 0xFE);
    build_fungus_cap(&mut again, 8, 5, 8, block::NETHER_WART_BLOCK, &mut rng2);
    assert_eq!(w.blocks, again.blocks);
    assert_eq!(rng.next_u32(), rng2.next_u32());
}

#[test]
fn disc_islands() {
    let mini = disc_island_world(3, block::END_STONE, block::AIR, false);
    assert_eq!((mini.nx, mini.ny, mini.nz), (11, 6, 11));
    assert_eq!(count(&mini, block::END_STONE), 29 * 3);
    assert_eq!(mini.get(5, 2, 5), block::END_STONE);
    assert_eq!(mini.get(5, 3, 5), block::AIR);
    assert_eq!(mini.get(8, 0, 5), block::END_STONE);
    assert_eq!(mini.get(8, 0, 6), block::AIR);
    let rest = disc_island_world(5, block::END_STONE_BRICKS, block::END_STONE, true);
    assert_eq!((rest.nx, rest.ny, rest.nz), (15, 6, 15));
    assert_eq!(count(&rest, block::END_STONE_BRICKS), 81 * 3);
    assert_eq!(count(&rest, block::END_STONE), 81);
    assert_eq!(rest.get(7, 3, 7), block::END_STONE);
    assert_eq!(rest.get(7, 4, 7), block::AIR);
}

#[test]
fn flatten_area_empty_area_leaves_grid() {
    let (mut w, _) = flat_island(10, block::GRASS);
    let before = w.blocks.clone();
    flatten_area(&mut w, 6, 4, 5, 6, i32::MAX, block::SAND);
    flatten_area(&mut w, 4, 6, 6, 5, i32::MIN, block::SAND);
    assert_eq!(w.blocks, before);
}
