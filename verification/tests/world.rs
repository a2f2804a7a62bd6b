use diorama::block;
use diorama::world::World;

#[test]
fn new_world_is_air() {
    let w = World::new(3, 4, 5);
    assert_eq!((w.nx, w.ny, w.nz), (3, 4, 5));
    assert_eq!(w.blocks.len(), 60);
    for y in 0..4 {
        for z in 0..5 {
            for x in 0..3 {
                assert_eq!(w.get(x, y, z), block::AIR);
            }
        }
    }
}

#[test]
fn get_after_set() {
    let mut w = World::new(4, 4, 4);
    w.set(1, 2, 3, block::GLASS);
    assert_eq!(w.get(1, 2, 3), block::GLASS);
    assert_eq!(w.get(3, 2, 1), block::AIR);
    // storage is y-major, then z, then x
    assert_eq!(w.blocks[((2 * 4 + 3) * 4 + 1) as usize], block::GLASS);
    w.set(1, 2, 3, block::STONE);
    assert_eq!(w.get(1, 2, 3), block::STONE);
}

#[test]
fn outside_the_grid_reads_air_and_ignores_writes() {
    let mut w = World::new(2, 2, 2);
    let before = w.blocks.clone();
    w.set(-1, 0, 0, block::LAVA);
    w.set(0, 2, 0, block::LAVA);
    w.set(0, 0, 5, block::LAVA);
    assert_eq!(w.blocks, before);
    assert_eq!(w.get(-1, 0, 0), block::AIR);
    assert_eq!(w.get(2, 0, 0), block::AIR);
}

#[test]
fn fill_box_corners_in_any_order_and_clipped() {
    let mut a = World::new(5, 5, 5);
    let mut b = World::new(5, 5, 5);
    a.fill_box((1, 1, 1), (3, 2, 4), block::DIRT);
    b.fill_box((3, 2, 4), (1, 1, 1), block::DIRT);
    assert_eq!(a.blocks, b.blocks);
    assert_eq!(a.get(2, 2, 4), block::DIRT);
    assert_eq!(a.get(0, 1, 1), block::AIR);
    assert_eq!(a.get(2, 3, 2), block::AIR);
    let count = a.blocks.iter().filter(|&&id| id == block::DIRT).count();
    assert_eq!(count, 3 * 2 * 4);

    let mut c = World::new(3, 3, 3);
    c.fill_box((-10, -10, -10), (10, 10, 10), block::SAND);
    assert!(c.blocks.iter().all(|&id| id == block::SAND));
}

#[test]
fn fill_box_twice_is_fill_once() {
    let mut a = World::new(4, 4, 4);
    a.set(0, 0, 0, block::GLASS);
    let mut b = World::new(4, 4, 4);
    b.set(0, 0, 0, block::GLASS);
    a.fill_box((0, 0, 0), (2, 2, 2), block::OAK_LOG);
    b.fill_box((0, 0, 0), (2, 2, 2), block::OAK_LOG);
    b.fill_box((0, 0, 0), (2, 2, 2), block::OAK_LOG);
    assert_eq!(a.blocks, b.blocks);
}

#[test]
fn hollow_box_keeps_interior() {
    let mut w = World::new(5, 5, 5);
    w.set(2, 2, 2, block::GLOWSTONE);
    w.hollow_box((1, 1, 1), (3, 3, 3), block::GLASS);
    assert_eq!(w.get(2, 2, 2), block::GLOWSTONE);
    assert_eq!(w.get(1, 2, 2), block::GLASS);
    assert_eq!(w.get(3, 3, 3), block::GLASS);
    assert_eq!(w.get(2, 1, 2), block::GLASS);
    assert_eq!(w.get(0, 2, 2), block::AIR);
    let glass = w.blocks.iter().filter(|&&id| id == block::GLASS).count();
    assert_eq!(glass, 27 - 1);
}

#[test]
fn hollow_box_of_thin_boxes_fills_them() {
    let mut w = World::new(6, 6, 6);
    w.hollow_box((0, 0, 0), (5, 0, 5), block::PURPUR);
    assert_eq!(w.blocks.iter().filter(|&&id| id == block::PURPUR).count(), 36);
}

#[test]
fn empty_world() {
    let mut w = World::new(0, 5, 5);
    w.set(0, 0, 0, block::GLASS);
    w.fill_box((0, 0, 0), (4, 4, 4), block::GLASS);
    assert!(w.blocks.is_empty());
    assert_eq!(w.get(0, 0, 0), block::AIR);
}
