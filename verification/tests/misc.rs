use diorama::cli::parse_quality;
use diorama::framebuffer::{glyph, u32_to_rgb, Framebuffer};
use diorama::heightmap::Heightmap;
use diorama::intersect::Face;
use diorama::islands::Island;
use diorama::record::CenterTarget;
use diorama::scene::max_depth_for_quality;
use diorama::tiles::{build_tiles, Tile, TILE};
use diorama::lights::light_cell_index;
use diorama::record::split_hms;
use diorama::texgen::{blank, missing_texture, put, SIZE};
use diorama::texture::texel_index;
use diorama::world::World;

#[test]
fn framebuffer_set_get_resize() {
    let mut fb = Framebuffer::new(4, 3);
    assert_eq!(fb.pixels.len(), 12);
    assert!(fb.pixels.iter().all(|&p| p == 0));
    fb.set(3, 2, 0x00FF8000);
    assert_eq!(fb.get(3, 2), 0x00FF8000);
    assert_eq!(fb.pixels[2 * 4 + 3], 0x00FF8000);
    assert_eq!(fb.get(2, 2), 0);
    fb.resize(2, 2);
    assert_eq!((fb.width, fb.height), (2, 2));
    assert_eq!(fb.pixels, vec![0; 4]);
}

#[test]
fn rgb_split() {
    assert_eq!(u32_to_rgb(0x00123456), (0x12, 0x34, 0x56));
    assert_eq!(u32_to_rgb(0xFFABCDEF), (0xAB, 0xCD, 0xEF));
}

#[test]
fn glyphs() {
    assert_eq!(glyph('A'), [0b01110, 0b10001, 0b10001, 0b11111, 0b10001, 0b10001, 0b10001]);
    assert_eq!(glyph('a'), glyph('A'));
    assert_eq!(glyph('7'), [0b11111, 0b00001, 0b00010, 0b00100, 0b01000, 0b01000, 0b01000]);
    assert_eq!(glyph('%'), [0b11001, 0b11010, 0b00010, 0b00100, 0b01000, 0b01011, 0b10011]);
    assert_eq!(glyph('?'), [0; 7]);
    assert_eq!(glyph(' '), [0; 7]);
}

#[test]
fn draw_text_paints_the_font() {
    let mut fb = Framebuffer::new(20, 10);
    fb.draw_text(1, 1, "AI", 0x00FFFFFF, 1);
    let a = glyph('A');
    let i = glyph('I');
    for row in 0..7 {
        for col in 0..5 {
            let on_a = (a[row] >> (4 - col)) & 1 == 1;
            let on_i = (i[row] >> (4 - col)) & 1 == 1;
            assert_eq!(fb.get(1 + col as u32, 1 + row as u32) == 0x00FFFFFF, on_a);
            assert_eq!(fb.get(7 + col as u32, 1 + row as u32) == 0x00FFFFFF, on_i);
        }
    }
    // the gap column between letters stays untouched
    for row in 0..10 {
        assert_eq!(fb.get(6, row), 0);
    }
}

#[test]
fn draw_text_scales_clips_and_skips_spaces() {
    let mut fb = Framebuffer::new(8, 8);
    fb.draw_text(-2, 0, " T", 7, 2);
    // the space advances by 12 pixels, so the T starts at x = 10: off the frame
    assert!(fb.pixels.iter().all(|&p| p == 0));
    let mut big = Framebuffer::new(12, 16);
    big.draw_text(0, 0, "T", 5, 2);
    // the top bar of T is 5 dots of 2x2 pixels
    for x in 0..10 {
        assert_eq!(big.get(x, 0), 5);
        assert_eq!(big.get(x, 1), 5);
    }
    assert_eq!(big.get(4, 2), 5);
    assert_eq!(big.get(5, 13), 5);
    assert_eq!(big.get(3, 2), 0);
    assert_eq!(big.get(10, 0), 0);
}

#[test]
fn tiles_cover_the_frame() {
    let tiles = build_tiles(40, 20);
    assert_eq!(TILE, 16);
    assert_eq!(tiles.len(), 6);
    assert_eq!(tiles[0], Tile { x0: 0, y0: 0, x1: 16, y1: 16 });
    assert_eq!(tiles[2], Tile { x0: 32, y0: 0, x1: 40, y1: 16 });
    assert_eq!(tiles[3], Tile { x0: 0, y0: 16, x1: 16, y1: 20 });
    assert_eq!(tiles[5], Tile { x0: 32, y0: 16, x1: 40, y1: 20 });
    let mut covered = vec![0u32; 40 * 20];
    for t in &tiles {
        for y in t.y0..t.y1 {
            for x in t.x0..t.x1 {
                covered[(y * 40 + x) as usize] += 1;
            }
        }
    }
    assert!(covered.iter().all(|&c| c == 1));
    assert!(build_tiles(0, 5).is_empty());
}

#[test]
fn quality_names() {
    assert_eq!(parse_quality("baja", 3), 1);
    assert_eq!(parse_quality("media", 3), 2);
    assert_eq!(parse_quality("alta", 1), 3);
    assert_eq!(parse_quality("ultra", 2), 2);
    assert_eq!(parse_quality("", 3), 3);
    assert_eq!(parse_quality("Alta", 1), 1);
}

#[test]
fn depth_per_quality() {
    assert_eq!(max_depth_for_quality(1), 2);
    assert_eq!(max_depth_for_quality(2), 4);
    assert_eq!(max_depth_for_quality(3), 6);
    assert_eq!(max_depth_for_quality(0), 4);
    assert_eq!(max_depth_for_quality(9), 4);
}

#[test]
fn faces_by_axis_and_sign() {
    assert_eq!(Face::from_axis_sign(0, true), Face::PX);
    assert_eq!(Face::from_axis_sign(0, false), Face::NX);
    assert_eq!(Face::from_axis_sign(1, true), Face::PY);
    assert_eq!(Face::from_axis_sign(1, false), Face::NY);
    assert_eq!(Face::from_axis_sign(2, true), Face::PZ);
    assert_eq!(Face::from_axis_sign(2, false), Face::NZ);
    assert_eq!(Face::from_axis_sign(7, true), Face::NZ);
}

#[test]
fn island_keeps_grid_and_offset() {
    let island = Island::new(World::new(2, 3, 4), (10, -5, 7));
    assert_eq!(island.offset, (10, -5, 7));
    assert_eq!((island.world.nx, island.world.ny, island.world.nz), (2, 3, 4));
    assert_ne!(CenterTarget::Main, CenterTarget::End);
    let t = CenterTarget::Monolith;
    assert_eq!(t, CenterTarget::Monolith);
}

#[test]
fn heightmap_columns() {
    let hm = Heightmap::from_columns(3, 2, vec![1, 2, 3, 4, 5, 6], vec![true, false, true, true, true, false]);
    assert_eq!(hm.top_at(0, 0), Some(1));
    assert_eq!(hm.top_at(1, 0), None);
    assert_eq!(hm.top_at(2, 0), Some(3));
    assert_eq!(hm.top_at(0, 1), Some(4));
    assert_eq!(hm.top_at(2, 1), None);
    assert_eq!(hm.top_at(-1, 0), None);
    assert_eq!(hm.top_at(3, 0), None);
    assert_eq!(hm.top_at(0, 2), None);
}

#[test]
fn upscale_nearest_neighbour() {
    let mut small = Framebuffer::new(2, 2);
    small.set(0, 0, 1);
    small.set(1, 0, 2);
    small.set(0, 1, 3);
    small.set(1, 1, 4);
    let mut big = Framebuffer::new(4, 4);
    small.upscale_into(&mut big);
    assert_eq!(big.pixels, vec![1, 1, 2, 2, 1, 1, 2, 2, 3, 3, 4, 4, 3, 3, 4, 4]);
    let mut odd = Framebuffer::new(3, 1);
    small.upscale_into(&mut odd);
    // x * 2 / 3 for x = 0, 1, 2
    assert_eq!(odd.pixels, vec![1, 1, 2]);
    let mut empty = Framebuffer::new(0, 0);
    Framebuffer::new(0, 0).upscale_into(&mut empty);
    assert!(empty.pixels.is_empty());
}

#[test]
fn texel_indices_wrap() {
    assert_eq!(texel_index(16, 16, 0, 0), 0);
    assert_eq!(texel_index(16, 16, 3, 2), 2 * 16 + 3);
    assert_eq!(texel_index(16, 16, -1, 0), 15);
    assert_eq!(texel_index(16, 16, 16, 17), 16);
    assert_eq!(texel_index(4, 3, -5, -4), 2 * 4 + 3);
    assert_eq!(texel_index(7, 5, i32::MIN, i32::MAX), ((i32::MAX as i64).rem_euclid(5) * 7 + (i32::MIN as i64).rem_euclid(7)) as usize);
}

#[test]
fn light_cells() {
    assert_eq!(light_cell_index(2, 3, 4, 0, 0, 0), Some(0));
    assert_eq!(light_cell_index(2, 3, 4, 1, 2, 3), Some((1 * 3 + 2) * 4 + 3));
    assert_eq!(light_cell_index(2, 3, 4, 2, 0, 0), None);
    assert_eq!(light_cell_index(2, 3, 4, 0, -1, 0), None);
    assert_eq!(light_cell_index(2, 3, 4, 0, 0, 4), None);
}

#[test]
fn hours_minutes_seconds() {
    assert_eq!(split_hms(0), (0, 0, 0));
    assert_eq!(split_hms(59), (0, 0, 59));
    assert_eq!(split_hms(3661), (1, 1, 1));
    assert_eq!(split_hms(7322), (2, 2, 2));
}

#[test]
fn texture_buffers() {
    let mut buf = blank();
    assert_eq!(buf.len(), (SIZE * SIZE * 4) as usize);
    assert!(buf.iter().all(|&b| b == 0));
    put(&mut buf, 2, 1, [1, 2, 3, 4]);
    assert_eq!(&buf[(16 + 2) * 4..(16 + 2) * 4 + 4], &[1, 2, 3, 4]);
    assert_eq!(buf.iter().filter(|&&b| b != 0).count(), 4);
    let tex = missing_texture();
    assert_eq!(&tex[0..4], &[255, 0, 255, 255]);
    assert_eq!(&tex[4..8], &[0, 0, 0, 255]);
    assert_eq!(&tex[16 * 4..16 * 4 + 4], &[0, 0, 0, 255]);
    assert_eq!(&tex[(16 + 1) * 4..(16 + 1) * 4 + 4], &[255, 0, 255, 255]);
}

#[test]
fn draw_text_empty_with_huge_scale_changes_nothing() {
    let mut fb = Framebuffer::new(4, 3);
    fb.set(1, 1, 0x123456);
    let before = fb.pixels.clone();
    fb.draw_text(0, 0, "", 0xFFFFFF, i32::MAX / 7);
    assert_eq!(fb.pixels, before);
}
