use vstd::prelude::*;

verus! {

/// Block ids stored in a voxel grid. Id 0 is always air.
pub const AIR: u8 = 0;
pub const GRASS: u8 = 1;
pub const DIRT: u8 = 2;
pub const SAND: u8 = 3;
pub const STONE_BRICKS: u8 = 4;
pub const OAK_LOG: u8 = 5;
pub const OAK_PLANKS: u8 = 6;
pub const LEAVES: u8 = 7;
pub const WATER: u8 = 8;
pub const GLASS: u8 = 9;
pub const GLOWSTONE: u8 = 10;
pub const IRON_BLOCK: u8 = 11;
pub const LAMP_FRAME: u8 = 12;
pub const NETHERRACK: u8 = 13;
pub const NETHER_BRICKS: u8 = 14;
pub const LAVA: u8 = 15;
pub const OBSIDIAN: u8 = 16;
pub const PORTAL: u8 = 17;
pub const MAGMA: u8 = 18;
pub const BASALT: u8 = 19;
pub const END_STONE: u8 = 20;
pub const PURPUR: u8 = 21;
pub const END_CRYSTAL: u8 = 22;
pub const END_ROD: u8 = 23;
pub const CHORUS: u8 = 24;
pub const END_STONE_BRICKS: u8 = 25;
pub const CRIMSON_STEM: u8 = 26;
pub const WARPED_STEM: u8 = 27;
pub const NETHER_WART_BLOCK: u8 = 28;
pub const WARPED_WART_BLOCK: u8 = 29;
pub const SHROOMLIGHT: u8 = 30;
pub const CRIMSON_NYLIUM: u8 = 31;
pub const WARPED_NYLIUM: u8 = 32;
pub const BLACKSTONE: u8 = 33;
pub const FIRE: u8 = 34;
pub const SOUL_FIRE: u8 = 35;
pub const SOUL_SAND: u8 = 36;
pub const PURPUR_PILLAR: u8 = 37;
pub const CHORUS_PLANT: u8 = 38;
pub const MAGENTA_GLASS: u8 = 39;
pub const COBBLESTONE: u8 = 40;
pub const STONE: u8 = 41;
pub const FARMLAND: u8 = 42;
pub const DIRT_PATH: u8 = 43;
pub const CROPS: u8 = 44;
pub const LANTERN: u8 = 45;
pub const BANNER: u8 = 46;
pub const COUNT: usize = 47;

} // verus!
