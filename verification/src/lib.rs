//! Integer core of a voxel diorama renderer: voxel grids and the structures
//! built in them, a PCG32 generator and Perlin permutation tables, the pixel
//! framebuffer with its bitmap font, and the PNG/zlib/BMP byte formats.

pub mod block;
pub mod world;
pub mod noise;
pub mod hash;
pub mod image_io;
pub mod framebuffer;
pub mod tiles;
pub mod heightmap;
pub mod structures;
pub mod terrain;
pub mod islands;
pub mod intersect;
pub mod cli;
pub mod scene;
pub mod record;
pub mod lights;
pub mod texture;
pub mod texgen;
