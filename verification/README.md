# diorama

A voxel-diorama ray tracer split in two.

- `src/` is the verified library (Verus): voxel grids and every structure
  built in them on whole blocks, island terrain columns and tree planting,
  the PCG32 generator and the Perlin lattice, the framebuffer with its
  bitmap font and nearest-neighbour scaling, frame tiling, PNG/zlib writing
  and BMP reading, and the small integer rules of the renderer (bounce
  budget per quality, light-grid cells, texel wrapping). Each builder's
  result is stated exactly as a composition of fills, shells and single
  blocks over a mathematical model of the grid.
- `app/` is the program around it: the window (raylib), files, threads,
  timing, and all floating-point work (camera, shading, noise interpolation,
  sky, textures, and the scene layout placed by angles and distances).
- `tests/` exercises the library on concrete values.
