use vstd::prelude::*;

use crate::framebuffer::lemma_row_major_bounds;

verus! {

/// Surface height per `(x, z)` column of an island grid, so that structures
/// can be placed on the real terrain instead of at a fixed height.
pub struct Heightmap {
    nx: i32,
    nz: i32,
    top: Vec<i32>,
    on_island: Vec<bool>,
}

impl Heightmap {
    pub closed spec fn wf(&self) -> bool {
        &&& 0 <= self.nx
        &&& 0 <= self.nz
        &&& self.nx * self.nz <= i32::MAX
        &&& self.top@.len() == self.nx * self.nz
        &&& self.on_island@.len() == self.nx * self.nz
    }

    /// The surface height of column `(x, z)`, or `None` outside the grid or
    /// off the island.
    pub closed spec fn surface(&self, x: int, z: int) -> Option<i32> {
        if 0 <= x < self.nx && 0 <= z < self.nz && self.on_island@[z * self.nx + x] {
            Some(self.top@[z * self.nx + x])
        } else {
            None
        }
    }

    /// A heightmap of `nx x nz` columns from row-major (`z` major) surface
    /// heights and island membership.
    pub fn from_columns(nx: i32, nz: i32, top: Vec<i32>, on_island: Vec<bool>) -> (hm: Self)
        requires
            0 <= nx,
            0 <= nz,
            nx * nz <= i32::MAX,
            top@.len() == nx * nz,
            on_island@.len() == nx * nz,
        ensures
            hm.wf(),
            forall|x: int, z: int|
                #![trigger hm.surface(x, z)]
                hm.surface(x, z) == if 0 <= x < nx && 0 <= z < nz && on_island@[z * nx + x] {
                    Some(top@[z * nx + x])
                } else {
                    None
                },
    {
        Heightmap { nx, nz, top, on_island }
    }

    #[inline]
    fn idx(&self, x: i32, z: i32) -> (i: usize)
        requires
            self.wf(),
            0 <= x < self.nx,
            0 <= z < self.nz,
        ensures
            i == z * self.nx + x,
            i < self.top@.len(),
    {
        proof {
            lemma_row_major_bounds(x as int, z as int, self.nx as int, self.nz as int);
        }
        (z * self.nx + x) as usize
    }

    /// Surface y at `(x, z)`, or `None` if outside the grid or not part of
    /// the island.
    pub fn top_at(&self, x: i32, z: i32) -> (t: Option<i32>)
        requires
            self.wf(),
        ensures
            t == self.surface(x as int, z as int),
    {
        if x < 0 || z < 0 || x >= self.nx || z >= self.nz {
            return None;
        }
        let i = self.idx(x, z);
        if self.on_island[i] {
            Some(self.top[i])
        } else {
            None
        }
    }
}

} // verus!
