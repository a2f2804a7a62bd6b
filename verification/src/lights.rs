use vstd::prelude::*;

use crate::world::{grid_domain, lemma_index_bounds, linear_index};

verus! {

/// The slot of cell `(cx, cy, cz)` of a light grid of `nx x ny x nz` cells,
/// laid out x-major, then y, then z; `None` outside the grid.
pub open spec fn light_cell_slot(nx: int, ny: int, nz: int, cx: int, cy: int, cz: int) -> Option<int> {
    if 0 <= cx < nx && 0 <= cy < ny && 0 <= cz < nz {
        Some((cx * ny + cy) * nz + cz)
    } else {
        None
    }
}

/// The storage slot of cell `(cx, cy, cz)` of a light grid of
/// `nx x ny x nz` cells; `None` outside the grid.
pub fn light_cell_index(nx: i32, ny: i32, nz: i32, cx: i32, cy: i32, cz: i32) -> (slot: Option<usize>)
    requires
        nx * ny * nz <= i32::MAX,
    ensures
        match slot {
            Some(i) => light_cell_slot(nx as int, ny as int, nz as int, cx as int, cy as int, cz as int) == Some(
                i as int,
            ) && i < nx * ny * nz,
            None => light_cell_slot(nx as int, ny as int, nz as int, cx as int, cy as int, cz as int) is None,
        },
{
    if cx < 0 || cy < 0 || cz < 0 || cx >= nx || cy >= ny || cz >= nz {
        return None;
    }
    proof {
        let p = (cz as int, cx as int, cy as int);
        assert(grid_domain(nz as int, nx as int, ny as int).contains(p));
        lemma_index_bounds(p, nz as int, nx as int, ny as int);
        assert(linear_index(p, nz as int, ny as int) == (cx * ny + cy) * nz + cz);
        assert(nz * nx * ny == nx * ny * nz) by (nonlinear_arith);
    }
    Some(((cx * ny + cy) * nz + cz) as usize)
}

} // verus!
