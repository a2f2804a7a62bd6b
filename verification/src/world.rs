use vstd::prelude::*;

verus! {

/// A voxel coordinate of the mathematical model.
pub type Voxel = (int, int, int);

/// The contents of a voxel grid: each voxel inside the grid's bounds mapped
/// to the id of the block that fills it.
pub type Grid = Map<Voxel, u8>;

pub open spec fn voxel(t: (i32, i32, i32)) -> Voxel {
    (t.0 as int, t.1 as int, t.2 as int)
}

pub open spec fn min_int(a: int, b: int) -> int {
    if a <= b { a } else { b }
}

pub open spec fn max_int(a: int, b: int) -> int {
    if a <= b { b } else { a }
}

/// The voxels `0 <= x < nx`, `0 <= y < ny`, `0 <= z < nz`.
pub open spec fn grid_domain(nx: int, ny: int, nz: int) -> Set<Voxel> {
    Set::new(|p: Voxel| 0 <= p.0 < nx && 0 <= p.1 < ny && 0 <= p.2 < nz)
}

/// The lowest corner of the box spanned by two corners given in any order.
pub open spec fn box_lo(a: Voxel, b: Voxel) -> Voxel {
    (min_int(a.0, b.0), min_int(a.1, b.1), min_int(a.2, b.2))
}

/// The highest corner of the box spanned by two corners given in any order.
pub open spec fn box_hi(a: Voxel, b: Voxel) -> Voxel {
    (max_int(a.0, b.0), max_int(a.1, b.1), max_int(a.2, b.2))
}

/// `lo <= p <= hi` on every axis.
pub open spec fn within(p: Voxel, lo: Voxel, hi: Voxel) -> bool {
    &&& lo.0 <= p.0 <= hi.0
    &&& lo.1 <= p.1 <= hi.1
    &&& lo.2 <= p.2 <= hi.2
}

/// `p` lies in the inclusive box spanned by the corners `a` and `b`.
pub open spec fn in_box(p: Voxel, a: Voxel, b: Voxel) -> bool {
    within(p, box_lo(a, b), box_hi(a, b))
}

/// `p` lies on the outer layer of the inclusive box spanned by `a` and `b`.
pub open spec fn on_shell(p: Voxel, a: Voxel, b: Voxel) -> bool {
    let lo = box_lo(a, b);
    let hi = box_hi(a, b);
    &&& in_box(p, a, b)
    &&& (p.0 == lo.0 || p.0 == hi.0 || p.1 == lo.1 || p.1 == hi.1 || p.2 == lo.2 || p.2 == hi.2)
}

/// `g` with every voxel of the grid in `lo..=hi` set to `id`.
pub open spec fn fill_region(g: Grid, lo: Voxel, hi: Voxel, id: u8) -> Grid {
    Map::new(|p: Voxel| g.dom().contains(p), |p: Voxel| if within(p, lo, hi) { id } else { g[p] })
}

/// `g` with every voxel of the grid in the box spanned by `a` and `b` set to `id`.
pub open spec fn painted(g: Grid, a: Voxel, b: Voxel, id: u8) -> Grid {
    fill_region(g, box_lo(a, b), box_hi(a, b), id)
}

/// `g` with every voxel of the grid on the shell of the box spanned by `a`
/// and `b` set to `id`; the interior is left as it was.
pub open spec fn shell_painted(g: Grid, a: Voxel, b: Voxel, id: u8) -> Grid {
    Map::new(|p: Voxel| g.dom().contains(p), |p: Voxel| if on_shell(p, a, b) { id } else { g[p] })
}

/// `g` with the voxel `p` set to `id` when `p` is inside the grid.
pub open spec fn placed(g: Grid, p: Voxel, id: u8) -> Grid {
    if g.dom().contains(p) {
        g.insert(p, id)
    } else {
        g
    }
}

/// The block id at `p`: the grid's content inside, air outside.
pub open spec fn block_at(g: Grid, p: Voxel) -> u8 {
    if g.dom().contains(p) {
        g[p]
    } else {
        0
    }
}

pub open spec fn linear_index(p: Voxel, nx: int, nz: int) -> int {
    (p.1 * nz + p.2) * nx + p.0
}

proof fn lemma_mixed_radix(a: int, x: int, b: int, y: int, n: int)
    requires
        0 <= x < n,
        0 <= y < n,
        a * n + x == b * n + y,
    ensures
        a == b,
        x == y,
{
    if a > b {
        assert((a - b) * n >= n) by (nonlinear_arith)
            requires
                a - b >= 1,
                n > 0,
        ;
        assert(a * n - b * n == (a - b) * n) by (nonlinear_arith);
    } else if a < b {
        assert((b - a) * n >= n) by (nonlinear_arith)
            requires
                b - a >= 1,
                n > 0,
        ;
        assert(b * n - a * n == (b - a) * n) by (nonlinear_arith);
    }
}

pub(crate) proof fn lemma_index_bounds(p: Voxel, nx: int, ny: int, nz: int)
    requires
        grid_domain(nx, ny, nz).contains(p),
    ensures
        0 <= p.1 * nz,
        p.1 * nz + p.2 < ny * nz,
        0 <= (p.1 * nz + p.2) * nx,
        (p.1 * nz + p.2) * nx + p.0 < nx * ny * nz,
        0 <= linear_index(p, nx, nz) < nx * ny * nz,
        ny * nz <= nx * ny * nz,
{
    let (x, y, z) = p;
    assert(0 <= y * nz) by (nonlinear_arith)
        requires
            0 <= y,
            0 < nz,
    ;
    assert(y * nz + z < ny * nz) by (nonlinear_arith)
        requires
            0 <= y < ny,
            0 <= z < nz,
    ;
    let a = y * nz + z;
    assert(0 <= a * nx) by (nonlinear_arith)
        requires
            0 <= a,
            0 < nx,
    ;
    assert(a * nx + x < nx * ny * nz) by (nonlinear_arith)
        requires
            0 <= a < ny * nz,
            0 <= x < nx,
    ;
    assert(ny * nz <= nx * ny * nz) by (nonlinear_arith)
        requires
            0 < ny,
            0 < nz,
            1 <= nx,
    ;
}

proof fn lemma_index_injective(p: Voxel, q: Voxel, nx: int, ny: int, nz: int)
    requires
        grid_domain(nx, ny, nz).contains(p),
        grid_domain(nx, ny, nz).contains(q),
        linear_index(p, nx, nz) == linear_index(q, nx, nz),
    ensures
        p == q,
{
    lemma_index_bounds(p, nx, ny, nz);
    lemma_index_bounds(q, nx, ny, nz);
    lemma_mixed_radix(p.1 * nz + p.2, p.0, q.1 * nz + q.2, q.0, nx);
    lemma_mixed_radix(p.1, p.2, q.1, q.2, nz);
}

/// Dense voxel grid. Block id 0 is always air. Voxel `(x, y, z)` occupies the
/// unit cube `[x, x+1) x [y, y+1) x [z, z+1)` in the grid's own space.
pub struct World {
    pub nx: i32,
    pub ny: i32,
    pub nz: i32,
    pub blocks: Vec<u8>,
}

impl View for World {
    type V = Grid;

    closed spec fn view(&self) -> Grid {
        Map::new(
            |p: Voxel| grid_domain(self.nx as int, self.ny as int, self.nz as int).contains(p),
            |p: Voxel| self.blocks@[linear_index(p, self.nx as int, self.nz as int)],
        )
    }
}

impl World {
    pub closed spec fn storage_ok(&self) -> bool {
        &&& self.blocks@.len() == self.nx * self.ny * self.nz
        &&& self.nx * self.ny * self.nz <= i32::MAX
    }

    /// Well-formedness: the storage matches the dimensions, and the model's
    /// domain is exactly the grid's bounds.
    pub open spec fn wf(&self) -> bool {
        &&& self.storage_ok()
        &&& self@.dom() == grid_domain(self.nx as int, self.ny as int, self.nz as int)
    }

    /// `other` has the same dimensions as `self`.
    pub open spec fn same_dims(&self, other: &World) -> bool {
        self.nx == other.nx && self.ny == other.ny && self.nz == other.nz
    }

    /// Creates a grid of `nx * ny * nz` voxels, all air.
    pub fn new(nx: i32, ny: i32, nz: i32) -> (w: World)
        requires
            i32::MIN <= nx * ny <= i32::MAX,
            0 <= nx * ny * nz <= i32::MAX,
        ensures
            w.wf(),
            w.nx == nx,
            w.ny == ny,
            w.nz == nz,
            w@.dom() == grid_domain(nx as int, ny as int, nz as int),
            forall|p: Voxel| #[trigger] w@.dom().contains(p) ==> w@[p] == 0,
    {
        let n = nx * ny * nz;
        let blocks = vec![0u8; n as usize];
        let w = World { nx, ny, nz, blocks };
        assert forall|p: Voxel| #[trigger] w@.dom().contains(p) implies w@[p] == 0 by {
            lemma_index_bounds(p, nx as int, ny as int, nz as int);
        }
        assert(w@.dom() =~= grid_domain(nx as int, ny as int, nz as int));
        w
    }

    #[inline]
    fn in_bounds(&self, x: i32, y: i32, z: i32) -> (b: bool)
        requires
            self.wf(),
        ensures
            b == self@.dom().contains((x as int, y as int, z as int)),
    {
        x >= 0 && y >= 0 && z >= 0 && x < self.nx && y < self.ny && z < self.nz
    }

    #[inline]
    fn idx(&self, x: i32, y: i32, z: i32) -> (i: usize)
        requires
            self.wf(),
            self@.dom().contains((x as int, y as int, z as int)),
        ensures
            i == linear_index((x as int, y as int, z as int), self.nx as int, self.nz as int),
            i < self.blocks@.len(),
    {
        proof {
            lemma_index_bounds((x as int, y as int, z as int), self.nx as int, self.ny as int, self.nz as int);
        }
        ((y * self.nz + z) * self.nx + x) as usize
    }

    /// The block at `(x, y, z)`; air outside the grid.
    #[inline]
    pub fn get(&self, x: i32, y: i32, z: i32) -> (id: u8)
        requires
            self.wf(),
        ensures
            id == block_at(self@, (x as int, y as int, z as int)),
    {
        if self.in_bounds(x, y, z) {
            self.blocks[self.idx(x, y, z)]
        } else {
            0
        }
    }

    /// Sets the block at `(x, y, z)`; does nothing outside the grid.
    #[inline]
    pub fn set(&mut self, x: i32, y: i32, z: i32, id: u8)
        requires
            old(self).wf(),
        ensures
            final(self).wf(),
            final(self).same_dims(old(self)),
            final(self)@ == placed(old(self)@, (x as int, y as int, z as int), id),
    {
        if self.in_bounds(x, y, z) {
            let i = self.idx(x, y, z);
            let ghost before = *self;
            self.blocks.set(i, id);
            let ghost p = (x as int, y as int, z as int);
            assert forall|q: Voxel| #[trigger] self@.dom().contains(q) implies self@[q] == (if q == p {
                id
            } else {
                before@[q]
            }) by {
                lemma_index_bounds(q, self.nx as int, self.ny as int, self.nz as int);
                if q != p {
                    if linear_index(q, self.nx as int, self.nz as int) == i {
                        lemma_index_injective(q, p, self.nx as int, self.ny as int, self.nz as int);
                    }
                }
            }
            assert(self@ =~= before@.insert(p, id));
        }
    }

    /// Fills the inclusive box spanned by the corners `min` and `max` (in any
    /// order) with `id`; voxels of the box outside the grid are skipped.
    pub fn fill_box(&mut self, min: (i32, i32, i32), max: (i32, i32, i32), id: u8)
        requires
            old(self).wf(),
        ensures
            final(self).wf(),
            final(self).same_dims(old(self)),
            final(self)@ == painted(old(self)@, voxel(min), voxel(max), id),
    {
        let ghost g0 = self@;
        let ghost lo = box_lo(voxel(min), voxel(max));
        let ghost hi = box_hi(voxel(min), voxel(max));
        if self.nx <= 0 || self.ny <= 0 || self.nz <= 0 {
            assert(self@ =~= painted(g0, voxel(min), voxel(max), id));
            return;
        }
        // Clip the box to the grid: voxels outside it are never written.

        let x0 = if min.0 <= max.0 { min.0 } else { max.0 };
        let x1 = if min.0 <= max.0 { max.0 } else { min.0 };
        let y0 = if min.1 <= max.1 { min.1 } else { max.1 };
        let y1 = if min.1 <= max.1 { max.1 } else { min.1 };
        let z0 = if min.2 <= max.2 { min.2 } else { max.2 };
        let z1 = if min.2 <= max.2 { max.2 } else { min.2 };
        let x0 = if x0 < 0 { 0 } else { x0 };
        let y0 = if y0 < 0 { 0 } else { y0 };
        let z0 = if z0 < 0 { 0 } else { z0 };
        let x1 = if x1 >= self.nx { self.nx - 1 } else { x1 };
        let y1 = if y1 >= self.ny { self.ny - 1 } else { y1 };
        let z1 = if z1 >= self.nz { self.nz - 1 } else { z1 };
        let ghost nx = self.nx;
        let ghost ny = self.ny;
        let ghost nz = self.nz;
        if x0 > x1 || y0 > y1 || z0 > z1 {
            assert(self@ =~= painted(g0, voxel(min), voxel(max), id));
            return;
        }

        let mut y = y0;
        assert(g0 =~= fill_region(g0, (x0 as int, y0 as int, z0 as int), (x1 as int, y0 - 1, z1 as int), id));
        while y <= y1
            invariant
                self.wf(),
                self.nx == nx,
                self.ny == ny,
                self.nz == nz,
                g0.dom() == grid_domain(nx as int, ny as int, nz as int),
                0 <= x0,
                0 <= y0 <= y <= y1 + 1,
                0 <= z0,
                x1 < nx,
                y1 < ny,
                z1 < nz,
                x0 <= x1,
                z0 <= z1,
                self@ == fill_region(g0, (x0 as int, y0 as int, z0 as int), (x1 as int, y - 1, z1 as int), id),
            decreases y1 - y + 1,
        {
            let ghost layer_start = self@;
            let mut z = z0;
            assert(layer_start =~= fill_region(layer_start, (x0 as int, y as int, z0 as int), (x1 as int, y as int, z0 - 1), id));
            while z <= z1
                invariant
                    self.wf(),
                    self.nx == nx,
                    self.ny == ny,
                    self.nz == nz,
                    layer_start.dom() == grid_domain(nx as int, ny as int, nz as int),
                    0 <= x0,
                    0 <= y0 <= y <= y1,
                    0 <= z0 <= z <= z1 + 1,
                    x1 < nx,
                    y1 < ny,
                    z1 < nz,
                    x0 <= x1,
                    self@ == fill_region(layer_start, (x0 as int, y as int, z0 as int), (x1 as int, y as int, z - 1), id),
                decreases z1 - z + 1,
            {
                let ghost row_start = self@;
                let mut x = x0;
                assert(row_start =~= fill_region(row_start, (x0 as int, y as int, z as int), (x0 - 1, y as int, z as int), id));
                while x <= x1
                    invariant
                        self.wf(),
                        self.nx == nx,
                        self.ny == ny,
                        self.nz == nz,
                        row_start.dom() == grid_domain(nx as int, ny as int, nz as int),
                        0 <= x0 <= x <= x1 + 1,
                        0 <= y0 <= y <= y1,
                        0 <= z0 <= z <= z1,
                        x1 < nx,
                        y1 < ny,
                        z1 < nz,
                        self@ == fill_region(row_start, (x0 as int, y as int, z as int), (x - 1, y as int, z as int), id),
                    decreases x1 - x + 1,
                {
                    let ghost before = self@;
                    self.set(x, y, z, id);
                    assert(self@ =~= fill_region(row_start, (x0 as int, y as int, z as int), (x as int, y as int, z as int), id));
                    x = x + 1;
                }
                assert(self@ =~= fill_region(layer_start, (x0 as int, y as int, z0 as int), (x1 as int, y as int, z as int), id));
                z = z + 1;
            }
            assert(self@ =~= fill_region(g0, (x0 as int, y0 as int, z0 as int), (x1 as int, y as int, z1 as int), id));
            y = y + 1;
        }
        assert(self@ =~= painted(g0, voxel(min), voxel(max), id));
    }

    /// Fills only the shell of the inclusive box spanned by `min` and `max`
    /// with `id`, leaving the interior untouched.
    pub fn hollow_box(&mut self, min: (i32, i32, i32), max: (i32, i32, i32), id: u8)
        requires
            old(self).wf(),
        ensures
            final(self).wf(),
            final(self).same_dims(old(self)),
            final(self)@ == shell_painted(old(self)@, voxel(min), voxel(max), id),
    {
        let ghost g0 = self@;
        let (x0, x1) = if min.0 <= max.0 { (min.0, max.0) } else { (max.0, min.0) };
        let (y0, y1) = if min.1 <= max.1 { (min.1, max.1) } else { (max.1, min.1) };
        let (z0, z1) = if min.2 <= max.2 { (min.2, max.2) } else { (max.2, min.2) };
        // The shell is the union of the box's six faces.
        self.fill_box((x0, y0, z0), (x0, y1, z1), id);
        self.fill_box((x1, y0, z0), (x1, y1, z1), id);
        self.fill_box((x0, y0, z0), (x1, y0, z1), id);
        self.fill_box((x0, y1, z0), (x1, y1, z1), id);
        self.fill_box((x0, y0, z0), (x1, y1, z0), id);
        self.fill_box((x0, y0, z1), (x1, y1, z1), id);
        assert(self@ =~= shell_painted(g0, voxel(min), voxel(max), id));
    }
}

/// Reading a voxel after writing it gives what was written when the voxel
/// lies in the grid; every other voxel reads as before.
pub proof fn lemma_get_after_set(g: Grid, p: Voxel, q: Voxel, id: u8)
    ensures
        block_at(placed(g, p, id), q) == if q == p && g.dom().contains(p) { id } else { block_at(g, q) },
{
}

/// After a box is filled, every voxel of the grid inside it reads as the
/// fill; every other voxel reads as before.
pub proof fn lemma_get_after_fill_box(g: Grid, a: Voxel, b: Voxel, q: Voxel, id: u8)
    ensures
        block_at(painted(g, a, b, id), q) == if in_box(q, a, b) && g.dom().contains(q) { id } else { block_at(g, q) },
{
}

/// A hollow box changes only the outer layer of its box: voxels strictly
/// inside, and voxels outside, read as before; the shell reads as the fill.
pub proof fn lemma_get_after_hollow_box(g: Grid, a: Voxel, b: Voxel, q: Voxel, id: u8)
    ensures
        block_at(shell_painted(g, a, b, id), q) == if on_shell(q, a, b) && g.dom().contains(q) { id } else { block_at(g, q) },
{
}

/// Filling the same box twice with the same block is filling it once.
pub proof fn lemma_fill_box_idempotent(g: Grid, a: Voxel, b: Voxel, id: u8)
    ensures
        painted(painted(g, a, b, id), a, b, id) == painted(g, a, b, id),
{
    assert(painted(painted(g, a, b, id), a, b, id) =~= painted(g, a, b, id));
}

/// Filling a box covers whatever its hollow box wrote before.
pub proof fn lemma_fill_box_covers_hollow_box(g: Grid, a: Voxel, b: Voxel, shell: u8, id: u8)
    ensures
        painted(shell_painted(g, a, b, shell), a, b, id) == painted(g, a, b, id),
{
    assert(painted(shell_painted(g, a, b, shell), a, b, id) =~= painted(g, a, b, id));
}

/// The corners may be given in either order: a box spanned by `a` and `b`
/// is the box spanned by `b` and `a`.
pub proof fn lemma_fill_box_corner_order(g: Grid, a: Voxel, b: Voxel, id: u8)
    ensures
        painted(g, a, b, id) == painted(g, b, a, id),
        shell_painted(g, a, b, id) == shell_painted(g, b, a, id),
{
    assert(painted(g, a, b, id) =~= painted(g, b, a, id));
    assert(shell_painted(g, a, b, id) =~= shell_painted(g, b, a, id));
}

} // verus!
