//! Which marching-squares cells of a terrain chunk must be rebuilt.
//!
//! A chunk has `dim_x * dim_z` grid points and `(dim_x - 1) * (dim_z - 1)`
//! cells, one between each four neighbouring points. Each cell carries a
//! dirty flag and, once built, its cached geometry. Editing a grid point
//! dirties the cells around it and drops their cached geometry; a cell is
//! rebuilt when it is dirty or has nothing cached, and is cached clean
//! afterwards.
use vstd::prelude::*;

verus! {

/// The larger of `v` and zero.
pub open spec fn nonneg(v: int) -> int {
    if v < 0 {
        0
    } else {
        v
    }
}

/// Cell `(cx, cz)` lies in the 3x3 block of cells centred on cell `(x, z)`.
pub open spec fn near_cell(x: int, z: int, cx: int, cz: int) -> bool {
    x - 1 <= cx <= x + 1 && z - 1 <= cz <= z + 1
}

/// Cell `(cx, cz)` is dirtied by an edit of grid point `(x, z)`: the 3x3
/// blocks around the four cells that have the point as a corner.
pub open spec fn near_point(x: int, z: int, cx: int, cz: int) -> bool {
    x - 2 <= cx <= x + 1 && z - 2 <= cz <= z + 1
}

/// Dirty flags and cached geometry of the cells of one chunk.
pub struct CellUpdateGrid<G> {
    dim_x: i32,
    dim_z: i32,
    cells_x: usize,
    cells_z: usize,
    /// Row-major by `z`, then `x`.
    needs_update: Vec<bool>,
    /// Row-major by `z`, then `x`.
    cell_geometry: Vec<Option<G>>,
}

impl<G> CellUpdateGrid<G> {
    #[verifier::type_invariant]
    spec fn wf(self) -> bool {
        &&& self.cells_x == nonneg(self.dim_x - 1)
        &&& self.cells_z == nonneg(self.dim_z - 1)
        &&& self.cells_x * self.cells_z <= usize::MAX
        &&& self.needs_update@.len() == self.cells_x * self.cells_z
        &&& self.cell_geometry@.len() == self.cells_x * self.cells_z
    }

    /// Grid points along x and z.
    pub closed spec fn dims(&self) -> (int, int) {
        (self.dim_x as int, self.dim_z as int)
    }

    /// `(x, z)` names a cell of the chunk.
    pub open spec fn is_cell(&self, x: int, z: int) -> bool {
        0 <= x < self.dims().0 - 1 && 0 <= z < self.dims().1 - 1
    }

    spec fn index(&self, x: int, z: int) -> int {
        z * self.cells_x + x
    }

    /// The cell is marked for rebuilding.
    pub closed spec fn dirty(&self, x: int, z: int) -> bool {
        self.is_cell(x, z) && self.needs_update@[self.index(x, z)]
    }

    /// The geometry cached for the cell, if any.
    pub closed spec fn cached(&self, x: int, z: int) -> Option<G> {
        if self.is_cell(x, z) {
            self.cell_geometry@[self.index(x, z)]
        } else {
            None
        }
    }

    proof fn lemma_index(&self, x: int, z: int)
        requires
            self.wf(),
            self.is_cell(x, z),
        ensures
            0 <= self.index(x, z) < self.cells_x * self.cells_z,
            x < self.cells_x,
            z < self.cells_z,
    {
        assert(z * self.cells_x + x < self.cells_x * self.cells_z) by (nonlinear_arith)
            requires
                0 <= x < self.cells_x,
                0 <= z < self.cells_z,
        ;
        assert(0 <= z * self.cells_x) by (nonlinear_arith)
            requires
                0 <= z,
                0 <= self.cells_x,
        ;
    }

    proof fn lemma_index_injective(&self, x1: int, z1: int, x2: int, z2: int)
        requires
            self.wf(),
            self.is_cell(x1, z1),
            self.is_cell(x2, z2),
            self.index(x1, z1) == self.index(x2, z2),
        ensures
            x1 == x2 && z1 == z2,
    {
        let n = self.cells_x as int;
        vstd::arithmetic::div_mod::lemma_fundamental_div_mod_converse(z1 * n + x1, n, z1, x1);
        vstd::arithmetic::div_mod::lemma_fundamental_div_mod_converse(z2 * n + x2, n, z2, x2);
    }

    /// A chunk with `dim_x` by `dim_z` grid points, every cell dirty and
    /// nothing cached.
    pub fn new(dim_x: i32, dim_z: i32) -> (g: Self)
        requires
            dim_z > 1 ==> dim_x >= 1,
            nonneg(dim_x - 1) * nonneg(dim_z - 1) <= usize::MAX,
        ensures
            g.dims() == (dim_x as int, dim_z as int),
            forall|x: int, z: int| g.is_cell(x, z) ==> #[trigger] g.dirty(x, z),
            forall|x: int, z: int| #[trigger] g.cached(x, z) is None,
    {
        let cells_x: usize = if dim_x < 1 {
            0
        } else {
            (dim_x - 1) as usize
        };
        let cells_z: usize = if dim_z < 1 {
            0
        } else {
            (dim_z - 1) as usize
        };
        let total = cells_x * cells_z;
        let mut needs_update: Vec<bool> = Vec::new();
        let mut cell_geometry: Vec<Option<G>> = Vec::new();
        let mut i: usize = 0;
        while i < total
            invariant
                i <= total,
                needs_update@.len() == i,
                cell_geometry@.len() == i,
                forall|j: int| 0 <= j < i ==> #[trigger] needs_update@[j],
                forall|j: int| 0 <= j < i ==> #[trigger] cell_geometry@[j] is None,
            decreases total - i,
        {
            needs_update.push(true);
            cell_geometry.push(None);
            i = i + 1;
        }
        let g = CellUpdateGrid { dim_x, dim_z, cells_x, cells_z, needs_update, cell_geometry };
        proof {
            assert forall|x: int, z: int| g.is_cell(x, z) implies #[trigger] g.dirty(x, z) by {
                g.lemma_index(x, z);
            }
            assert forall|x: int, z: int| #[trigger] g.cached(x, z) is None by {
                if g.is_cell(x, z) {
                    g.lemma_index(x, z);
                }
            }
        }
        g
    }

    /// A chunk of one grid point, without cells.
    fn empty() -> (g: Self)
        ensures
            g.dims() == (1int, 1int),
            forall|x: int, z: int| !g.is_cell(x, z),
            forall|x: int, z: int| !#[trigger] g.dirty(x, z),
            forall|x: int, z: int| #[trigger] g.cached(x, z) is None,
    {
        CellUpdateGrid {
            dim_x: 1,
            dim_z: 1,
            cells_x: 0,
            cells_z: 0,
            needs_update: Vec::new(),
            cell_geometry: Vec::new(),
        }
    }

    /// Grid point `(x, z)` lies in the chunk.
    pub fn is_in_bounds(&self, x: i32, z: i32) -> (b: bool)
        ensures
            b == (0 <= x < self.dims().0 && 0 <= z < self.dims().1),
    {
        x >= 0 && z >= 0 && x < self.dim_x && z < self.dim_z
    }

    /// Marks every cell dirty; cached geometry stays until the cell is rebuilt.
    pub fn mark_all_cells(&mut self)
        ensures
            final(self).dims() == old(self).dims(),
            forall|x: int, z: int| final(self).is_cell(x, z) ==> #[trigger] final(self).dirty(x, z),
            forall|x: int, z: int| #[trigger] final(self).cached(x, z) == old(self).cached(x, z),
    {
        proof {
            use_type_invariant(&*self);
        }
        let mut taken = CellUpdateGrid::empty();
        std::mem::swap(&mut taken, self);
        let CellUpdateGrid { dim_x, dim_z, cells_x, cells_z, mut needs_update, cell_geometry } = taken;
        let total = cells_x * cells_z;
        let mut i: usize = 0;
        while i < total
            invariant
                i <= total,
                needs_update@.len() == total,
                forall|j: int| 0 <= j < i ==> #[trigger] needs_update@[j],
            decreases total - i,
        {
            needs_update.set(i, true);
            i = i + 1;
        }
        *self = CellUpdateGrid { dim_x, dim_z, cells_x, cells_z, needs_update, cell_geometry };
        proof {
            assert forall|x: int, z: int| self.is_cell(x, z) implies #[trigger] self.dirty(x, z) by {
                self.lemma_index(x, z);
            }
        }
    }

    /// Marks cell `(x, z)` dirty and drops its cached geometry, when it is a cell.
    fn touch_cell(&mut self, x: i64, z: i64)
        ensures
            final(self).dims() == old(self).dims(),
            forall|cx: int, cz: int| #[trigger]
                final(self).dirty(cx, cz) == (old(self).dirty(cx, cz) || (cx == x && cz == z
                    && old(self).is_cell(cx, cz))),
            forall|cx: int, cz: int| #[trigger]
                final(self).cached(cx, cz) == if cx == x && cz == z {
                    None
                } else {
                    old(self).cached(cx, cz)
                },
    {
        proof {
            use_type_invariant(&*self);
        }
        if x >= 0 && z >= 0 && x < (self.dim_x as i64) - 1 && z < (self.dim_z as i64) - 1 {
            proof {
                self.lemma_index(x as int, z as int);
            }
            let i = (z as usize) * self.cells_x + (x as usize);
            let mut taken = CellUpdateGrid::empty();
            std::mem::swap(&mut taken, self);
            let CellUpdateGrid { dim_x, dim_z, cells_x, cells_z, mut needs_update, mut cell_geometry } =
                taken;
            needs_update.set(i, true);
            cell_geometry.set(i, None);
            *self = CellUpdateGrid { dim_x, dim_z, cells_x, cells_z, needs_update, cell_geometry };
            proof {
                assert forall|cx: int, cz: int| #[trigger]
                    self.dirty(cx, cz) == (old(self).dirty(cx, cz) || (cx == x && cz == z
                        && old(self).is_cell(cx, cz))) by {
                    if self.is_cell(cx, cz) {
                        self.lemma_index(cx, cz);
                        if self.index(cx, cz) == i {
                            self.lemma_index_injective(cx, cz, x as int, z as int);
                        }
                    }
                }
                assert forall|cx: int, cz: int| #[trigger]
                    self.cached(cx, cz) == if cx == x && cz == z {
                        None
                    } else {
                        old(self).cached(cx, cz)
                    } by {
                    if self.is_cell(cx, cz) {
                        self.lemma_index(cx, cz);
                        if self.index(cx, cz) == i {
                            self.lemma_index_injective(cx, cz, x as int, z as int);
                        }
                    }
                }
            }
        }
    }

    /// Marks the 3x3 block of cells centred on cell `(x, z)` dirty and drops
    /// their cached geometry; positions outside the chunk are skipped.
    pub fn mark_cell_needs_update(&mut self, x: i32, z: i32)
        ensures
            final(self).dims() == old(self).dims(),
            forall|cx: int, cz: int| #[trigger]
                final(self).dirty(cx, cz) == (old(self).dirty(cx, cz) || (near_cell(
                    x as int,
                    z as int,
                    cx,
                    cz,
                ) && old(self).is_cell(cx, cz))),
            forall|cx: int, cz: int| #[trigger]
                final(self).cached(cx, cz) == if near_cell(x as int, z as int, cx, cz) {
                    None
                } else {
                    old(self).cached(cx, cz)
                },
    {
        let ghost start = *self;
        let mut dz: i64 = -1;
        while dz <= 1
            invariant
                -1 <= dz <= 2,
                self.dims() == start.dims(),
                forall|cx: int, cz: int| #[trigger]
                    self.dirty(cx, cz) == (start.dirty(cx, cz) || (x - 1 <= cx <= x + 1 && z - 1
                        <= cz < z + dz && start.is_cell(cx, cz))),
                forall|cx: int, cz: int| #[trigger]
                    self.cached(cx, cz) == if x - 1 <= cx <= x + 1 && z - 1 <= cz < z + dz {
                        None
                    } else {
                        start.cached(cx, cz)
                    },
            decreases 2 - dz,
        {
            let mut dx: i64 = -1;
            while dx <= 1
                invariant
                    -1 <= dz <= 1,
                    -1 <= dx <= 2,
                    self.dims() == start.dims(),
                    forall|cx: int, cz: int| #[trigger]
                        self.dirty(cx, cz) == (start.dirty(cx, cz) || (((x - 1 <= cx <= x + 1 && z
                            - 1 <= cz < z + dz) || (x - 1 <= cx < x + dx && cz == z + dz))
                            && start.is_cell(cx, cz))),
                    forall|cx: int, cz: int| #[trigger]
                        self.cached(cx, cz) == if (x - 1 <= cx <= x + 1 && z - 1 <= cz < z + dz)
                            || (x - 1 <= cx < x + dx && cz == z + dz) {
                            None
                        } else {
                            start.cached(cx, cz)
                        },
                decreases 2 - dx,
            {
                self.touch_cell(x as i64 + dx, z as i64 + dz);
                dx = dx + 1;
            }
            dz = dz + 1;
        }
    }

    /// The same as [`Self::mark_cell_needs_update`], with the coordinates
    /// given `z` first.
    pub fn notify_needs_update(&mut self, z: i32, x: i32)
        ensures
            final(self).dims() == old(self).dims(),
            forall|cx: int, cz: int| #[trigger]
                final(self).dirty(cx, cz) == (old(self).dirty(cx, cz) || (near_cell(
                    x as int,
                    z as int,
                    cx,
                    cz,
                ) && old(self).is_cell(cx, cz))),
            forall|cx: int, cz: int| #[trigger]
                final(self).cached(cx, cz) == if near_cell(x as int, z as int, cx, cz) {
                    None
                } else {
                    old(self).cached(cx, cz)
                },
    {
        self.mark_cell_needs_update(x, z);
    }

    /// After an edit of grid point `(x, z)`: notifies the four cells that
    /// have the point as a corner, which dirties the cells around them and
    /// drops their cached geometry. Every cell that touches the point is
    /// dirty afterwards.
    pub fn notify_neighbors(&mut self, x: i32, z: i32)
        requires
            x > i32::MIN,
            z > i32::MIN,
        ensures
            final(self).dims() == old(self).dims(),
            forall|cx: int, cz: int| #[trigger]
                final(self).dirty(cx, cz) == (old(self).dirty(cx, cz) || (near_point(
                    x as int,
                    z as int,
                    cx,
                    cz,
                ) && old(self).is_cell(cx, cz))),
            forall|cx: int, cz: int| #[trigger]
                final(self).cached(cx, cz) == if near_point(x as int, z as int, cx, cz) {
                    None
                } else {
                    old(self).cached(cx, cz)
                },
            forall|cx: int, cz: int|
                x - 1 <= cx <= x && z - 1 <= cz <= z && final(self).is_cell(cx, cz)
                    ==> #[trigger] final(self).dirty(cx, cz),
    {
        self.notify_needs_update(z, x);
        self.notify_needs_update(z, x - 1);
        self.notify_needs_update(z - 1, x);
        self.notify_needs_update(z - 1, x - 1);
    }

    /// The cell has to be rebuilt: it is dirty or has no cached geometry.
    pub fn needs_regeneration(&self, x: i32, z: i32) -> (b: bool)
        requires
            self.is_cell(x as int, z as int),
        ensures
            b == (self.dirty(x as int, z as int) || self.cached(x as int, z as int) is None),
    {
        proof {
            use_type_invariant(self);
            self.lemma_index(x as int, z as int);
        }
        let i = (z as usize) * self.cells_x + (x as usize);
        self.needs_update[i] || self.cell_geometry[i].is_none()
    }

    /// The geometry cached for the cell.
    pub fn cached_cell(&self, x: i32, z: i32) -> (r: Option<&G>)
        ensures
            r == match self.cached(x as int, z as int) {
                Some(g) => Some(&g),
                None => None::<&G>,
            },
    {
        proof {
            use_type_invariant(self);
        }
        if x >= 0 && z >= 0 && (x as i64) < (self.dim_x as i64) - 1 && (z as i64) < (self.dim_z as i64) - 1 {
            proof {
                self.lemma_index(x as int, z as int);
            }
            let i = (z as usize) * self.cells_x + (x as usize);
            match &self.cell_geometry[i] {
                Some(g) => Some(g),
                None => None,
            }
        } else {
            None
        }
    }

    /// Records the geometry just built for the cell: it is cached and the
    /// cell is clean.
    pub fn store_cell(&mut self, x: i32, z: i32, geometry: G)
        requires
            old(self).is_cell(x as int, z as int),
        ensures
            final(self).dims() == old(self).dims(),
            forall|cx: int, cz: int| #[trigger]
                final(self).dirty(cx, cz) == (old(self).dirty(cx, cz) && !(cx == x && cz == z)),
            forall|cx: int, cz: int| #[trigger]
                final(self).cached(cx, cz) == if cx == x && cz == z {
                    Some(geometry)
                } else {
                    old(self).cached(cx, cz)
                },
    {
        proof {
            use_type_invariant(&*self);
            self.lemma_index(x as int, z as int);
        }
        let i = (z as usize) * self.cells_x + (x as usize);
        let mut taken = CellUpdateGrid::empty();
        std::mem::swap(&mut taken, self);
        let CellUpdateGrid { dim_x, dim_z, cells_x, cells_z, mut needs_update, mut cell_geometry } =
            taken;
        needs_update.set(i, false);
        cell_geometry.set(i, Some(geometry));
        *self = CellUpdateGrid { dim_x, dim_z, cells_x, cells_z, needs_update, cell_geometry };
        proof {
            assert forall|cx: int, cz: int| #[trigger]
                self.dirty(cx, cz) == (old(self).dirty(cx, cz) && !(cx == x && cz == z)) by {
                if self.is_cell(cx, cz) {
                    self.lemma_index(cx, cz);
                    if self.index(cx, cz) == i {
                        self.lemma_index_injective(cx, cz, x as int, z as int);
                    }
                }
            }
            assert forall|cx: int, cz: int| #[trigger]
                self.cached(cx, cz) == if cx == x && cz == z {
                    Some(geometry)
                } else {
                    old(self).cached(cx, cz)
                } by {
                if self.is_cell(cx, cz) {
                    self.lemma_index(cx, cz);
                    if self.index(cx, cz) == i {
                        self.lemma_index_injective(cx, cz, x as int, z as int);
                    }
                }
            }
        }
    }
}

} // verus!
