//! Structural stability of edited terrain: which solid voxels are connected to
//! the ground, which solid voxels float in connected components, and how far a
//! floating component can drop before it rests on grounded terrain.
use std::collections::VecDeque;
use vstd::prelude::*;

use crate::voxel_grid::ChunkCoord;

verus! {

/// Number of floor rows whose solid voxels seed the grounded flood fill.
pub const FLOOR_SEED_ROWS: usize = 4;

/// Extra margin bounds, in cells, around a brush footprint.
pub const SCAN_MARGIN_MULTIPLIER: i32 = 2;

pub const MIN_SCAN_MARGIN: i32 = 8;

pub const MAX_SCAN_MARGIN: i32 = 32;

/// Axis-aligned bounding box of the scan region, in voxel-grid coordinates
/// (both ends inclusive).
#[derive(Clone, Debug)]
pub struct ScanRegion {
    pub min_x: i32,
    pub max_x: i32,
    pub min_y: i32,
    pub max_y: i32,
    pub min_z: i32,
    pub max_z: i32,
}

/// Number of integers in `lo..=hi` (zero when the range is empty).
pub open spec fn axis_len(lo: i32, hi: i32) -> nat {
    if hi - lo + 1 > 0 {
        (hi - lo + 1) as nat
    } else {
        0
    }
}

/// `hi - lo + 1` can be computed in `i32`.
pub open spec fn axis_fits(lo: i32, hi: i32) -> bool {
    i32::MIN <= hi - lo && hi - lo + 1 <= i32::MAX
}

fn axis_size(lo: i32, hi: i32) -> (n: usize)
    requires
        axis_fits(lo, hi),
    ensures
        n == axis_len(lo, hi),
{
    let d = hi - lo + 1;
    if d > 0 {
        d as usize
    } else {
        0
    }
}

impl ScanRegion {
    pub fn size_x(&self) -> (n: usize)
        requires
            axis_fits(self.min_x, self.max_x),
        ensures
            n == axis_len(self.min_x, self.max_x),
    {
        axis_size(self.min_x, self.max_x)
    }

    pub fn size_y(&self) -> (n: usize)
        requires
            axis_fits(self.min_y, self.max_y),
        ensures
            n == axis_len(self.min_y, self.max_y),
    {
        axis_size(self.min_y, self.max_y)
    }

    pub fn size_z(&self) -> (n: usize)
        requires
            axis_fits(self.min_z, self.max_z),
        ensures
            n == axis_len(self.min_z, self.max_z),
    {
        axis_size(self.min_z, self.max_z)
    }

    /// All three sizes can be computed and their product fits in `usize`.
    pub open spec fn fits(&self) -> bool {
        &&& axis_fits(self.min_x, self.max_x)
        &&& axis_fits(self.min_y, self.max_y)
        &&& axis_fits(self.min_z, self.max_z)
        &&& axis_len(self.min_x, self.max_x) * axis_len(self.min_y, self.max_y) * axis_len(
            self.min_z,
            self.max_z,
        ) <= usize::MAX
    }
}

/// A voxel position inside a scan region (local x, y, z).
pub type Cell = (usize, usize, usize);

/// Flat position of `c` in a grid with the given x and y sizes.
pub open spec fn flat(c: Cell, sx: nat, sy: nat) -> int {
    c.0 + c.1 * sx + c.2 * sx * sy
}

/// Boolean value per voxel of a scan region, stored x fastest, then y, then z.
pub struct SolidGrid {
    pub data: Vec<bool>,
    pub size_x: usize,
    pub size_y: usize,
    pub size_z: usize,
}

proof fn lemma_flat_bounds(c: Cell, sx: nat, sy: nat, sz: nat)
    requires
        c.0 < sx,
        c.1 < sy,
        c.2 < sz,
    ensures
        0 <= flat(c, sx, sy) < sx * sy * sz,
        c.1 * sx <= sx * sy,
        c.2 * sx * sy <= sx * sy * sz,
        c.0 + c.1 * sx < sx * sy * sz,
        c.2 * sx <= sx * sy * sz,
        sx * sy <= sx * sy * sz,
{
    let (x, y, z) = c;
    assert(y * sx + x < sx * (y + 1)) by (nonlinear_arith)
        requires
            x < sx,
    ;
    assert(sx * (y + 1) <= sx * sy) by (nonlinear_arith)
        requires
            y < sy,
    ;
    assert(z * sx * sy + sx * sy == (z + 1) * (sx * sy)) by (nonlinear_arith);
    assert((z + 1) * (sx * sy) <= sz * (sx * sy)) by (nonlinear_arith)
        requires
            z < sz,
    ;
    assert(sz * (sx * sy) == sx * sy * sz) by (nonlinear_arith);
    assert(y * sx <= sx * sy) by (nonlinear_arith)
        requires
            y < sy,
    ;
    assert(z * sx * sy >= 0) by (nonlinear_arith);
    assert(y * sx >= 0) by (nonlinear_arith);
    assert(z * sx <= z * sx * sy) by (nonlinear_arith)
        requires
            y < sy,
    ;
    assert(sx * sy <= sx * sy * sz) by (nonlinear_arith)
        requires
            z < sz,
    ;
}

proof fn lemma_flat_injective(a: Cell, b: Cell, sx: nat, sy: nat)
    requires
        a.0 < sx,
        b.0 < sx,
        a.1 < sy,
        b.1 < sy,
        flat(a, sx, sy) == flat(b, sx, sy),
    ensures
        a == b,
{
    let ka = a.1 + a.2 * sy;
    let kb = b.1 + b.2 * sy;
    assert(a.0 + a.1 * sx + a.2 * sx * sy == ka * sx + a.0) by (nonlinear_arith)
        requires
            ka == a.1 + a.2 * sy,
    ;
    assert(b.0 + b.1 * sx + b.2 * sx * sy == kb * sx + b.0) by (nonlinear_arith)
        requires
            kb == b.1 + b.2 * sy,
    ;
    assert(ka >= 0 && kb >= 0) by (nonlinear_arith)
        requires
            ka == a.1 + a.2 * sy,
            kb == b.1 + b.2 * sy,
    ;
    vstd::arithmetic::div_mod::lemma_fundamental_div_mod_converse(flat(a, sx, sy), sx as int, ka, a.0 as int);
    assert(ka == a.2 * sy + a.1);
    assert(kb == b.2 * sy + b.1);
    vstd::arithmetic::div_mod::lemma_fundamental_div_mod_converse(flat(b, sx, sy), sx as int, kb, b.0 as int);
    vstd::arithmetic::div_mod::lemma_fundamental_div_mod_converse(ka, sy as int, a.2 as int, a.1 as int);
    vstd::arithmetic::div_mod::lemma_fundamental_div_mod_converse(kb, sy as int, b.2 as int, b.1 as int);
}

impl SolidGrid {
    /// Sizes are consistent with the stored data.
    pub open spec fn wf(&self) -> bool {
        self.data@.len() == self.size_x * self.size_y * self.size_z
    }

    pub open spec fn in_bounds(&self, c: Cell) -> bool {
        c.0 < self.size_x && c.1 < self.size_y && c.2 < self.size_z
    }

    /// Value stored for voxel `c`.
    pub open spec fn at(&self, c: Cell) -> bool {
        self.data@[flat(c, self.size_x as nat, self.size_y as nat)]
    }

    pub open spec fn same_dims(&self, other: &SolidGrid) -> bool {
        self.size_x == other.size_x && self.size_y == other.size_y && self.size_z == other.size_z
    }

    /// A grid covering `region` with every voxel `false`.
    pub fn new(region: &ScanRegion) -> (g: Self)
        requires
            region.fits(),
        ensures
            g.wf(),
            g.size_x == axis_len(region.min_x, region.max_x),
            g.size_y == axis_len(region.min_y, region.max_y),
            g.size_z == axis_len(region.min_z, region.max_z),
            forall|c: Cell| g.in_bounds(c) ==> !#[trigger] g.at(c),
    {
        let size_x = region.size_x();
        let size_y = region.size_y();
        let size_z = region.size_z();
        proof {
            assert(size_x * size_y <= size_x * size_y * size_z || size_z == 0) by (nonlinear_arith);
            if size_z == 0 {
                assert(size_x * size_y * size_z == 0) by (nonlinear_arith)
                    requires
                        size_z == 0,
                ;
            }
        }
        let n: usize = if size_z == 0 {
            0
        } else {
            size_x * size_y * size_z
        };
        proof {
            if size_z == 0 {
                assert(size_x * size_y * size_z == 0) by (nonlinear_arith)
                    requires
                        size_z == 0,
                ;
            }
        }
        let data = vec![false; n];
        let g = SolidGrid { data, size_x, size_y, size_z };
        proof {
            assert forall|c: Cell| g.in_bounds(c) implies !#[trigger] g.at(c) by {
                lemma_flat_bounds(c, size_x as nat, size_y as nat, size_z as nat);
            }
        }
        g
    }

    /// Flat index of `(x, y, z)`.
    pub fn index(&self, x: usize, y: usize, z: usize) -> (i: usize)
        requires
            self.wf(),
            self.in_bounds((x, y, z)),
        ensures
            i == flat((x, y, z), self.size_x as nat, self.size_y as nat),
            i < self.data@.len(),
    {
        let n = self.data.len();
        proof {
            lemma_flat_bounds((x, y, z), self.size_x as nat, self.size_y as nat, self.size_z as nat);
            assert(y * self.size_x <= usize::MAX);
            assert(x + y * self.size_x <= usize::MAX);
        }
        let a = y * self.size_x;
        let b = z * self.size_x;
        let c = b * self.size_y;
        x + a + c
    }

    pub fn get(&self, x: usize, y: usize, z: usize) -> (b: bool)
        requires
            self.wf(),
            self.in_bounds((x, y, z)),
        ensures
            b == self.at((x, y, z)),
    {
        let i = self.index(x, y, z);
        self.data[i]
    }

    /// Stores `val` for voxel `(x, y, z)`; every other voxel keeps its value.
    pub fn set(&mut self, x: usize, y: usize, z: usize, val: bool)
        requires
            old(self).wf(),
            old(self).in_bounds((x, y, z)),
        ensures
            final(self).wf(),
            final(self).same_dims(old(self)),
            final(self).at((x, y, z)) == val,
            final(self).data@ == old(self).data@.update(
                flat((x, y, z), old(self).size_x as nat, old(self).size_y as nat),
                val,
            ),
            forall|c: Cell|
                old(self).in_bounds(c) && c != (x, y, z) ==> #[trigger] final(self).at(c) == old(
                    self,
                ).at(c),
    {
        let i = self.index(x, y, z);
        self.data.set(i, val);
        proof {
            assert forall|c: Cell|
                old(self).in_bounds(c) && c != (x, y, z) implies #[trigger] self.at(c) == old(
                self,
            ).at(c) by {
                lemma_flat_bounds(c, self.size_x as nat, self.size_y as nat, self.size_z as nat);
                if flat(c, self.size_x as nat, self.size_y as nat) == i {
                    lemma_flat_injective(c, (x, y, z), self.size_x as nat, self.size_y as nat);
                }
            }
        }
    }
}

/// `a` and `b` are one step apart along exactly one axis.
pub open spec fn adjacent(a: Cell, b: Cell) -> bool {
    ||| (a.0 + 1 == b.0 || b.0 + 1 == a.0) && a.1 == b.1 && a.2 == b.2
    ||| a.0 == b.0 && (a.1 + 1 == b.1 || b.1 + 1 == a.1) && a.2 == b.2
    ||| a.0 == b.0 && a.1 == b.1 && (a.2 + 1 == b.2 || b.2 + 1 == a.2)
}

/// Steps `i` and `i + 1` of `p` are adjacent voxels.
pub open spec fn linked(p: Seq<Cell>, i: int) -> bool {
    adjacent(p[i], p[i + 1])
}

/// The voxels of `g` that are in bounds and `true`.
pub open spec fn grid_pred(g: SolidGrid) -> spec_fn(Cell) -> bool {
    |c: Cell| g.in_bounds(c) && g.at(c)
}

/// `p` is a non-empty walk of adjacent voxels, each satisfying `allowed`.
pub open spec fn is_walk(allowed: spec_fn(Cell) -> bool, p: Seq<Cell>) -> bool {
    &&& p.len() > 0
    &&& forall|i: int| 0 <= i < p.len() ==> allowed(#[trigger] p[i])
    &&& forall|i: int| 0 <= i < p.len() - 1 ==> #[trigger] linked(p, i)
}

/// Some walk through `allowed` voxels starts at a voxel of `src` and ends at `c`.
pub open spec fn reaches(allowed: spec_fn(Cell) -> bool, src: Set<Cell>, c: Cell) -> bool {
    exists|p: Seq<Cell>| #[trigger] is_walk(allowed, p) && src.contains(p[0]) && p.last() == c
}

/// Every in-bounds voxel adjacent to `c` that is `true` in `g` is marked in `m`.
pub open spec fn closed_at(g: SolidGrid, m: SolidGrid, c: Cell) -> bool {
    forall|d: Cell| g.in_bounds(d) && g.at(d) && adjacent(c, d) ==> #[trigger] m.at(d)
}

/// Every marked voxel of `m` is closed with respect to `g`.
pub open spec fn all_closed(g: SolidGrid, m: SolidGrid) -> bool {
    forall|c: Cell| m.in_bounds(c) && #[trigger] m.at(c) ==> closed_at(g, m, c)
}

/// The neighbour of `c` in direction `dir` (+x, -x, +y, -y, +z, -z), if it
/// lies inside a grid of the given sizes.
pub open spec fn spec_neighbor(c: Cell, dir: int, sx: usize, sy: usize, sz: usize) -> Option<Cell> {
    if dir == 0 {
        if c.0 + 1 < sx { Some(((c.0 + 1) as usize, c.1, c.2)) } else { None }
    } else if dir == 1 {
        if c.0 > 0 { Some(((c.0 - 1) as usize, c.1, c.2)) } else { None }
    } else if dir == 2 {
        if c.1 + 1 < sy { Some((c.0, (c.1 + 1) as usize, c.2)) } else { None }
    } else if dir == 3 {
        if c.1 > 0 { Some((c.0, (c.1 - 1) as usize, c.2)) } else { None }
    } else if dir == 4 {
        if c.2 + 1 < sz { Some((c.0, c.1, (c.2 + 1) as usize)) } else { None }
    } else {
        if c.2 > 0 { Some((c.0, c.1, (c.2 - 1) as usize)) } else { None }
    }
}

fn neighbor(g: &SolidGrid, c: Cell, dir: usize) -> (r: Option<Cell>)
    requires
        g.in_bounds(c),
        dir < 6,
    ensures
        r == spec_neighbor(c, dir as int, g.size_x, g.size_y, g.size_z),
        r matches Some(d) ==> g.in_bounds(d) && adjacent(c, d),
{
    let (x, y, z) = c;
    if dir == 0 {
        if x + 1 < g.size_x { Some((x + 1, y, z)) } else { None }
    } else if dir == 1 {
        if x > 0 { Some((x - 1, y, z)) } else { None }
    } else if dir == 2 {
        if y + 1 < g.size_y { Some((x, y + 1, z)) } else { None }
    } else if dir == 3 {
        if y > 0 { Some((x, y - 1, z)) } else { None }
    } else if dir == 4 {
        if z + 1 < g.size_z { Some((x, y, z + 1)) } else { None }
    } else {
        if z > 0 { Some((x, y, z - 1)) } else { None }
    }
}

/// Every in-bounds neighbour is produced by one of the six directions.
proof fn lemma_adjacent_dir(g: SolidGrid, c: Cell, d: Cell) -> (dir: int)
    requires
        g.in_bounds(c),
        g.in_bounds(d),
        adjacent(c, d),
    ensures
        0 <= dir < 6,
        spec_neighbor(c, dir, g.size_x, g.size_y, g.size_z) == Some(d),
{
    if c.0 + 1 == d.0 && c.1 == d.1 && c.2 == d.2 {
        0
    } else if d.0 + 1 == c.0 && c.1 == d.1 && c.2 == d.2 {
        1
    } else if c.0 == d.0 && c.1 + 1 == d.1 && c.2 == d.2 {
        2
    } else if c.0 == d.0 && d.1 + 1 == c.1 && c.2 == d.2 {
        3
    } else if c.0 == d.0 && c.1 == d.1 && c.2 + 1 == d.2 {
        4
    } else {
        5
    }
}

/// Number of `false` entries.
pub open spec fn count_false(s: Seq<bool>) -> nat
    decreases s.len(),
{
    if s.len() == 0 {
        0
    } else {
        count_false(s.drop_last()) + if s.last() { 0nat } else { 1nat }
    }
}

proof fn lemma_count_false_update(s: Seq<bool>, i: int)
    requires
        0 <= i < s.len(),
        !s[i],
    ensures
        count_false(s.update(i, true)) + 1 == count_false(s),
    decreases s.len(),
{
    let t = s.update(i, true);
    if i == s.len() - 1 {
        assert(t.drop_last() =~= s.drop_last());
    } else {
        assert(t.drop_last() =~= s.drop_last().update(i, true));
        lemma_count_false_update(s.drop_last(), i);
    }
}

/// A walk that starts at a marked voxel stays on marked voxels when every
/// marked voxel is closed.
proof fn lemma_walk_stays_marked(g: SolidGrid, m: SolidGrid, p: Seq<Cell>)
    requires
        g.same_dims(&m),
        is_walk(grid_pred(g), p),
        m.at(p[0]),
        all_closed(g, m),
    ensures
        forall|i: int| 0 <= i < p.len() ==> #[trigger] m.at(p[i]),
    decreases p.len(),
{
    if p.len() > 1 {
        let q = p.drop_last();
        assert forall|i: int| 0 <= i < q.len() - 1 implies #[trigger] linked(q, i) by {
            assert(linked(p, i));
        }
        assert forall|i: int| 0 <= i < q.len() implies g.in_bounds(#[trigger] q[i]) && g.at(q[i]) by {
            assert(g.in_bounds(p[i]));
        }
        lemma_walk_stays_marked(g, m, q);
        let k = p.len() - 2;
        assert(m.at(p[k])) by {
            assert(m.at(q[k]));
        }
        assert(linked(p, k));
        assert(g.in_bounds(p[k + 1]) && g.at(p[k + 1]));
        assert(closed_at(g, m, p[k]));
        assert forall|i: int| 0 <= i < p.len() implies #[trigger] m.at(p[i]) by {
            if i < p.len() - 1 {
                assert(m.at(q[i]));
            }
        }
    }
}

/// Bookkeeping for one step of `spread`: the cells taken from the queue so far
/// are the start cells and newly marked cells that are no longer queued.
proof fn lemma_popped_update(
    g: SolidGrid,
    q0: Seq<Cell>,
    m0: SolidGrid,
    mq: SolidGrid,
    m: SolidGrid,
    qq: Seq<Cell>,
    queue: Seq<Cell>,
    on: Seq<Cell>,
    c: Cell,
)
    requires
        forall|x: Cell| #[trigger]
            on.contains(x) <==> ((q0.contains(x) || (g.in_bounds(x) && mq.at(x) && !m0.at(x)))
                && !qq.contains(x)),
        forall|i: int| 0 <= i < q0.len() ==> g.in_bounds(#[trigger] q0[i]) && m0.at(q0[i]),
        forall|x: Cell| g.in_bounds(x) && #[trigger] m0.at(x) ==> mq.at(x),
        forall|x: Cell| g.in_bounds(x) && #[trigger] mq.at(x) ==> m.at(x),
        qq.contains(c),
        !queue.contains(c),
        g.in_bounds(c),
        m.at(c),
        m0.at(c) ==> q0.contains(c),
        forall|x: Cell| #[trigger] qq.contains(x) && x != c ==> queue.contains(x),
        forall|x: Cell| #[trigger]
            queue.contains(x) ==> (qq.contains(x) && x != c) || (g.in_bounds(x) && m.at(x)
                && !mq.at(x)),
        forall|x: Cell| g.in_bounds(x) && #[trigger] m.at(x) && !mq.at(x) ==> queue.contains(x),
    ensures
        forall|x: Cell| #[trigger]
            on.push(c).contains(x) <==> ((q0.contains(x) || (g.in_bounds(x) && m.at(x)
                && !m0.at(x))) && !queue.contains(x)),
{
    assert forall|x: Cell| #[trigger]
        on.push(c).contains(x) <==> ((q0.contains(x) || (g.in_bounds(x) && m.at(x) && !m0.at(x)))
            && !queue.contains(x)) by {
        if q0.contains(x) {
            let j = choose|j: int| 0 <= j < q0.len() && q0[j] == x;
            assert(g.in_bounds(q0[j]) && m0.at(q0[j]));
        }
        if on.push(c).contains(x) && x != c {
            let j = choose|j: int| 0 <= j < on.push(c).len() && on.push(c)[j] == x;
            assert(on[j] == x);
            assert(on.contains(x));
        }
        if on.contains(x) {
            assert(on.push(c)[on.index_of(x)] == x);
        }
        assert(on.push(c)[on.len() as int] == c);
    }
}

/// Marks, through walks of `true` voxels of `allowed`, everything reachable
/// from the voxels in `queue`, breadth first. With `collect`, every voxel taken
/// from the queue is appended to `out`.
fn spread(
    allowed: &SolidGrid,
    marked: &mut SolidGrid,
    queue: &mut VecDeque<Cell>,
    out: &mut Vec<Cell>,
    collect: bool,
)
    requires
        allowed.wf(),
        old(marked).wf(),
        allowed.same_dims(old(marked)),
        forall|c: Cell| allowed.in_bounds(c) && #[trigger] old(marked).at(c) ==> allowed.at(c),
        forall|i: int|
            0 <= i < old(queue)@.len() ==> allowed.in_bounds(#[trigger] old(queue)@[i]) && old(
                marked,
            ).at(old(queue)@[i]),
        old(queue)@.no_duplicates(),
        forall|c: Cell|
            allowed.in_bounds(c) && #[trigger] old(marked).at(c) && !old(queue)@.contains(c)
                ==> closed_at(*allowed, *old(marked), c),
    ensures
        final(marked).wf(),
        final(marked).same_dims(old(marked)),
        final(queue)@.len() == 0,
        forall|c: Cell| allowed.in_bounds(c) && #[trigger] old(marked).at(c) ==> final(marked).at(c),
        forall|c: Cell| allowed.in_bounds(c) && #[trigger] final(marked).at(c) ==> allowed.at(c),
        all_closed(*allowed, *final(marked)),
        forall|c: Cell|
            allowed.in_bounds(c) && #[trigger] final(marked).at(c) && !old(marked).at(c) ==> reaches(
                grid_pred(*allowed),
                old(queue)@.to_set(),
                c,
            ),
        !collect ==> final(out)@ == old(out)@,
        collect ==> final(out)@.subrange(0, old(out)@.len() as int) == old(out)@,
        collect ==> final(out)@.len() >= old(out)@.len(),
        collect ==> final(out)@.skip(old(out)@.len() as int).no_duplicates(),
        collect && old(queue)@.len() > 0 ==> final(out)@.len() > old(out)@.len() && final(out)@[old(
            out,
        )@.len() as int] == old(queue)@[0],
        collect ==> forall|c: Cell|
            #[trigger] final(out)@.skip(old(out)@.len() as int).contains(c) <==> (old(queue)@.contains(c)
                || (allowed.in_bounds(c) && final(marked).at(c) && !old(marked).at(c))),
{
    let ghost m0 = *old(marked);
    let ghost q0 = old(queue)@;
    let ghost out0 = old(out)@;
    let ghost sx = allowed.size_x;
    let ghost sy = allowed.size_y;
    let ghost sz = allowed.size_z;
    proof {
        assert forall|c: Cell| q0.contains(c) implies reaches(grid_pred(*allowed), q0.to_set(), c) by {
            let p = seq![c];
            assert(is_walk(grid_pred(*allowed), p));
        }
    }
    while queue.len() > 0
        invariant
            allowed.wf(),
            marked.wf(),
            allowed.same_dims(marked),
            allowed.size_x == sx && allowed.size_y == sy && allowed.size_z == sz,
            m0.same_dims(marked),
            forall|c: Cell| allowed.in_bounds(c) && #[trigger] m0.at(c) ==> marked.at(c),
            forall|c: Cell| allowed.in_bounds(c) && #[trigger] marked.at(c) ==> allowed.at(c),
            forall|i: int|
                0 <= i < queue@.len() ==> allowed.in_bounds(#[trigger] queue@[i]) && marked.at(
                    queue@[i],
                ),
            queue@.no_duplicates(),
            forall|c: Cell|
                allowed.in_bounds(c) && #[trigger] marked.at(c) && !queue@.contains(c)
                    ==> closed_at(*allowed, *marked, c),
            forall|c: Cell|
                allowed.in_bounds(c) && #[trigger] marked.at(c) && !m0.at(c) ==> reaches(
                    grid_pred(*allowed),
                    q0.to_set(),
                    c,
                ),
            forall|c: Cell| #[trigger]
                queue@.contains(c) ==> q0.contains(c) || (allowed.in_bounds(c) && !m0.at(c)),
            forall|c: Cell| q0.contains(c) ==> reaches(grid_pred(*allowed), q0.to_set(), c),
            forall|i: int|
                0 <= i < q0.len() ==> allowed.in_bounds(#[trigger] q0[i]) && m0.at(q0[i]),
            !collect ==> out@ == out0,
            collect ==> out@.len() >= out0.len(),
            collect ==> out@.subrange(0, out0.len() as int) == out0,
            collect ==> out@.skip(out0.len() as int).no_duplicates(),
            collect ==> forall|c: Cell|
                #[trigger] out@.skip(out0.len() as int).contains(c) <==> ((q0.contains(c) || (
                allowed.in_bounds(c) && marked.at(c) && !m0.at(c))) && !queue@.contains(c)),
            collect && out@.len() == out0.len() ==> queue@ == q0,
            collect && out@.len() > out0.len() && q0.len() > 0 ==> out@[out0.len() as int] == q0[0],
            collect && q0.len() > 0 ==> out@.len() > out0.len() || queue@.len() > 0,
        decreases 2 * count_false(marked.data@) + queue@.len(),
    {
        let ghost mq = *marked;
        let ghost qq = queue@;
        let ghost measure = 2 * count_false(marked.data@) + queue@.len();
        let c = match queue.pop_front() {
            Some(c) => c,
            None => {
                return ;
            },
        };
        proof {
            assert(qq[0] == c);
            assert(!queue@.contains(c)) by {
                if queue@.contains(c) {
                    let j = choose|j: int| 0 <= j < queue@.len() && queue@[j] == c;
                    assert(qq[j + 1] == c);
                }
            }
            assert forall|d: Cell| #[trigger] queue@.contains(d) implies qq.contains(d) by {
                let j = choose|j: int| 0 <= j < queue@.len() && queue@[j] == d;
                assert(qq[j + 1] == d);
            }
            assert forall|d: Cell| #[trigger] qq.contains(d) && d != c implies queue@.contains(d) by {
                let j = choose|j: int| 0 <= j < qq.len() && qq[j] == d;
                assert(j != 0);
                assert(queue@[j - 1] == d);
            }
            assert(qq.contains(c));
            if m0.at(c) {
                assert(q0.contains(c));
            }
        }
        let mut dir: usize = 0;
        while dir < 6
            invariant
                0 <= dir <= 6,
                allowed.wf(),
                marked.wf(),
                allowed.same_dims(marked),
                allowed.size_x == sx && allowed.size_y == sy && allowed.size_z == sz,
                m0.same_dims(marked),
                allowed.in_bounds(c),
                marked.at(c),
                !queue@.contains(c),
                m0.at(c) ==> q0.contains(c),
                !m0.at(c) ==> reaches(grid_pred(*allowed), q0.to_set(), c),
                forall|x: Cell| #[trigger] qq.contains(x) && x != c ==> queue@.contains(x),
                forall|x: Cell| #[trigger]
                    queue@.contains(x) ==> (qq.contains(x) && x != c) || (allowed.in_bounds(x)
                        && marked.at(x) && !mq.at(x)),
                forall|c2: Cell| allowed.in_bounds(c2) && #[trigger] mq.at(c2) ==> marked.at(c2),
                forall|c2: Cell| allowed.in_bounds(c2) && #[trigger] m0.at(c2) ==> marked.at(c2),
                forall|c2: Cell| allowed.in_bounds(c2) && #[trigger] marked.at(c2) ==> allowed.at(c2),
                forall|i: int|
                    0 <= i < queue@.len() ==> allowed.in_bounds(#[trigger] queue@[i]) && marked.at(
                        queue@[i],
                    ),
                queue@.no_duplicates(),
                forall|c2: Cell|
                    allowed.in_bounds(c2) && #[trigger] marked.at(c2) && !queue@.contains(c2) && c2
                        != c ==> closed_at(*allowed, *marked, c2),
                forall|c2: Cell|
                    allowed.in_bounds(c2) && #[trigger] marked.at(c2) && !m0.at(c2) ==> reaches(
                        grid_pred(*allowed),
                        q0.to_set(),
                        c2,
                    ),
                forall|c2: Cell| #[trigger]
                    queue@.contains(c2) ==> q0.contains(c2) || (allowed.in_bounds(c2) && !m0.at(c2)),
                forall|c2: Cell| #[trigger]
                    queue@.contains(c2) ==> qq.contains(c2) || (allowed.in_bounds(c2) && !mq.at(c2)),
                forall|c2: Cell| allowed.in_bounds(c2) && #[trigger] marked.at(c2) && !mq.at(c2) ==> queue@.contains(c2),
                forall|k: int|
                    0 <= k < dir ==> (#[trigger] spec_neighbor(c, k, sx, sy, sz) matches Some(d)
                        ==> (allowed.at(d) ==> marked.at(d))),
                2 * count_false(marked.data@) + queue@.len() < measure,
            decreases 6 - dir,
        {
            if let Some(d) = neighbor(allowed, c, dir) {
                if allowed.get(d.0, d.1, d.2) && !marked.get(d.0, d.1, d.2) {
                    let ghost before = *marked;
                    let ghost qb = queue@;
                    marked.set(d.0, d.1, d.2, true);
                    queue.push_back(d);
                    proof {
                        lemma_flat_bounds(d, sx as nat, sy as nat, sz as nat);
                        lemma_count_false_update(before.data@, flat(d, sx as nat, sy as nat));
                        assert(!qb.contains(d));
                        assert forall|c2: Cell| #[trigger] queue@.contains(c2) implies qb.contains(c2) || c2 == d by {
                            let j = choose|j: int| 0 <= j < queue@.len() && queue@[j] == c2;
                            if j < qb.len() {
                                assert(qb[j] == c2);
                            }
                        }
                        assert(queue@.contains(d)) by {
                            assert(queue@[qb.len() as int] == d);
                        }
                        assert forall|c2: Cell| #[trigger] qb.contains(c2) implies queue@.contains(c2) by {
                            let j = choose|j: int| 0 <= j < qb.len() && qb[j] == c2;
                            assert(queue@[j] == c2);
                        }
                        assert forall|c2: Cell| #[trigger] queue@.contains(c2) implies (qq.contains(c2) && c2 != c) || (allowed.in_bounds(c2)
                            && marked.at(c2) && !mq.at(c2)) by {
                            if c2 != d {
                                assert(qb.contains(c2));
                            }
                        }
                        // d is reachable: extend a walk to c by one step
                        if m0.at(c) {
                            let p = seq![c, d];
                            assert(linked(p, 0));
                            assert(is_walk(grid_pred(*allowed), p));
                            assert(q0.to_set().contains(p[0]));
                        } else {
                            assert(reaches(grid_pred(*allowed), q0.to_set(), c));
                            let p = choose|p: Seq<Cell>| #[trigger] is_walk(grid_pred(*allowed), p) && q0.to_set().contains(p[0]) && p.last() == c;
                            let p2 = p.push(d);
                            assert forall|i: int| 0 <= i < p2.len() - 1 implies #[trigger] linked(p2, i) by {
                                if i < p.len() - 1 {
                                    assert(linked(p, i));
                                }
                            }
                            assert forall|i: int| 0 <= i < p2.len() implies allowed.in_bounds(#[trigger] p2[i]) && allowed.at(p2[i]) by {
                                if i < p.len() {
                                    assert(allowed.in_bounds(p[i]));
                                }
                            }
                            assert(is_walk(grid_pred(*allowed), p2));
                            assert(p2[0] == p[0]);
                            assert(p2.last() == d);
                        }
                        assert(reaches(grid_pred(*allowed), q0.to_set(), d));
                        assert forall|c2: Cell|
                            allowed.in_bounds(c2) && #[trigger] marked.at(c2) && !queue@.contains(c2) && c2
                                != c implies closed_at(*allowed, *marked, c2) by {
                            assert(before.at(c2));
                            assert(closed_at(*allowed, before, c2));
                        }
                    }
                }
            }
            dir = dir + 1;
        }
        proof {
            assert(closed_at(*allowed, *marked, c)) by {
                assert forall|d: Cell| allowed.in_bounds(d) && allowed.at(d) && adjacent(c, d) implies #[trigger] marked.at(d) by {
                    let k = lemma_adjacent_dir(*allowed, c, d);
                    assert(spec_neighbor(c, k, sx, sy, sz) == Some(d));
                }
            }
        }
        if collect {
            let ghost ob = out@;
            out.push(c);
            proof {
                assert(out@.subrange(0, out0.len() as int) =~= ob.subrange(0, out0.len() as int));
                assert(out@.skip(out0.len() as int) =~= ob.skip(out0.len() as int).push(c));
                assert(!ob.skip(out0.len() as int).contains(c));
                lemma_popped_update(*allowed, q0, m0, mq, *marked, qq, queue@, ob.skip(out0.len() as int), c);
            }
        }
    }
    proof {
        assert(all_closed(*allowed, *marked)) by {
            assert forall|c: Cell| marked.in_bounds(c) && #[trigger] marked.at(c) implies closed_at(*allowed, *marked, c) by {
                assert(!queue@.contains(c));
            }
        }
    }
}

/// Solid voxels in the bottom floor rows: the voxels known to rest on the ground.
pub open spec fn is_floor_seed(solid: SolidGrid, c: Cell) -> bool {
    solid.in_bounds(c) && c.1 < FLOOR_SEED_ROWS && solid.at(c)
}

pub open spec fn floor_seeds(solid: SolidGrid) -> Set<Cell> {
    Set::new(|c: Cell| is_floor_seed(solid, c))
}

/// The grid covers exactly the voxels of `region`.
pub open spec fn grid_matches_region(g: SolidGrid, region: ScanRegion) -> bool {
    &&& g.wf()
    &&& region.fits()
    &&& g.size_x == axis_len(region.min_x, region.max_x)
    &&& g.size_y == axis_len(region.min_y, region.max_y)
    &&& g.size_z == axis_len(region.min_z, region.max_z)
}

/// Seeds that lie in the scanned part: all rows `z < gz`, then row `gz`
/// columns `x < gx`, then column `gx` heights `y < gy`.
pub open spec fn seed_scanned(c: Cell, gz: int, gx: int, gy: int) -> bool {
    c.2 < gz || (c.2 == gz && (c.0 < gx || (c.0 == gx && c.1 < gy)))
}

/// Flood fill from the solid floor voxels through 6-connected solid voxels.
/// A voxel is grounded exactly when a walk of solid voxels links it to a solid
/// voxel in the bottom floor rows.
pub fn flood_fill_grounded(solid: &SolidGrid, region: &ScanRegion) -> (grounded: SolidGrid)
    requires
        grid_matches_region(*solid, *region),
    ensures
        grounded.wf(),
        grounded.same_dims(solid),
        forall|c: Cell|
            solid.in_bounds(c) ==> (#[trigger] grounded.at(c) <==> reaches(
                grid_pred(*solid),
                floor_seeds(*solid),
                c,
            )),
{
    let mut grounded = SolidGrid::new(region);
    let mut queue: VecDeque<Cell> = VecDeque::new();
    let sx = solid.size_x;
    let sy = solid.size_y;
    let sz = solid.size_z;
    let rows = if FLOOR_SEED_ROWS < sy {
        FLOOR_SEED_ROWS
    } else {
        sy
    };
    let mut gz: usize = 0;
    while gz < sz
        invariant
            grid_matches_region(*solid, *region),
            grounded.wf(),
            grounded.same_dims(solid),
            sx == solid.size_x && sy == solid.size_y && sz == solid.size_z,
            rows <= FLOOR_SEED_ROWS && rows <= sy && (rows == FLOOR_SEED_ROWS || rows == sy),
            gz <= sz,
            forall|c: Cell|
                solid.in_bounds(c) ==> (#[trigger] grounded.at(c) <==> is_floor_seed(*solid, c)
                    && c.2 < gz),
            forall|i: int| 0 <= i < queue@.len() ==> solid.in_bounds(#[trigger] queue@[i]),
            forall|c: Cell| #[trigger] queue@.contains(c) <==> solid.in_bounds(c) && grounded.at(c),
            queue@.no_duplicates(),
        decreases sz - gz,
    {
        let mut gx: usize = 0;
        while gx < sx
            invariant
                grid_matches_region(*solid, *region),
                grounded.wf(),
                grounded.same_dims(solid),
                sx == solid.size_x && sy == solid.size_y && sz == solid.size_z,
                rows <= FLOOR_SEED_ROWS && rows <= sy && (rows == FLOOR_SEED_ROWS || rows == sy),
                gz < sz,
                gx <= sx,
                forall|c: Cell|
                    solid.in_bounds(c) ==> (#[trigger] grounded.at(c) <==> is_floor_seed(*solid, c)
                        && seed_scanned(c, gz as int, gx as int, 0)),
                forall|i: int| 0 <= i < queue@.len() ==> solid.in_bounds(#[trigger] queue@[i]),
                forall|c: Cell| #[trigger]
                    queue@.contains(c) <==> solid.in_bounds(c) && grounded.at(c),
                queue@.no_duplicates(),
            decreases sx - gx,
        {
            let mut gy: usize = 0;
            while gy < rows
                invariant
                    grid_matches_region(*solid, *region),
                    grounded.wf(),
                    grounded.same_dims(solid),
                    sx == solid.size_x && sy == solid.size_y && sz == solid.size_z,
                    rows <= FLOOR_SEED_ROWS && rows <= sy && (rows == FLOOR_SEED_ROWS || rows
                        == sy),
                    gz < sz,
                    gx < sx,
                    gy <= rows,
                    forall|c: Cell|
                        solid.in_bounds(c) ==> (#[trigger] grounded.at(c) <==> is_floor_seed(
                            *solid,
                            c,
                        ) && seed_scanned(c, gz as int, gx as int, gy as int)),
                    forall|i: int| 0 <= i < queue@.len() ==> solid.in_bounds(#[trigger] queue@[i]),
                    forall|c: Cell| #[trigger]
                        queue@.contains(c) <==> solid.in_bounds(c) && grounded.at(c),
                    queue@.no_duplicates(),
                decreases rows - gy,
            {
                if solid.get(gx, gy, gz) {
                    let ghost qb = queue@;
                    grounded.set(gx, gy, gz, true);
                    queue.push_back((gx, gy, gz));
                    proof {
                        assert(!qb.contains((gx, gy, gz)));
                        assert forall|c: Cell| #[trigger]
                            queue@.contains(c) <==> solid.in_bounds(c) && grounded.at(c) by {
                            if queue@.contains(c) && c != (gx, gy, gz) {
                                let j = choose|j: int| 0 <= j < queue@.len() && queue@[j] == c;
                                assert(qb[j] == c);
                            }
                            if c == (gx, gy, gz) {
                                assert(queue@[qb.len() as int] == c);
                            } else if qb.contains(c) {
                                let j = choose|j: int| 0 <= j < qb.len() && qb[j] == c;
                                assert(queue@[j] == c);
                            }
                        }
                    }
                }
                gy = gy + 1;
            }
            proof {
                assert forall|c: Cell|
                    solid.in_bounds(c) implies (#[trigger] grounded.at(c) <==> is_floor_seed(*solid, c)
                        && seed_scanned(c, gz as int, (gx + 1) as int, 0)) by {
                    if c.2 == gz && c.0 == gx && is_floor_seed(*solid, c) {
                        assert(c.1 < rows);
                    }
                }
            }
            gx = gx + 1;
        }
        proof {
            assert forall|c: Cell|
                solid.in_bounds(c) implies (#[trigger] grounded.at(c) <==> is_floor_seed(*solid, c)
                    && c.2 < gz + 1) by {
                if c.2 == gz {
                    assert(seed_scanned(c, gz as int, gx as int, 0));
                }
            }
        }
        gz = gz + 1;
    }
    let mut out: Vec<Cell> = Vec::new();
    let ghost seeded = grounded;
    let ghost q0 = queue@;
    proof {
        assert forall|c: Cell| solid.in_bounds(c) && #[trigger] grounded.at(c) implies solid.at(c) by {
        }
        assert forall|i: int| 0 <= i < queue@.len() implies solid.in_bounds(#[trigger] queue@[i])
            && grounded.at(queue@[i]) by {
            assert(queue@.contains(queue@[i]));
        }
    }
    spread(solid, &mut grounded, &mut queue, &mut out, false);
    proof {
        assert(q0.to_set() =~= floor_seeds(*solid));
        assert forall|c: Cell|
            solid.in_bounds(c) implies (#[trigger] grounded.at(c) <==> reaches(
                grid_pred(*solid),
                floor_seeds(*solid),
                c,
            )) by {
            if grounded.at(c) && seeded.at(c) {
                let p = seq![c];
                assert(is_walk(grid_pred(*solid), p));
                assert(floor_seeds(*solid).contains(p[0]));
            }
            if reaches(grid_pred(*solid), floor_seeds(*solid), c) {
                let p = choose|p: Seq<Cell>| #[trigger] is_walk(grid_pred(*solid), p) && floor_seeds(*solid).contains(p[0]) && p.last() == c;
                assert(seeded.at(p[0]));
                lemma_walk_stays_marked(*solid, grounded, p);
                assert(grounded.at(p[p.len() - 1]));
            }
        }
    }
    grounded
}

/// Solid voxels that are not grounded.
pub open spec fn floating_pred(solid: SolidGrid, grounded: SolidGrid) -> spec_fn(Cell) -> bool {
    |c: Cell| solid.in_bounds(c) && solid.at(c) && !grounded.at(c)
}

/// The voxel at flat position `i`.
pub open spec fn unflat(i: int, sx: nat, sy: nat) -> Cell {
    ((i % sx as int) as usize, ((i / sx as int) % sy as int) as usize, ((i / sx as int) / sy as int) as usize)
}

proof fn lemma_unflat(i: int, sx: nat, sy: nat, sz: nat)
    requires
        0 <= i < sx * sy * sz,
        sx * sy * sz <= usize::MAX,
    ensures
        unflat(i, sx, sy).0 < sx,
        unflat(i, sx, sy).1 < sy,
        unflat(i, sx, sy).2 < sz,
        flat(unflat(i, sx, sy), sx, sy) == i,
{
    assert(sx > 0 && sy > 0 && sz > 0) by (nonlinear_arith)
        requires
            0 <= i < sx * sy * sz,
    ;
    let q = i / sx as int;
    let x = i % sx as int;
    let y = q % sy as int;
    let z = q / sy as int;
    vstd::arithmetic::div_mod::lemma_fundamental_div_mod(i, sx as int);
    vstd::arithmetic::div_mod::lemma_fundamental_div_mod(q, sy as int);
    vstd::arithmetic::div_mod::lemma_div_pos_is_pos(i, sx as int);
    vstd::arithmetic::div_mod::lemma_div_pos_is_pos(q, sy as int);
    assert(q < sy * sz) by {
        assert(sx * sy * sz == sx * (sy * sz)) by (nonlinear_arith);
        vstd::arithmetic::div_mod::lemma_multiply_divide_lt(i, sx as int, (sy * sz) as int);
    }
    assert(z < sz) by {
        vstd::arithmetic::div_mod::lemma_multiply_divide_lt(q, sy as int, sz as int);
    }
    assert(x + y * sx + z * sx * sy == x + sx * (y + sy * z)) by (nonlinear_arith);
    assert(sx <= sx * sy * sz && sy <= sx * sy * sz && sz <= sx * sy * sz) by (nonlinear_arith)
        requires
            sx > 0,
            sy > 0,
            sz > 0,
    ;
}

/// Walks can be followed backwards.
proof fn lemma_walk_reverse(allowed: spec_fn(Cell) -> bool, p: Seq<Cell>)
    requires
        is_walk(allowed, p),
    ensures
        is_walk(allowed, p.reverse()),
        p.reverse()[0] == p.last(),
        p.reverse().last() == p[0],
{
    let r = p.reverse();
    assert forall|i: int| 0 <= i < r.len() implies allowed(#[trigger] r[i]) by {
        assert(allowed(p[p.len() - 1 - i]));
    }
    assert forall|i: int| 0 <= i < r.len() - 1 implies #[trigger] linked(r, i) by {
        let j = p.len() - 2 - i;
        assert(linked(p, j));
    }
}

/// Marks and returns the connected component of `s` among the `true` voxels
/// of `floating`, starting from `s`.
fn grow_component(floating: &SolidGrid, visited: &mut SolidGrid, s: Cell) -> (comp: Vec<Cell>)
    requires
        floating.wf(),
        old(visited).wf(),
        floating.same_dims(old(visited)),
        floating.in_bounds(s),
        floating.at(s),
        !old(visited).at(s),
        forall|c: Cell| floating.in_bounds(c) && #[trigger] old(visited).at(c) ==> floating.at(c),
        all_closed(*floating, *old(visited)),
    ensures
        final(visited).wf(),
        final(visited).same_dims(old(visited)),
        comp@.len() > 0,
        comp@[0] == s,
        comp@.no_duplicates(),
        forall|c: Cell| #[trigger]
            comp@.contains(c) <==> reaches(grid_pred(*floating), set![s], c),
        forall|c: Cell|
            floating.in_bounds(c) ==> (#[trigger] final(visited).at(c) <==> old(visited).at(c)
                || comp@.contains(c)),
        forall|c: Cell| #[trigger] comp@.contains(c) ==> floating.in_bounds(c) && !old(visited).at(c),
        forall|c: Cell| floating.in_bounds(c) && #[trigger] final(visited).at(c) ==> floating.at(c),
        all_closed(*floating, *final(visited)),
{
    let ghost v0 = *visited;
    visited.set(s.0, s.1, s.2, true);
    let ghost v1 = *visited;
    let mut queue: VecDeque<Cell> = VecDeque::new();
    queue.push_back(s);
    let mut comp: Vec<Cell> = Vec::new();
    proof {
        assert(queue@ =~= seq![s]);
        assert(queue@[0] == s);
        assert(queue@.contains(s));
        assert forall|c: Cell|
            floating.in_bounds(c) && #[trigger] visited.at(c) && !queue@.contains(c) implies closed_at(
            *floating,
            *visited,
            c,
        ) by {
            assert(c != s);
            assert(v0.at(c));
            assert(closed_at(*floating, v0, c));
        }
        assert forall|i: int| 0 <= i < queue@.len() implies floating.in_bounds(#[trigger] queue@[i])
            && visited.at(queue@[i]) by {
        }
    }
    spread(floating, visited, &mut queue, &mut comp, true);
    proof {
        assert(seq![s].to_set() =~= set![s]);
        assert(comp@.skip(0) =~= comp@);
        assert forall|c: Cell| #[trigger] comp@.contains(c) implies floating.in_bounds(c) && !v0.at(c) by {
            if c != s {
                assert(floating.in_bounds(c) && visited.at(c) && !v1.at(c));
            }
        }
        assert forall|c: Cell| #[trigger]
            comp@.contains(c) <==> reaches(grid_pred(*floating), set![s], c) by {
            if comp@.contains(c) && c == s {
                let p = seq![s];
                assert(is_walk(grid_pred(*floating), p));
                assert(set![s].contains(p[0]));
            }
            if reaches(grid_pred(*floating), set![s], c) {
                let p = choose|p: Seq<Cell>| #[trigger] is_walk(grid_pred(*floating), p) && set![s].contains(p[0]) && p.last() == c;
                lemma_walk_stays_marked(*floating, *visited, p);
                assert(visited.at(p[p.len() - 1]));
                if c != s && v1.at(c) {
                    // c was visited before: walking back from c stays in the old component set
                    lemma_walk_reverse(grid_pred(*floating), p);
                    let r = p.reverse();
                    assert(v0.at(r[0]));
                    lemma_walk_stays_marked(*floating, v0, r);
                    assert(v0.at(r[r.len() - 1]));
                }
            }
        }
        assert forall|c: Cell|
            floating.in_bounds(c) implies (#[trigger] visited.at(c) <==> v0.at(c) || comp@.contains(c)) by {
            assert(comp@.skip(0).contains(c) <==> comp@.contains(c));
            if c == s {
                assert(comp@[0] == s);
                assert(v1.at(c));
            } else {
                assert(v1.at(c) == v0.at(c));
                if v0.at(c) {
                    assert(v1.at(c));
                }
            }
        }
    }
    comp
}

/// Splits the solid voxels that are not grounded into 6-connected components.
/// Components come in scan order (x fastest, then y, then z) of their first
/// voxel, which is the first voxel of its component in that order; each
/// component holds every floating voxel linked to its first voxel, once.
pub fn find_floating_components(solid: &SolidGrid, grounded: &SolidGrid) -> (comps: Vec<Vec<Cell>>)
    requires
        solid.wf(),
        grounded.wf(),
        grounded.same_dims(solid),
    ensures
        forall|i: int|
            0 <= i < comps@.len() ==> (#[trigger] comps@[i])@.len() > 0 && comps@[i]@.no_duplicates(),
        forall|i: int, c: Cell|
            0 <= i < comps@.len() ==> (#[trigger] comps@[i]@.contains(c) <==> reaches(
                floating_pred(*solid, *grounded),
                set![comps@[i]@[0]],
                c,
            )),
        forall|c: Cell| #[trigger]
            floating_pred(*solid, *grounded)(c) ==> exists|i: int|
                0 <= i < comps@.len() && comps@[i]@.contains(c),
        forall|i: int, j: int, c: Cell|
            0 <= i < j < comps@.len() && #[trigger] comps@[i]@.contains(c) ==> !#[trigger] comps@[j]@.contains(c),
        forall|i: int, j: int|
            0 <= i < j < comps@.len() ==> flat(#[trigger] comps@[i]@[0], solid.size_x as nat, solid.size_y as nat)
                < flat(#[trigger] comps@[j]@[0], solid.size_x as nat, solid.size_y as nat),
        forall|i: int, c: Cell|
            0 <= i < comps@.len() && #[trigger] comps@[i]@.contains(c) ==> flat(comps@[i]@[0], solid.size_x as nat, solid.size_y as nat)
                <= flat(c, solid.size_x as nat, solid.size_y as nat),
{
    let sx = solid.size_x;
    let sy = solid.size_y;
    let sz = solid.size_z;
    let n = solid.data.len();
    let ghost F = floating_pred(*solid, *grounded);
    let mut fdata: Vec<bool> = Vec::new();
    let mut i: usize = 0;
    while i < n
        invariant
            n == solid.data@.len(),
            n == grounded.data@.len(),
            i <= n,
            fdata@.len() == i,
            forall|j: int| 0 <= j < i ==> #[trigger] fdata@[j] == (solid.data@[j] && !grounded.data@[j]),
        decreases n - i,
    {
        fdata.push(solid.data[i] && !grounded.data[i]);
        i = i + 1;
    }
    let floating = SolidGrid { data: fdata, size_x: sx, size_y: sy, size_z: sz };
    let mut visited = SolidGrid { data: vec![false; n], size_x: sx, size_y: sy, size_z: sz };
    proof {
        assert(grid_pred(floating) =~= F) by {
            assert forall|c: Cell| #[trigger] grid_pred(floating)(c) == F(c) by {
                if floating.in_bounds(c) {
                    lemma_flat_bounds(c, sx as nat, sy as nat, sz as nat);
                }
            }
        }
        assert forall|c: Cell| floating.in_bounds(c) implies !#[trigger] visited.at(c) by {
            lemma_flat_bounds(c, sx as nat, sy as nat, sz as nat);
        }
    }
    let mut comps: Vec<Vec<Cell>> = Vec::new();
    let mut k: usize = 0;
    while k < n
        invariant
            floating.wf(),
            visited.wf(),
            floating.same_dims(&visited),
            floating.size_x == sx && floating.size_y == sy && floating.size_z == sz,
            solid.size_x == sx && solid.size_y == sy && solid.size_z == sz,
            n == sx * sy * sz,
            k <= n,
            grid_pred(floating) == F,
            F == floating_pred(*solid, *grounded),
            forall|c: Cell| floating.in_bounds(c) && #[trigger] visited.at(c) ==> floating.at(c),
            all_closed(floating, visited),
            forall|c: Cell|
                floating.in_bounds(c) ==> (#[trigger] visited.at(c) <==> exists|i: int|
                    0 <= i < comps@.len() && comps@[i]@.contains(c)),
            forall|c: Cell|
                floating.in_bounds(c) && floating.at(c) && flat(c, sx as nat, sy as nat) < k ==> #[trigger] visited.at(c),
            forall|i: int|
                0 <= i < comps@.len() ==> (#[trigger] comps@[i])@.len() > 0 && comps@[i]@.no_duplicates(),
            forall|i: int, c: Cell|
                0 <= i < comps@.len() ==> (#[trigger] comps@[i]@.contains(c) <==> reaches(F, set![comps@[i]@[0]], c)),
            forall|i: int, j: int, c: Cell|
                0 <= i < j < comps@.len() && #[trigger] comps@[i]@.contains(c) ==> !#[trigger] comps@[j]@.contains(c),
            forall|i: int, j: int|
                0 <= i < j < comps@.len() ==> flat(#[trigger] comps@[i]@[0], sx as nat, sy as nat)
                    < flat(#[trigger] comps@[j]@[0], sx as nat, sy as nat),
            forall|i: int| 0 <= i < comps@.len() ==> flat(#[trigger] comps@[i]@[0], sx as nat, sy as nat) < k,
            forall|i: int, c: Cell|
                0 <= i < comps@.len() && #[trigger] comps@[i]@.contains(c) ==> floating.in_bounds(c) && flat(comps@[i]@[0], sx as nat, sy as nat)
                    <= flat(c, sx as nat, sy as nat),
        decreases n - k,
    {
        let ghost kk = k as int;
        proof {
            lemma_unflat(kk, sx as nat, sy as nat, sz as nat);
        }
        let x = k % sx;
        let y = (k / sx) % sy;
        let z = (k / sx) / sy;
        let ghost c = (x, y, z);
        assert(c == unflat(kk, sx as nat, sy as nat));
        if floating.get(x, y, z) && !visited.get(x, y, z) {
            let ghost vb = visited;
            let ghost cb = comps@;
            let comp = grow_component(&floating, &mut visited, (x, y, z));
            comps.push(comp);
            proof {
                let last = comps@.len() - 1;
                assert(comps@[last]@ == comp@);
                assert forall|d: Cell| #[trigger] comp@.contains(d) implies flat(c, sx as nat, sy as nat)
                    <= flat(d, sx as nat, sy as nat) by {
                    assert(floating.in_bounds(d) && !vb.at(d));
                    if flat(d, sx as nat, sy as nat) < kk {
                        assert(reaches(grid_pred(floating), set![c], d));
                        let p = choose|p: Seq<Cell>| #[trigger] is_walk(grid_pred(floating), p) && set![c].contains(p[0]) && p.last() == d;
                        assert(grid_pred(floating)(p[p.len() - 1]));
                        assert(vb.at(d));
                    }
                }
                assert forall|c2: Cell|
                    floating.in_bounds(c2) implies (#[trigger] visited.at(c2) <==> exists|i: int|
                        0 <= i < comps@.len() && comps@[i]@.contains(c2)) by {
                    if visited.at(c2) {
                        if comp@.contains(c2) {
                            assert(comps@[last]@.contains(c2));
                        } else {
                            assert(vb.at(c2));
                            let i = choose|i: int| 0 <= i < cb.len() && cb[i]@.contains(c2);
                            assert(comps@[i] == cb[i]);
                        }
                    }
                    if exists|i: int| 0 <= i < comps@.len() && comps@[i]@.contains(c2) {
                        let i = choose|i: int| 0 <= i < comps@.len() && comps@[i]@.contains(c2);
                        if i < last {
                            assert(cb[i]@.contains(c2));
                        }
                    }
                }
                assert forall|i: int, c2: Cell|
                    0 <= i < comps@.len() implies (#[trigger] comps@[i]@.contains(c2) <==> reaches(F, set![comps@[i]@[0]], c2)) by {
                    if i < last {
                        assert(comps@[i] == cb[i]);
                    }
                }
                assert forall|i: int, j: int, c2: Cell|
                    0 <= i < j < comps@.len() && #[trigger] comps@[i]@.contains(c2) implies !#[trigger] comps@[j]@.contains(c2) by {
                    assert(comps@[i] == cb[i]);
                    if j == last {
                        if comp@.contains(c2) {
                            assert(floating.in_bounds(c2));
                            assert(vb.at(c2));
                        }
                    } else {
                        assert(comps@[j] == cb[j]);
                    }
                }
                assert forall|i: int, c2: Cell|
                    0 <= i < comps@.len() && #[trigger] comps@[i]@.contains(c2) implies floating.in_bounds(c2) && flat(comps@[i]@[0], sx as nat, sy as nat)
                        <= flat(c2, sx as nat, sy as nat) by {
                    if i < last {
                        assert(comps@[i] == cb[i]);
                    }
                }
                assert forall|i: int, j: int|
                    0 <= i < j < comps@.len() implies flat(#[trigger] comps@[i]@[0], sx as nat, sy as nat)
                        < flat(#[trigger] comps@[j]@[0], sx as nat, sy as nat) by {
                    assert(comps@[i] == cb[i]);
                    if j < last {
                        assert(comps@[j] == cb[j]);
                    }
                }
            }
        }
        proof {
            assert forall|c2: Cell|
                floating.in_bounds(c2) && floating.at(c2) && flat(c2, sx as nat, sy as nat) < kk + 1 implies #[trigger] visited.at(c2) by {
                if flat(c2, sx as nat, sy as nat) == kk {
                    lemma_flat_injective(c2, c, sx as nat, sy as nat);
                }
            }
        }
        k = k + 1;
    }
    proof {
        assert forall|c: Cell| #[trigger] F(c) implies exists|i: int| 0 <= i < comps@.len() && comps@[i]@.contains(c) by {
            assert(grid_pred(floating)(c));
            lemma_flat_bounds(c, sx as nat, sy as nat, sz as nat);
            assert(visited.at(c));
        }
    }
    comps
}

/// Lowest height of the voxels of `comp` in column `(x, z)`, if it has any.
pub open spec fn column_low(comp: Seq<Cell>, x: usize, z: usize) -> Option<usize>
    decreases comp.len(),
{
    if comp.len() == 0 {
        None
    } else {
        let rest = column_low(comp.drop_last(), x, z);
        let c = comp.last();
        if c.0 == x && c.2 == z {
            match rest {
                None => Some(c.1),
                Some(r) => Some(if r < c.1 { r } else { c.1 }),
            }
        } else {
            rest
        }
    }
}

/// Height of the highest voxel below `y` in column `(x, z)` that is both solid
/// and grounded, or -1 (the floor below the grid) when there is none.
pub open spec fn landing(solid: SolidGrid, grounded: SolidGrid, x: usize, z: usize, y: int) -> int
    decreases y,
{
    if y <= 0 {
        -1
    } else if solid.at((x, (y - 1) as usize, z)) && grounded.at((x, (y - 1) as usize, z)) {
        y - 1
    } else {
        landing(solid, grounded, x, z, y - 1)
    }
}

/// Free cells under the lowest voxel of `c`'s column in `comp`.
pub open spec fn column_gap(solid: SolidGrid, grounded: SolidGrid, comp: Seq<Cell>, c: Cell) -> int {
    let low = column_low(comp, c.0, c.2).unwrap() as int;
    low - (landing(solid, grounded, c.0, c.2, low) + 1)
}

/// Smallest column gap over the voxels of `cells` (`i32::MAX` when there are none).
pub open spec fn min_gap(solid: SolidGrid, grounded: SolidGrid, comp: Seq<Cell>, cells: Seq<Cell>) -> int
    decreases cells.len(),
{
    if cells.len() == 0 {
        i32::MAX as int
    } else {
        let rest = min_gap(solid, grounded, comp, cells.drop_last());
        let g = column_gap(solid, grounded, comp, cells.last());
        if g < rest { g } else { rest }
    }
}

/// How far a component can drop: the smallest gap under any of its columns,
/// never negative.
pub open spec fn drop_distance(solid: SolidGrid, grounded: SolidGrid, comp: Seq<Cell>) -> int {
    let m = min_gap(solid, grounded, comp, comp);
    if m > 0 { m } else { 0 }
}

proof fn lemma_column_low_some(comp: Seq<Cell>, i: int)
    requires
        0 <= i < comp.len(),
    ensures
        column_low(comp, comp[i].0, comp[i].2) matches Some(l) && l <= comp[i].1,
        forall|l: usize| column_low(comp, comp[i].0, comp[i].2) == Some(l) ==> exists|j: int| 0 <= j < comp.len() && comp[j].0 == comp[i].0 && comp[j].2 == comp[i].2 && comp[j].1 == l,
    decreases comp.len(),
{
    let x = comp[i].0;
    let z = comp[i].2;
    if i < comp.len() - 1 {
        lemma_column_low_some(comp.drop_last(), i);
        assert(comp.drop_last()[i] == comp[i]);
        let l0 = column_low(comp.drop_last(), x, z).unwrap();
        let j0 = choose|j: int| 0 <= j < comp.drop_last().len() && comp.drop_last()[j].0 == x && comp.drop_last()[j].2 == z && comp.drop_last()[j].1 == l0;
        assert(comp[j0] == comp.drop_last()[j0]);
    } else {
        if column_low(comp.drop_last(), x, z) is Some {
            lemma_column_low_witness(comp.drop_last(), x, z);
        }
    }
}

proof fn lemma_column_low_witness(comp: Seq<Cell>, x: usize, z: usize)
    requires
        column_low(comp, x, z) is Some,
    ensures
        exists|j: int| 0 <= j < comp.len() && comp[j].0 == x && comp[j].2 == z && comp[j].1 == column_low(comp, x, z).unwrap(),
    decreases comp.len(),
{
    if comp.len() > 0 {
        let c = comp.last();
        let rest = column_low(comp.drop_last(), x, z);
        if rest is Some {
            lemma_column_low_witness(comp.drop_last(), x, z);
            let j0 = choose|j: int| 0 <= j < comp.drop_last().len() && comp.drop_last()[j].0 == x && comp.drop_last()[j].2 == z && comp.drop_last()[j].1 == rest.unwrap();
            assert(comp[j0] == comp.drop_last()[j0]);
        }
        assert(comp[comp.len() - 1] == c);
    }
}

/// The landing height lies below `y`, and every cell strictly between them
/// is free of grounded solid.
proof fn lemma_landing_clear(solid: SolidGrid, grounded: SolidGrid, x: usize, z: usize, y: int, h: int)
    requires
        landing(solid, grounded, x, z, y) < h < y,
    ensures
        !(solid.at((x, h as usize, z)) && grounded.at((x, h as usize, z))),
    decreases y,
{
    if y > 0 && !(solid.at((x, (y - 1) as usize, z)) && grounded.at((x, (y - 1) as usize, z))) {
        if h < y - 1 {
            lemma_landing_clear(solid, grounded, x, z, y - 1, h);
        }
    }
}

proof fn lemma_landing_below(solid: SolidGrid, grounded: SolidGrid, x: usize, z: usize, y: int)
    ensures
        -1 <= landing(solid, grounded, x, z, y),
        y > 0 ==> landing(solid, grounded, x, z, y) < y,
    decreases y,
{
    if y > 0 {
        lemma_landing_below(solid, grounded, x, z, y - 1);
    }
}

/// `min_gap` is at most the gap of each listed voxel, and equals one of
/// them when the list is not empty.
proof fn lemma_min_gap_bounds(solid: SolidGrid, grounded: SolidGrid, comp: Seq<Cell>, cells: Seq<Cell>)
    ensures
        forall|i: int|
            0 <= i < cells.len() ==> min_gap(solid, grounded, comp, cells) <= column_gap(
                solid,
                grounded,
                comp,
                #[trigger] cells[i],
            ),
        cells.len() > 0 ==> exists|i: int|
            0 <= i < cells.len() && (min_gap(solid, grounded, comp, cells) == column_gap(
                solid,
                grounded,
                comp,
                #[trigger] cells[i],
            ) || i32::MAX <= column_gap(solid, grounded, comp, cells[i])),
    decreases cells.len(),
{
    if cells.len() > 0 {
        let rest = cells.drop_last();
        lemma_min_gap_bounds(solid, grounded, comp, rest);
        assert forall|i: int| 0 <= i < cells.len() implies min_gap(solid, grounded, comp, cells)
            <= column_gap(solid, grounded, comp, #[trigger] cells[i]) by {
            if i < cells.len() - 1 {
                assert(cells[i] == rest[i]);
            }
        }
        let last = cells.len() - 1;
        if rest.len() > 0 && min_gap(solid, grounded, comp, cells) == min_gap(solid, grounded, comp, rest) {
            let i = choose|i: int|
                0 <= i < rest.len() && (min_gap(solid, grounded, comp, rest) == column_gap(
                    solid,
                    grounded,
                    comp,
                    #[trigger] rest[i],
                ) || i32::MAX <= column_gap(solid, grounded, comp, rest[i]));
            assert(cells[i] == rest[i]);
            if min_gap(solid, grounded, comp, rest) != column_gap(solid, grounded, comp, rest[i]) {
                assert(column_gap(solid, grounded, comp, cells[last]) >= min_gap(solid, grounded, comp, rest));
            }
        } else {
            assert(min_gap(solid, grounded, comp, cells) == column_gap(solid, grounded, comp, cells[last])
                || i32::MAX <= column_gap(solid, grounded, comp, cells[last]));
        }
    }
}

/// Dropping a component by its drop distance moves each column's lowest
/// voxel only through cells free of grounded solid, and never below the
/// bottom of the grid.
pub proof fn lemma_drop_path_clear(solid: SolidGrid, grounded: SolidGrid, comp: Seq<Cell>, i: int, k: int)
    requires
        0 <= i < comp.len(),
        1 <= k <= drop_distance(solid, grounded, comp),
    ensures
        ({
            let c = comp[i];
            let low = column_low(comp, c.0, c.2).unwrap() as int;
            &&& 0 <= low - k
            &&& !(solid.at((c.0, (low - k) as usize, c.2)) && grounded.at((c.0, (low - k) as usize, c.2)))
        }),
{
    let c = comp[i];
    lemma_column_low_some(comp, i);
    let low = column_low(comp, c.0, c.2).unwrap() as int;
    lemma_min_gap_bounds(solid, grounded, comp, comp);
    assert(min_gap(solid, grounded, comp, comp) <= column_gap(solid, grounded, comp, comp[i]));
    lemma_landing_below(solid, grounded, c.0, c.2, low);
    lemma_landing_clear(solid, grounded, c.0, c.2, low, low - k);
}

/// A component that drops comes to rest: after dropping by its drop
/// distance, some column's lowest voxel sits directly on grounded solid or
/// on the bottom of the grid.
pub proof fn lemma_drop_comes_to_rest(solid: SolidGrid, grounded: SolidGrid, comp: Seq<Cell>)
    requires
        comp.len() > 0,
        solid.size_y <= i32::MAX,
        forall|j: int| 0 <= j < comp.len() ==> solid.in_bounds(#[trigger] comp[j]),
        drop_distance(solid, grounded, comp) > 0,
    ensures
        exists|i: int|
            0 <= i < comp.len() && ({
                let c = #[trigger] comp[i];
                let low = column_low(comp, c.0, c.2).unwrap() as int;
                let rest = low - drop_distance(solid, grounded, comp);
                rest == 0 || (solid.at((c.0, (rest - 1) as usize, c.2)) && grounded.at(
                    (c.0, (rest - 1) as usize, c.2),
                ))
            }),
{
    lemma_min_gap_bounds(solid, grounded, comp, comp);
    let i = choose|i: int|
        0 <= i < comp.len() && (min_gap(solid, grounded, comp, comp) == column_gap(
            solid,
            grounded,
            comp,
            #[trigger] comp[i],
        ) || i32::MAX <= column_gap(solid, grounded, comp, comp[i]));
    let c = comp[i];
    lemma_column_low_some(comp, i);
    let low = column_low(comp, c.0, c.2).unwrap() as int;
    let l = landing(solid, grounded, c.0, c.2, low);
    lemma_landing_below(solid, grounded, c.0, c.2, low);
    let j = choose|j: int| 0 <= j < comp.len() && comp[j].0 == c.0 && comp[j].2 == c.2 && comp[j].1 == low;
    assert(solid.in_bounds(comp[j]));
    assert(column_gap(solid, grounded, comp, comp[i]) < i32::MAX);
    lemma_landing_hit(solid, grounded, c.0, c.2, low);
    assert(low - drop_distance(solid, grounded, comp) == l + 1);
}

proof fn lemma_landing_hit(solid: SolidGrid, grounded: SolidGrid, x: usize, z: usize, y: int)
    ensures
        landing(solid, grounded, x, z, y) == -1 || ({
            let l = landing(solid, grounded, x, z, y);
            solid.at((x, l as usize, z)) && grounded.at((x, l as usize, z))
        }),
    decreases y,
{
    if y > 0 {
        lemma_landing_hit(solid, grounded, x, z, y - 1);
    }
}

/// The column of `(x, z)` in a column table indexed `x + z * sx`.
pub open spec fn column_index(x: usize, z: usize, sx: nat) -> int {
    x + z * sx
}

proof fn lemma_column_index_bounds(x: usize, z: usize, sx: nat, sz: nat)
    requires
        x < sx,
        z < sz,
    ensures
        0 <= z * sx <= x + z * sx < sx * sz,
{
    assert(0 <= z * sx <= x + z * sx < sx * sz) by (nonlinear_arith)
        requires
            x < sx,
            z < sz,
    ;
}

/// Grid cells between the lowest component voxel of a column and the highest
/// solid grounded voxel below it, minimised over the columns of the component,
/// and never negative. `i32::MAX` for an empty component.
pub fn compute_drop_distance(
    component: &Vec<Cell>,
    solid: &SolidGrid,
    grounded: &SolidGrid,
    _region: &ScanRegion,
) -> (d: i32)
    requires
        solid.wf(),
        grounded.wf(),
        grounded.same_dims(solid),
        solid.size_y <= i32::MAX,
        forall|i: int| 0 <= i < component@.len() ==> solid.in_bounds(#[trigger] component@[i]),
    ensures
        d == drop_distance(*solid, *grounded, component@),
{
    let n = component.len();
    if n == 0 {
        return i32::MAX;
    }
    let sx = solid.size_x;
    let sy = solid.size_y;
    let sz = solid.size_z;
    let ghost comp = component@;
    proof {
        let c0 = comp[0];
        assert(solid.in_bounds(c0));
        lemma_flat_bounds(c0, sx as nat, sy as nat, sz as nat);
        assert(sx * sz <= sx * sy * sz) by (nonlinear_arith)
            requires
                sy >= 1,
        ;
        assert(sx * sz == sz * sx) by (nonlinear_arith);
    }
    let total = solid.data.len();
    let ncols = sx * sz;
    let mut lows: Vec<usize> = vec![sy; ncols];
    proof {
        assert forall|x: usize, z: usize| x < sx && z < sz implies #[trigger] lows@[column_index(x, z, sx as nat)] == match column_low(comp.take(0), x, z) {
            Some(l) => l,
            None => sy,
        } by {
            lemma_column_index_bounds(x, z, sx as nat, sz as nat);
        }
    }
    let mut i: usize = 0;
    while i < n
        invariant
            n == comp.len(),
            comp == component@,
            i <= n,
            lows@.len() == sx * sz,
            sx * sz <= usize::MAX,
            sx == solid.size_x && sy == solid.size_y && sz == solid.size_z,
            forall|j: int| 0 <= j < comp.len() ==> solid.in_bounds(#[trigger] comp[j]),
            forall|x: usize, z: usize| x < sx && z < sz ==> #[trigger] lows@[column_index(x, z, sx as nat)] == match column_low(comp.take(i as int), x, z) {
                Some(l) => l,
                None => sy,
            },
        decreases n - i,
    {
        let c = component[i];
        let ghost pre = comp.take(i as int);
        proof {
            assert(comp.take(i + 1).drop_last() =~= pre);
            assert(comp.take(i + 1).last() == c);
            lemma_column_index_bounds(c.0, c.2, sx as nat, sz as nat);
        }
        let col = c.0 + c.2 * sx;
        if c.1 < lows[col] {
            lows.set(col, c.1);
        }
        proof {
            assert forall|x: usize, z: usize| x < sx && z < sz implies #[trigger] lows@[column_index(x, z, sx as nat)] == match column_low(comp.take(i + 1), x, z) {
                Some(l) => l,
                None => sy,
            } by {
                lemma_column_index_bounds(x, z, sx as nat, sz as nat);
                if column_index(x, z, sx as nat) == col {
                    assert(x == c.0 && z == c.2) by {
                        vstd::arithmetic::div_mod::lemma_fundamental_div_mod_converse(col as int, sx as int, z as int, x as int);
                        vstd::arithmetic::div_mod::lemma_fundamental_div_mod_converse(col as int, sx as int, c.2 as int, c.0 as int);
                    }
                    match column_low(pre, x, z) {
                        Some(l) => { lemma_column_low_witness(pre, x, z); }
                        None => {}
                    }
                } else {
                    assert(!(x == c.0 && z == c.2));
                }
            }
        }
        i = i + 1;
    }
    proof {
        assert(comp.take(n as int) =~= comp);
    }
    let mut min_drop: i32 = i32::MAX;
    let mut k: usize = 0;
    while k < n
        invariant
            n == comp.len(),
            comp == component@,
            k <= n,
            solid.wf(),
            grounded.wf(),
            grounded.same_dims(solid),
            lows@.len() == sx * sz,
            sx * sz <= usize::MAX,
            sx == solid.size_x && sy == solid.size_y && sz == solid.size_z,
            sy <= i32::MAX,
            forall|j: int| 0 <= j < comp.len() ==> solid.in_bounds(#[trigger] comp[j]),
            forall|x: usize, z: usize| x < sx && z < sz ==> #[trigger] lows@[column_index(x, z, sx as nat)] == match column_low(comp, x, z) {
                Some(l) => l,
                None => sy,
            },
            min_drop == min_gap(*solid, *grounded, comp, comp.take(k as int)),
        decreases n - k,
    {
        let c = component[k];
        proof {
            lemma_column_index_bounds(c.0, c.2, sx as nat, sz as nat);
            lemma_column_low_some(comp, k as int);
        }
        let low = lows[c.0 + c.2 * sx];
        proof {
            assert(lows@[column_index(c.0, c.2, sx as nat)] == match column_low(comp, c.0, c.2) {
                Some(l) => l,
                None => sy,
            });
            assert(low <= c.1);
        }
        // scan down for the highest grounded solid voxel under the column
        let mut y = low;
        let mut land: i32 = -1;
        let mut found = false;
        while y > 0 && !found
            invariant
                solid.wf(),
                grounded.wf(),
                grounded.same_dims(solid),
                sx == solid.size_x && sy == solid.size_y && sz == solid.size_z,
                c.0 < sx && c.2 < sz,
                y <= low,
                low < sy,
                sy <= i32::MAX,
                !found ==> landing(*solid, *grounded, c.0, c.2, low as int) == landing(*solid, *grounded, c.0, c.2, y as int),
                !found ==> land == -1,
                -1 <= land < low,
                found ==> land == landing(*solid, *grounded, c.0, c.2, low as int),
            decreases y + if found { 0int } else { 1int },
        {
            if solid.get(c.0, y - 1, c.2) && grounded.get(c.0, y - 1, c.2) {
                land = (y - 1) as i32;
                found = true;
            } else {
                y = y - 1;
            }
        }
        let gap: i32 = low as i32 - (land + 1);
        proof {
            assert(comp.take(k + 1).drop_last() =~= comp.take(k as int));
            assert(comp.take(k + 1).last() == c);
            assert(gap == column_gap(*solid, *grounded, comp, c));
        }
        if gap < min_drop {
            min_drop = gap;
        }
        k = k + 1;
    }
    proof {
        assert(comp.take(n as int) =~= comp);
    }
    if min_drop > 0 {
        min_drop
    } else {
        0
    }
}


/// Larger of two integers.
pub open spec fn max_int(a: int, b: int) -> int {
    if a >= b {
        a
    } else {
        b
    }
}

/// Smaller of two integers.
pub open spec fn min_int(a: int, b: int) -> int {
    if a <= b {
        a
    } else {
        b
    }
}

/// Larger extent of the footprint box (at least one), in cells.
pub open spec fn footprint_extent(fp_min_x: int, fp_max_x: int, fp_min_z: int, fp_max_z: int) -> int {
    max_int(max_int(fp_max_x - fp_min_x, fp_max_z - fp_min_z), 1)
}

/// Horizontal margin scanned around a footprint box: twice its larger
/// extent, clamped to `MIN_SCAN_MARGIN..=MAX_SCAN_MARGIN`.
pub open spec fn scan_margin(fp_min_x: int, fp_max_x: int, fp_min_z: int, fp_max_z: int) -> int {
    min_int(
        max_int(
            footprint_extent(fp_min_x, fp_max_x, fp_min_z, fp_max_z) * SCAN_MARGIN_MULTIPLIER,
            MIN_SCAN_MARGIN as int,
        ),
        MAX_SCAN_MARGIN as int,
    )
}

/// The scan margin depends on both extents of the footprint alike:
/// exchanging its x and z ranges leaves the margin unchanged. It lies in
/// `MIN_SCAN_MARGIN..=MAX_SCAN_MARGIN`, covers twice the x extent and twice
/// the z extent whenever that fits under the maximum, and is larger than the
/// minimum only as twice one of the extents or as the maximum.
pub proof fn lemma_scan_margin(x0: int, x1: int, z0: int, z1: int)
    ensures
        scan_margin(x0, x1, z0, z1) == scan_margin(z0, z1, x0, x1),
        MIN_SCAN_MARGIN <= scan_margin(x0, x1, z0, z1) <= MAX_SCAN_MARGIN,
        (x1 - x0) * SCAN_MARGIN_MULTIPLIER <= MAX_SCAN_MARGIN ==> (x1 - x0) * SCAN_MARGIN_MULTIPLIER
            <= scan_margin(x0, x1, z0, z1),
        (z1 - z0) * SCAN_MARGIN_MULTIPLIER <= MAX_SCAN_MARGIN ==> (z1 - z0) * SCAN_MARGIN_MULTIPLIER
            <= scan_margin(x0, x1, z0, z1),
        scan_margin(x0, x1, z0, z1) > MIN_SCAN_MARGIN ==> scan_margin(x0, x1, z0, z1)
            == MAX_SCAN_MARGIN || scan_margin(x0, x1, z0, z1) == (x1 - x0) * SCAN_MARGIN_MULTIPLIER
            || scan_margin(x0, x1, z0, z1) == (z1 - z0) * SCAN_MARGIN_MULTIPLIER,
{
}

/// Exchanging the x and z ranges of the footprint, and the terrain's x and
/// z sizes, exchanges the x and z bounds of the scanned region.
pub proof fn lemma_scan_region_symmetric(
    fp_min_x: int,
    fp_max_x: int,
    fp_min_z: int,
    fp_max_z: int,
    cells_x: int,
    cells_z: int,
)
    ensures
        ({
            let m = scan_margin(fp_min_x, fp_max_x, fp_min_z, fp_max_z);
            let w = scan_margin(fp_min_z, fp_max_z, fp_min_x, fp_max_x);
            &&& max_int(fp_min_x - m, 0) == max_int(fp_min_x - w, 0)
            &&& min_int(fp_max_x + m, cells_x - 1) == min_int(fp_max_x + w, cells_x - 1)
            &&& max_int(fp_min_z - m, 0) == max_int(fp_min_z - w, 0)
            &&& min_int(fp_max_z + m, cells_z - 1) == min_int(fp_max_z + w, cells_z - 1)
        }),
{
    lemma_scan_margin(fp_min_x, fp_max_x, fp_min_z, fp_max_z);
}

/// The region scanned for floating terrain after an edit: the footprint box
/// `fp_min_x..=fp_max_x` by `fp_min_z..=fp_max_z` grown by the scan margin and
/// clipped to the terrain's `0..terrain_cells_x` by `0..terrain_cells_z` cells,
/// over the cell rows `min_y..=max_y`.
pub fn build_scan_region(
    fp_min_x: i32,
    fp_max_x: i32,
    fp_min_z: i32,
    fp_max_z: i32,
    min_y: i32,
    max_y: i32,
    terrain_cells_x: i32,
    terrain_cells_z: i32,
) -> (r: ScanRegion)
    requires
        i32::MIN <= fp_max_x - fp_min_x <= i32::MAX,
        i32::MIN <= fp_max_z - fp_min_z <= i32::MAX,
        footprint_extent(fp_min_x as int, fp_max_x as int, fp_min_z as int, fp_max_z as int)
            * SCAN_MARGIN_MULTIPLIER <= i32::MAX,
        i32::MIN <= fp_min_x - scan_margin(fp_min_x as int, fp_max_x as int, fp_min_z as int, fp_max_z as int),
        fp_max_x + scan_margin(fp_min_x as int, fp_max_x as int, fp_min_z as int, fp_max_z as int) <= i32::MAX,
        i32::MIN <= fp_min_z - scan_margin(fp_min_x as int, fp_max_x as int, fp_min_z as int, fp_max_z as int),
        fp_max_z + scan_margin(fp_min_x as int, fp_max_x as int, fp_min_z as int, fp_max_z as int) <= i32::MAX,
        terrain_cells_x > i32::MIN,
        terrain_cells_z > i32::MIN,
    ensures
        ({
            let m = scan_margin(fp_min_x as int, fp_max_x as int, fp_min_z as int, fp_max_z as int);
            &&& r.min_x == max_int(fp_min_x - m, 0)
            &&& r.max_x == min_int(fp_max_x + m, terrain_cells_x - 1)
            &&& r.min_z == max_int(fp_min_z - m, 0)
            &&& r.max_z == min_int(fp_max_z + m, terrain_cells_z - 1)
            &&& r.min_y == min_y
            &&& r.max_y == max_y
        }),
{
    let dx = fp_max_x - fp_min_x;
    let dz = fp_max_z - fp_min_z;
    let wider = if dx >= dz {
        dx
    } else {
        dz
    };
    let extent = if wider >= 1 {
        wider
    } else {
        1
    };
    let doubled = extent * SCAN_MARGIN_MULTIPLIER;
    let at_least = if doubled >= MIN_SCAN_MARGIN {
        doubled
    } else {
        MIN_SCAN_MARGIN
    };
    let margin = if at_least <= MAX_SCAN_MARGIN {
        at_least
    } else {
        MAX_SCAN_MARGIN
    };
    let lo_x = fp_min_x - margin;
    let hi_x = fp_max_x + margin;
    let lo_z = fp_min_z - margin;
    let hi_z = fp_max_z + margin;
    let last_x = terrain_cells_x - 1;
    let last_z = terrain_cells_z - 1;
    ScanRegion {
        min_x: if lo_x >= 0 {
            lo_x
        } else {
            0
        },
        max_x: if hi_x <= last_x {
            hi_x
        } else {
            last_x
        },
        min_y,
        max_y,
        min_z: if lo_z >= 0 {
            lo_z
        } else {
            0
        },
        max_z: if hi_z <= last_z {
            hi_z
        } else {
            last_z
        },
    }
}

/// The components that gravity moves, in scan order: index and drop distance
/// of each component that holds brush edits and has a non-zero drop.
pub fn select_drops(
    components: &Vec<Vec<Cell>>,
    has_brush_mods: &Vec<bool>,
    solid: &SolidGrid,
    grounded: &SolidGrid,
    region: &ScanRegion,
) -> (drops: Vec<(usize, i32)>)
    requires
        components@.len() == has_brush_mods@.len(),
        solid.wf(),
        grounded.wf(),
        grounded.same_dims(solid),
        solid.size_y <= i32::MAX,
        forall|i: int, j: int|
            0 <= i < components@.len() && 0 <= j < components@[i]@.len() ==> solid.in_bounds(
                #[trigger] components@[i]@[j],
            ),
    ensures
        forall|k: int|
            0 <= k < drops@.len() ==> {
                let (i, d) = #[trigger] drops@[k];
                &&& i < components@.len()
                &&& has_brush_mods@[i as int]
                &&& d == drop_distance(*solid, *grounded, components@[i as int]@)
                &&& d != 0
            },
        forall|k1: int, k2: int| 0 <= k1 < k2 < drops@.len() ==> drops@[k1].0 < drops@[k2].0,
        forall|i: int|
            0 <= i < components@.len() && has_brush_mods@[i] && drop_distance(
                *solid,
                *grounded,
                components@[i]@,
            ) != 0 ==> exists|k: int| 0 <= k < drops@.len() && #[trigger] drops@[k].0 == i,
{
    let mut drops: Vec<(usize, i32)> = Vec::new();
    let n = components.len();
    for i in 0..n
        invariant
            n == components@.len(),
            components@.len() == has_brush_mods@.len(),
            solid.wf(),
            grounded.wf(),
            grounded.same_dims(solid),
            solid.size_y <= i32::MAX,
            forall|a: int, b: int|
                0 <= a < components@.len() && 0 <= b < components@[a]@.len() ==> solid.in_bounds(
                    #[trigger] components@[a]@[b],
                ),
            forall|k: int|
                0 <= k < drops@.len() ==> {
                    let (c, d) = #[trigger] drops@[k];
                    &&& c < i
                    &&& has_brush_mods@[c as int]
                    &&& d == drop_distance(*solid, *grounded, components@[c as int]@)
                    &&& d != 0
                },
            forall|k1: int, k2: int| 0 <= k1 < k2 < drops@.len() ==> drops@[k1].0 < drops@[k2].0,
            forall|c: int|
                0 <= c < i && has_brush_mods@[c] && drop_distance(
                    *solid,
                    *grounded,
                    components@[c]@,
                ) != 0 ==> exists|k: int| 0 <= k < drops@.len() && #[trigger] drops@[k].0 == c,
    {
        if has_brush_mods[i] {
            let d = compute_drop_distance(&components[i], solid, grounded, region);
            if d != 0 {
                let ghost before = drops@;
                drops.push((i, d));
                proof {
                    assert forall|c: int|
                        0 <= c < i + 1 && has_brush_mods@[c] && drop_distance(
                            *solid,
                            *grounded,
                            components@[c]@,
                        ) != 0 implies exists|k: int|
                        0 <= k < drops@.len() && #[trigger] drops@[k].0 == c by {
                        if c < i {
                            let k = choose|k: int| 0 <= k < before.len() && #[trigger] before[k].0 == c;
                            assert(drops@[k] == before[k]);
                        } else {
                            assert(drops@[before.len() as int].0 == c);
                        }
                    }
                }
            }
        }
    }
    drops
}

/// Where a voxel of a component lands when the component drops `drop_distance`
/// rows: the same column, lower by that much, or nowhere when that row lies
/// outside the grid's `0..size_y`.
pub open spec fn landing_cell(c: Cell, drop_distance: int, size_y: int) -> Option<Cell> {
    let ny = c.1 - drop_distance;
    if 0 <= ny < size_y {
        Some((c.0, ny as usize, c.2))
    } else {
        None
    }
}

/// How a component's voxels move when it drops `drop_distance` rows: the
/// destination of each voxel (if it stays in the grid), and for each voxel
/// whether its old position is cleared, which happens unless some voxel of
/// the component lands there.
pub fn plan_component_drop(component: &Vec<Cell>, drop_distance: i32, grid: &SolidGrid) -> (plan: (
    Vec<Option<Cell>>,
    Vec<bool>,
))
    requires
        grid.wf(),
        grid.size_y <= i32::MAX,
        forall|i: int| 0 <= i < component@.len() ==> grid.in_bounds(#[trigger] component@[i]),
        forall|i: int|
            0 <= i < component@.len() ==> i32::MIN <= #[trigger] component@[i].1 - drop_distance
                <= i32::MAX,
    ensures
        plan.0@.len() == component@.len(),
        plan.1@.len() == component@.len(),
        forall|i: int|
            0 <= i < component@.len() ==> #[trigger] plan.0@[i] == landing_cell(
                component@[i],
                drop_distance as int,
                grid.size_y as int,
            ),
        forall|i: int|
            0 <= i < component@.len() ==> #[trigger] plan.1@[i] == !(exists|j: int|
                0 <= j < component@.len() && #[trigger] landing_cell(
                    component@[j],
                    drop_distance as int,
                    grid.size_y as int,
                ) == Some(component@[i])),
{
    let n = component.len();
    let sy = grid.size_y;
    let ghost comp = component@;
    let ghost d = drop_distance as int;
    let mut marks = SolidGrid {
        data: vec![false; grid.data.len()],
        size_x: grid.size_x,
        size_y: grid.size_y,
        size_z: grid.size_z,
    };
    proof {
        assert forall|c: Cell| marks.in_bounds(c) implies !#[trigger] marks.at(c) by {
            lemma_flat_bounds(c, marks.size_x as nat, marks.size_y as nat, marks.size_z as nat);
        }
    }
    let mut dest: Vec<Option<Cell>> = Vec::new();
    for i in 0..n
        invariant
            n == comp.len(),
            comp == component@,
            d == drop_distance,
            sy == grid.size_y,
            grid.wf(),
            grid.size_y <= i32::MAX,
            marks.wf(),
            marks.same_dims(grid),
            forall|k: int| 0 <= k < comp.len() ==> grid.in_bounds(#[trigger] comp[k]),
            forall|k: int| 0 <= k < comp.len() ==> i32::MIN <= #[trigger] comp[k].1 - d <= i32::MAX,
            dest@.len() == i,
            forall|k: int|
                0 <= k < i ==> #[trigger] dest@[k] == landing_cell(comp[k], d, sy as int),
            forall|c: Cell|
                marks.in_bounds(c) ==> (#[trigger] marks.at(c) <==> exists|j: int|
                    0 <= j < i && #[trigger] landing_cell(comp[j], d, sy as int) == Some(c)),
    {
        let (x, y, z) = component[i];
        let ny: i32 = y as i32 - drop_distance;
        if 0 <= ny && (ny as usize) < sy {
            let cell: Cell = (x, ny as usize, z);
            assert(landing_cell(comp[i as int], d, sy as int) == Some(cell));
            marks.set(x, ny as usize, z, true);
            dest.push(Some(cell));
            proof {
                assert forall|c: Cell| marks.in_bounds(c) implies (#[trigger] marks.at(c) <==> exists|j: int|
                    0 <= j < i + 1 && #[trigger] landing_cell(comp[j], d, sy as int) == Some(c)) by {
                    if c != cell {
                        if exists|j: int|
                            0 <= j < i + 1 && #[trigger] landing_cell(comp[j], d, sy as int) == Some(c) {
                            let j = choose|j: int|
                                0 <= j < i + 1 && #[trigger] landing_cell(comp[j], d, sy as int) == Some(c);
                            assert(j < i);
                        }
                    }
                }
            }
        } else {
            assert(landing_cell(comp[i as int], d, sy as int) is None);
            dest.push(None);
            proof {
                assert forall|c: Cell| marks.in_bounds(c) implies (#[trigger] marks.at(c) <==> exists|j: int|
                    0 <= j < i + 1 && #[trigger] landing_cell(comp[j], d, sy as int) == Some(c)) by {
                    if exists|j: int|
                        0 <= j < i + 1 && #[trigger] landing_cell(comp[j], d, sy as int) == Some(c) {
                        let j = choose|j: int|
                            0 <= j < i + 1 && #[trigger] landing_cell(comp[j], d, sy as int) == Some(c);
                        assert(j < i);
                    }
                }
            }
        }
    }
    let mut erase: Vec<bool> = Vec::new();
    for i in 0..n
        invariant
            n == comp.len(),
            comp == component@,
            d == drop_distance,
            sy == grid.size_y,
            marks.wf(),
            marks.same_dims(grid),
            forall|k: int| 0 <= k < comp.len() ==> grid.in_bounds(#[trigger] comp[k]),
            forall|c: Cell|
                marks.in_bounds(c) ==> (#[trigger] marks.at(c) <==> exists|j: int|
                    0 <= j < n && #[trigger] landing_cell(comp[j], d, sy as int) == Some(c)),
            erase@.len() == i,
            forall|k: int|
                0 <= k < i ==> #[trigger] erase@[k] == !(exists|j: int|
                    0 <= j < n && #[trigger] landing_cell(comp[j], d, sy as int) == Some(comp[k])),
    {
        let (x, y, z) = component[i];
        assert(grid.in_bounds(comp[i as int]));
        let hit = marks.get(x, y, z);
        erase.push(!hit);
    }
    (dest, erase)
}

/// Result of applying gravity to a terrain region.
pub struct StabilityResult {
    pub affected_chunks: Vec<ChunkCoord>,
    pub components_found: usize,
    pub components_dropped: usize,
}

} // verus!
