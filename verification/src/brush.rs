//! Brush modes and stroke phases, and the set of XZ cells a brush stroke covers.
use std::collections::HashSet;
use vstd::prelude::*;
use vstd::std_specs::iter::IteratorSpec;

use crate::voxel_grid::ChunkCoord;

verus! {

/// Brush operating mode.
#[derive(Clone, Copy, Debug, PartialEq, Eq, Structural)]
pub enum BrushMode {
    /// Paint an area, then set its height.
    Elevation,
    /// Paint textures onto the surface.
    Texture,
    /// Paint an area, then flatten it to the click height on release.
    Flatten,
    /// Paint an area, then snap each cell to the nearest step on release.
    Plateau,
    /// Laplacian smoothing of the SDF field.
    Smooth,
}

impl Default for BrushMode {
    fn default() -> (m: Self)
        ensures
            m == BrushMode::Elevation,
    {
        BrushMode::Elevation
    }
}

/// Direction constraint for flatten and plateau operations.
#[derive(Clone, Copy, Debug, PartialEq, Eq, Structural)]
pub enum FlattenDirection {
    /// Flatten both above and below the target plane.
    Both,
    /// Only remove material above the target plane.
    Up,
    /// Only add material below the target plane.
    Down,
}

impl Default for FlattenDirection {
    fn default() -> (d: Self)
        ensures
            d == FlattenDirection::Both,
    {
        FlattenDirection::Both
    }
}

/// Shape of the brush footprint.
#[derive(Clone, Copy, Debug, PartialEq, Eq, Structural)]
pub enum BrushShape {
    Square,
    Round,
}

impl Default for BrushShape {
    fn default() -> (s: Self)
        ensures
            s == BrushShape::Square,
    {
        BrushShape::Square
    }
}

/// Current phase of a brush operation.
#[derive(Clone, Copy, Debug, PartialEq, Eq, Structural)]
pub enum BrushPhase {
    /// No operation in progress.
    Idle,
    /// Elevation mode: painting the area.
    PaintingArea,
    /// Elevation mode: adjusting the height of the painted area.
    AdjustingHeight,
    /// Painting in the other modes.
    Painting,
    /// Elevation mode: adjusting curvature after the height is set.
    AdjustingCurvature,
}

impl Default for BrushPhase {
    fn default() -> (p: Self)
        ensures
            p == BrushPhase::Idle,
    {
        BrushPhase::Idle
    }
}

/// What the caller has to do after a stroke phase ends.
#[derive(Clone, Copy, Debug, PartialEq, Eq, Structural)]
pub enum BrushAction {
    NoAction,
    BeginHeightAdjust,
    CommitGeometry,
    CommitTexture,
    CommitFlatten,
    CommitPlateau,
    CommitSmooth,
    BeginCurvatureAdjust,
}

/// The phase a stroke starts in.
pub open spec fn spec_begin_phase(mode: BrushMode) -> BrushPhase {
    match mode {
        BrushMode::Elevation => BrushPhase::PaintingArea,
        _ => BrushPhase::Painting,
    }
}

/// The commit that ends a painting phase in each mode.
pub open spec fn spec_commit_action(mode: BrushMode) -> BrushAction {
    match mode {
        BrushMode::Texture => BrushAction::CommitTexture,
        BrushMode::Flatten => BrushAction::CommitFlatten,
        BrushMode::Plateau => BrushAction::CommitPlateau,
        BrushMode::Smooth => BrushAction::CommitSmooth,
        BrushMode::Elevation => BrushAction::CommitTexture,
    }
}

/// Next phase and action when the current phase ends.
pub open spec fn spec_end_stroke(phase: BrushPhase, mode: BrushMode) -> (BrushPhase, BrushAction) {
    match phase {
        BrushPhase::PaintingArea => (BrushPhase::AdjustingHeight, BrushAction::BeginHeightAdjust),
        BrushPhase::AdjustingHeight => (
            BrushPhase::AdjustingCurvature,
            BrushAction::BeginCurvatureAdjust,
        ),
        BrushPhase::AdjustingCurvature => (BrushPhase::Idle, BrushAction::CommitGeometry),
        BrushPhase::Painting => (BrushPhase::Idle, spec_commit_action(mode)),
        BrushPhase::Idle => (BrushPhase::Idle, BrushAction::NoAction),
    }
}

/// Phase entered when a stroke begins in `mode`.
pub fn begin_phase(mode: BrushMode) -> (p: BrushPhase)
    ensures
        p == spec_begin_phase(mode),
{
    match mode {
        BrushMode::Elevation => BrushPhase::PaintingArea,
        BrushMode::Texture | BrushMode::Flatten | BrushMode::Plateau | BrushMode::Smooth => {
            BrushPhase::Painting
        },
    }
}

/// Ends the current stroke phase: the next phase and the action to perform.
pub fn end_stroke_transition(phase: BrushPhase, mode: BrushMode) -> (r: (BrushPhase, BrushAction))
    ensures
        r == spec_end_stroke(phase, mode),
{
    match phase {
        BrushPhase::PaintingArea => (BrushPhase::AdjustingHeight, BrushAction::BeginHeightAdjust),
        BrushPhase::AdjustingHeight => (
            BrushPhase::AdjustingCurvature,
            BrushAction::BeginCurvatureAdjust,
        ),
        BrushPhase::AdjustingCurvature => (BrushPhase::Idle, BrushAction::CommitGeometry),
        BrushPhase::Painting => {
            let a = match mode {
                BrushMode::Texture => BrushAction::CommitTexture,
                BrushMode::Flatten => BrushAction::CommitFlatten,
                BrushMode::Plateau => BrushAction::CommitPlateau,
                BrushMode::Smooth => BrushAction::CommitSmooth,
                _ => BrushAction::CommitTexture,
            };
            (BrushPhase::Idle, a)
        },
        BrushPhase::Idle => (BrushPhase::Idle, BrushAction::NoAction),
    }
}

/// A brush is active in every phase but `Idle`.
pub fn is_active_phase(phase: BrushPhase) -> (b: bool)
    ensures
        b == (phase != BrushPhase::Idle),
{
    phase != BrushPhase::Idle
}

/// An elevation stroke goes through painting, height adjustment and curvature
/// adjustment, and its third release commits the geometry.
pub proof fn lemma_elevation_workflow()
    ensures
        spec_begin_phase(BrushMode::Elevation) == BrushPhase::PaintingArea,
        spec_end_stroke(BrushPhase::PaintingArea, BrushMode::Elevation) == (
            BrushPhase::AdjustingHeight,
            BrushAction::BeginHeightAdjust,
        ),
        spec_end_stroke(BrushPhase::AdjustingHeight, BrushMode::Elevation) == (
            BrushPhase::AdjustingCurvature,
            BrushAction::BeginCurvatureAdjust,
        ),
        spec_end_stroke(BrushPhase::AdjustingCurvature, BrushMode::Elevation) == (
            BrushPhase::Idle,
            BrushAction::CommitGeometry,
        ),
{
}

/// In every mode but elevation, one release after beginning a stroke returns
/// to `Idle` with that mode's commit action.
pub proof fn lemma_single_phase_modes(mode: BrushMode)
    requires
        mode != BrushMode::Elevation,
    ensures
        spec_end_stroke(spec_begin_phase(mode), mode) == (BrushPhase::Idle, spec_commit_action(mode)),
        spec_commit_action(mode) != BrushAction::NoAction,
{
}

/// Ending a stroke while idle does nothing.
pub proof fn lemma_idle_end_is_noop(mode: BrushMode)
    ensures
        spec_end_stroke(BrushPhase::Idle, mode) == (BrushPhase::Idle, BrushAction::NoAction),
{
}

/// Every stroke returns to `Idle` after at most three releases.
pub proof fn lemma_stroke_terminates(mode: BrushMode)
    ensures
        ({
            let p1 = spec_end_stroke(spec_begin_phase(mode), mode).0;
            let p2 = spec_end_stroke(p1, mode).0;
            let p3 = spec_end_stroke(p2, mode).0;
            p3 == BrushPhase::Idle
        }),
{
}

/// A 2D cell position on the terrain (XZ plane).
#[derive(Clone, Copy, Debug, PartialEq, Eq, Hash, Structural)]
pub struct CellXZ {
    pub x: i32,
    pub z: i32,
}

impl CellXZ {
    pub fn new(x: i32, z: i32) -> (c: Self)
        ensures
            c.x == x && c.z == z,
    {
        CellXZ { x, z }
    }
}

/// The integer a cell is stored under: its offset coordinates as two base-2^32 digits.
pub open spec fn cell_key(c: CellXZ) -> u64 {
    ((c.x + 0x8000_0000) * 0x1_0000_0000 + (c.z + 0x8000_0000)) as u64
}

/// The cell a stored integer stands for.
pub open spec fn key_cell(k: u64) -> CellXZ {
    CellXZ {
        x: (k as int / 0x1_0000_0000 - 0x8000_0000) as i32,
        z: (k as int % 0x1_0000_0000 - 0x8000_0000) as i32,
    }
}

proof fn lemma_cell_key_roundtrip(c: CellXZ)
    ensures
        key_cell(cell_key(c)) == c,
{
    let a = c.x + 0x8000_0000;
    let b = c.z + 0x8000_0000;
    vstd::arithmetic::div_mod::lemma_fundamental_div_mod_converse(
        a * 0x1_0000_0000 + b,
        0x1_0000_0000,
        a,
        b,
    );
}

proof fn lemma_key_cell_roundtrip(k: u64)
    ensures
        cell_key(key_cell(k)) == k,
{
    vstd::arithmetic::div_mod::lemma_fundamental_div_mod(k as int, 0x1_0000_0000);
}

fn cell_key_of(c: CellXZ) -> (k: u64)
    ensures
        k == cell_key(c),
{
    let a = (c.x as i64 + 0x8000_0000) as u64;
    let b = (c.z as i64 + 0x8000_0000) as u64;
    a * 0x1_0000_0000 + b
}

fn cell_of_key(k: u64) -> (c: CellXZ)
    ensures
        c == key_cell(k),
{
    let x = (k / 0x1_0000_0000) as i64 - 0x8000_0000;
    let z = (k % 0x1_0000_0000) as i64 - 0x8000_0000;
    CellXZ { x: x as i32, z: z as i32 }
}

/// `min_x..=max_x` and `min_z..=max_z` are the exact extents of `s`: every
/// cell lies within them and each of the four values is attained.
pub open spec fn exact_bounds(s: Set<CellXZ>, min_x: i32, max_x: i32, min_z: i32, max_z: i32) -> bool {
    &&& forall|c: CellXZ| #[trigger]
        s.contains(c) ==> min_x <= c.x <= max_x && min_z <= c.z <= max_z
    &&& exists|c: CellXZ| #[trigger] s.contains(c) && c.x == min_x
    &&& exists|c: CellXZ| #[trigger] s.contains(c) && c.x == max_x
    &&& exists|c: CellXZ| #[trigger] s.contains(c) && c.z == min_z
    &&& exists|c: CellXZ| #[trigger] s.contains(c) && c.z == max_z
}

/// The chunk column holding a cell, for chunks `chunk_cells` cells wide
/// (Euclidean division, so negative cells fall in negative chunks).
pub open spec fn column_of(c: CellXZ, chunk_cells: int) -> (int, int) {
    (c.x as int / chunk_cells, c.z as int / chunk_cells)
}

/// The chunks touched by `cells` over chunk layers `min_chunk_y - 1 ..= max_chunk_y + 1`.
pub open spec fn affected_chunk_set(
    cells: Set<CellXZ>,
    chunk_cells: int,
    min_chunk_y: int,
    max_chunk_y: int,
) -> Set<ChunkCoord> {
    Set::new(
        |ch: ChunkCoord|
            {
                &&& exists|c: CellXZ| #[trigger]
                    cells.contains(c) && column_of(c, chunk_cells) == (ch.x as int, ch.z as int)
                &&& min_chunk_y - 1 <= ch.y <= max_chunk_y + 1
            },
    )
}

proof fn lemma_quotient_fits(v: int, c: int)
    requires
        c != 0,
        !(c == -1 && v == i32::MIN),
        i32::MIN <= v <= i32::MAX,
        i32::MIN <= c <= i32::MAX,
    ensures
        i32::MIN <= v / c <= i32::MAX,
{
    let q = v / c;
    let r = v % c;
    vstd::arithmetic::div_mod::lemma_fundamental_div_mod(v, c);
    if c > 0 {
        assert(i32::MIN <= q <= i32::MAX) by (nonlinear_arith)
            requires
                v == c * q + r,
                0 <= r < c,
                i32::MIN <= v <= i32::MAX,
        ;
    } else if c == -1 {
        assert(r == 0);
    } else {
        assert(i32::MIN <= q <= i32::MAX) by (nonlinear_arith)
            requires
                v == c * q + r,
                0 <= r < -c,
                c <= -2,
                i32::MIN <= v <= i32::MAX,
                i32::MIN <= c,
        ;
    }
}

/// Euclidean quotient of a cell coordinate by the chunk width.
fn chunk_index(v: i32, chunk_cells: i32) -> (q: i32)
    requires
        chunk_cells != 0,
        !(chunk_cells == -1 && v == i32::MIN),
    ensures
        q == v as int / chunk_cells as int,
{
    proof {
        lemma_quotient_fits(v as int, chunk_cells as int);
    }
    match v.checked_div_euclid(chunk_cells) {
        Some(q) => q,
        None => 0,
    }
}

/// A cell lies on the terrain when `0 <= x < max_cell_x` and `0 <= z < max_cell_z`.
pub open spec fn in_terrain(c: CellXZ, max_cell_x: int, max_cell_z: int) -> bool {
    0 <= c.x < max_cell_x && 0 <= c.z < max_cell_z
}

/// The terrain cells of the square stamp of half-width `radius` around
/// `(center_x, center_z)` that come before row offset `dz`, column offset `dx`
/// in row-major order.
pub open spec fn square_prefix(
    center_x: int,
    center_z: int,
    radius: int,
    max_cell_x: int,
    max_cell_z: int,
    dz: int,
    dx: int,
) -> Set<CellXZ> {
    Set::new(
        |c: CellXZ|
            {
                &&& in_terrain(c, max_cell_x, max_cell_z)
                &&& -radius <= c.x - center_x <= radius
                &&& -radius <= c.z - center_z
                &&& (c.z - center_z < dz || (c.z - center_z == dz && c.x - center_x < dx))
            },
    )
}

/// The terrain cells of the square stamp of half-width `radius` cells around
/// `(center_x, center_z)`.
pub open spec fn square_stamp(
    center_x: int,
    center_z: int,
    radius: int,
    max_cell_x: int,
    max_cell_z: int,
) -> Set<CellXZ> {
    Set::new(
        |c: CellXZ|
            {
                &&& in_terrain(c, max_cell_x, max_cell_z)
                &&& -radius <= c.x - center_x <= radius
                &&& -radius <= c.z - center_z <= radius
            },
    )
}

/// The cells of a brush footprint, with their bounding box kept up to date.
#[derive(Debug)]
pub struct BrushFootprint {
    cells: HashSet<u64>,
    min_x: i32,
    max_x: i32,
    min_z: i32,
    max_z: i32,
}

impl View for BrushFootprint {
    type V = Set<CellXZ>;

    /// The cells of the footprint.
    closed spec fn view(&self) -> Set<CellXZ> {
        Set::new(|c: CellXZ| self.cells@.contains(cell_key(c)))
    }
}

impl Clone for BrushFootprint {
    /// A footprint with the same cells (and so the same bounds).
    fn clone(&self) -> (r: Self)
        ensures
            r@ == self@,
    {
        let cells = self.iter();
        let mut r = BrushFootprint::new();
        let n = cells.len();
        for i in 0..n
            invariant
                n == cells@.len(),
                r@ == cells@.take(i as int).to_set(),
        {
            let ghost before = r@;
            r.add_cell(cells[i]);
            proof {
                assert(cells@.take(i + 1) =~= cells@.take(i as int).push(cells@[i as int]));
                assert forall|c: CellXZ| r@.contains(c) <==> cells@.take(i + 1).to_set().contains(c) by {
                    if c == cells@[i as int] {
                        assert(cells@.take(i + 1)[i as int] == c);
                    }
                    if cells@.take(i + 1).contains(c) && c != cells@[i as int] {
                        let k = choose|k: int| 0 <= k < i + 1 && #[trigger] cells@.take(i + 1)[k] == c;
                        assert(cells@.take(i as int)[k] == c);
                    }
                    if cells@.take(i as int).contains(c) {
                        let k = choose|k: int| 0 <= k < i && #[trigger] cells@.take(i as int)[k] == c;
                        assert(cells@.take(i + 1)[k] == c);
                    }
                }
                assert(r@ =~= cells@.take(i + 1).to_set());
            }
        }
        assert(cells@.take(n as int) =~= cells@);
        r
    }
}

impl BrushFootprint {
    /// The bounds are the sentinels `(i32::MAX, i32::MIN)` while the footprint
    /// is empty, and the exact extents of its cells otherwise.
    #[verifier::type_invariant]
    spec fn bounds_track_cells(self) -> bool {
        &&& self.cells@.finite()
        &&& self.cells@.len() == 0 ==> self.min_x == i32::MAX && self.max_x == i32::MIN
            && self.min_z == i32::MAX && self.max_z == i32::MIN
        &&& self.cells@.len() > 0 ==> exact_bounds(
            self@,
            self.min_x,
            self.max_x,
            self.min_z,
            self.max_z,
        )
    }

    proof fn lemma_view_len(&self)
        requires
            self.cells@.finite(),
        ensures
            self@.finite(),
            self@.len() == self.cells@.len(),
            self@ == self.cells@.map(|k: u64| key_cell(k)),
    {
        let f = |k: u64| key_cell(k);
        let d = self.cells@;
        assert forall|c: CellXZ| #[trigger] self@.contains(c) implies d.map(f).contains(c) by {
            lemma_cell_key_roundtrip(c);
            assert(f(cell_key(c)) == c);
        }
        assert forall|c: CellXZ| #[trigger] d.map(f).contains(c) implies self@.contains(c) by {
            let k = choose|k: u64| d.contains(k) && f(k) == c;
            lemma_key_cell_roundtrip(k);
        }
        assert(self@ =~= d.map(f));
        assert forall|k1: u64, k2: u64|
            d.contains(k1) && d.contains(k2) && #[trigger] f(k1) == #[trigger] f(k2) implies k1
            == k2 by {
            lemma_key_cell_roundtrip(k1);
            lemma_key_cell_roundtrip(k2);
        }
        vstd::set_lib::lemma_map_size(d, self@, f);
    }

    pub fn new() -> (f: Self)
        ensures
            f@ == Set::<CellXZ>::empty(),
    {
        let f = BrushFootprint {
            cells: HashSet::new(),
            min_x: i32::MAX,
            max_x: i32::MIN,
            min_z: i32::MAX,
            max_z: i32::MIN,
        };
        assert(f@ =~= Set::<CellXZ>::empty());
        f
    }

    /// Adds a cell and widens the bounds to include it.
    pub fn add_cell(&mut self, cell: CellXZ)
        ensures
            final(self)@ == old(self)@.insert(cell),
    {
        broadcast use vstd::std_specs::hash::group_hash_axioms;

        proof {
            use_type_invariant(&*self);
            self.lemma_view_len();
        }
        let k = cell_key_of(cell);
        let mut taken = BrushFootprint::new();
        std::mem::swap(&mut taken, self);
        let BrushFootprint { mut cells, min_x, max_x, min_z, max_z } = taken;
        let ghost old_cells = cells@;
        let _ = cells.insert(k);
        let nx0 = if cell.x < min_x { cell.x } else { min_x };
        let nx1 = if cell.x > max_x { cell.x } else { max_x };
        let nz0 = if cell.z < min_z { cell.z } else { min_z };
        let nz1 = if cell.z > max_z { cell.z } else { max_z };
        let ghost old_view = old(self)@;
        let ghost old_empty = old_cells.len() == 0;
        proof {
            assert forall|c: CellXZ| true implies (cell_key(c) == k <==> c == cell) by {
                lemma_cell_key_roundtrip(c);
                lemma_cell_key_roundtrip(cell);
            }
            let nv = Set::new(|c: CellXZ| cells@.contains(cell_key(c)));
            assert(nv =~= old_view.insert(cell));
            assert(cells@.len() > 0);
            if old_empty {
                assert(old_view =~= Set::<CellXZ>::empty()) by {
                    assert forall|c: CellXZ| !old_view.contains(c) by {
                        if old_view.contains(c) {
                            assert(old_cells.contains(cell_key(c)));
                        }
                    }
                }
                assert(nv.contains(cell));
                assert(exact_bounds(nv, nx0, nx1, nz0, nz1));
            } else {
                let w0 = choose|c: CellXZ| #[trigger] old_view.contains(c) && c.x == min_x;
                let w1 = choose|c: CellXZ| #[trigger] old_view.contains(c) && c.x == max_x;
                let w2 = choose|c: CellXZ| #[trigger] old_view.contains(c) && c.z == min_z;
                let w3 = choose|c: CellXZ| #[trigger] old_view.contains(c) && c.z == max_z;
                assert(nv.contains(w0) && nv.contains(w1) && nv.contains(w2) && nv.contains(w3));
                assert(nv.contains(cell));
                assert(exact_bounds(nv, nx0, nx1, nz0, nz1));
            }
        }
        *self = BrushFootprint { cells, min_x: nx0, max_x: nx1, min_z: nz0, max_z: nz1 };
    }

    pub fn contains(&self, cell: &CellXZ) -> (b: bool)
        ensures
            b == self@.contains(*cell),
    {
        broadcast use vstd::std_specs::hash::group_hash_axioms;

        let k = cell_key_of(*cell);
        self.cells.contains(&k)
    }

    pub fn len(&self) -> (n: usize)
        ensures
            n == self@.len(),
    {
        broadcast use vstd::std_specs::hash::group_hash_axioms;

        proof {
            use_type_invariant(self);
            self.lemma_view_len();
        }
        self.cells.len()
    }

    pub fn is_empty(&self) -> (b: bool)
        ensures
            b == (self@.len() == 0),
    {
        broadcast use vstd::std_specs::hash::group_hash_axioms;

        proof {
            use_type_invariant(self);
            self.lemma_view_len();
        }
        self.cells.len() == 0
    }

    /// Removes every cell and resets the bounds to their sentinels.
    pub fn clear(&mut self)
        ensures
            final(self)@ == Set::<CellXZ>::empty(),
    {
        broadcast use vstd::std_specs::hash::group_hash_axioms;

        *self = BrushFootprint::new();
    }

    /// Adds `cell` if it lies on the terrain; says whether it did.
    pub fn add_cell_in_bounds(&mut self, cell: CellXZ, max_cell_x: i32, max_cell_z: i32) -> (added:
        bool)
        ensures
            added == in_terrain(cell, max_cell_x as int, max_cell_z as int),
            final(self)@ == if added {
                old(self)@.insert(cell)
            } else {
                old(self)@
            },
    {
        if cell.x < 0 || cell.x >= max_cell_x || cell.z < 0 || cell.z >= max_cell_z {
            false
        } else {
            self.add_cell(cell);
            true
        }
    }

    /// Stamps a square brush: adds every terrain cell within `radius_cells`
    /// of the center cell along both axes.
    pub fn add_square_cells(
        &mut self,
        center_x: i32,
        center_z: i32,
        radius_cells: i32,
        max_cell_x: i32,
        max_cell_z: i32,
    )
        requires
            radius_cells >= 0 ==> i32::MIN <= center_x - radius_cells && center_x + radius_cells
                <= i32::MAX && i32::MIN <= center_z - radius_cells && center_z + radius_cells
                <= i32::MAX,
        ensures
            final(self)@ == old(self)@.union(
                square_stamp(
                    center_x as int,
                    center_z as int,
                    radius_cells as int,
                    max_cell_x as int,
                    max_cell_z as int,
                ),
            ),
    {
        let ghost cx = center_x as int;
        let ghost cz = center_z as int;
        let ghost r = radius_cells as int;
        let ghost mx = max_cell_x as int;
        let ghost mz = max_cell_z as int;
        if radius_cells < 0 {
            assert(square_stamp(cx, cz, r, mx, mz) =~= Set::<CellXZ>::empty());
            assert(self@ =~= old(self)@.union(square_stamp(cx, cz, r, mx, mz)));
            return ;
        }
        let r64 = radius_cells as i64;
        let mut dz: i64 = -r64;
        assert(square_prefix(cx, cz, r, mx, mz, -r, -r) =~= Set::<CellXZ>::empty());
        assert(self@ =~= old(self)@.union(square_prefix(cx, cz, r, mx, mz, -r, -r)));
        while dz <= r64
            invariant
                r == r64,
                r64 >= 0,
                -r <= dz <= r + 1,
                cx == center_x,
                cz == center_z,
                mx == max_cell_x,
                mz == max_cell_z,
                i32::MIN <= center_x - r64 && center_x + r64 <= i32::MAX,
                i32::MIN <= center_z - r64 && center_z + r64 <= i32::MAX,
                self@ == old(self)@.union(square_prefix(cx, cz, r, mx, mz, dz as int, -r)),
            decreases r64 + 1 - dz,
        {
            let mut dx: i64 = -r64;
            while dx <= r64
                invariant
                    r == r64,
                    r64 >= 0,
                    -r <= dz <= r,
                    -r <= dx <= r + 1,
                    cx == center_x,
                    cz == center_z,
                    mx == max_cell_x,
                    mz == max_cell_z,
                    i32::MIN <= center_x - r64 && center_x + r64 <= i32::MAX,
                    i32::MIN <= center_z - r64 && center_z + r64 <= i32::MAX,
                    self@ == old(self)@.union(square_prefix(cx, cz, r, mx, mz, dz as int, dx as int)),
                decreases r64 + 1 - dx,
            {
                let c = CellXZ { x: (center_x as i64 + dx) as i32, z: (center_z as i64 + dz) as i32 };
                let ghost before = self@;
                let _ = self.add_cell_in_bounds(c, max_cell_x, max_cell_z);
                proof {
                    let next = square_prefix(cx, cz, r, mx, mz, dz as int, dx + 1);
                    let prev = square_prefix(cx, cz, r, mx, mz, dz as int, dx as int);
                    if in_terrain(c, mx, mz) {
                        assert(next =~= prev.insert(c));
                    } else {
                        assert(next =~= prev);
                    }
                    assert(self@ =~= old(self)@.union(next));
                }
                dx = dx + 1;
            }
            assert(square_prefix(cx, cz, r, mx, mz, dz as int, r + 1) =~= square_prefix(
                cx,
                cz,
                r,
                mx,
                mz,
                dz + 1,
                -r,
            ));
            dz = dz + 1;
        }
        assert(square_prefix(cx, cz, r, mx, mz, r + 1, -r) =~= square_stamp(cx, cz, r, mx, mz));
    }

    /// The cells of the footprint, each once, in no particular order.
    pub fn iter(&self) -> (v: Vec<CellXZ>)
        ensures
            v@.no_duplicates(),
            v@.to_set() == self@,
            v@.len() == self@.len(),
    {
        broadcast use vstd::std_specs::hash::group_hash_axioms;

        proof {
            use_type_invariant(self);
            self.lemma_view_len();
        }
        let mut v: Vec<CellXZ> = Vec::new();
        let ghost sq = vstd::std_specs::hash::spec_hash_keys_iter(&self.cells).remaining().unref();
        for k in it: self.cells.iter()
            invariant
                it.seq().unref() == sq,
                v@.len() == it.index(),
                forall|i: int| 0 <= i < v@.len() ==> v@[i] == key_cell(#[trigger] sq[i]),
        {
            let c = cell_of_key(*k);
            v.push(c);
        }
        proof {
            assert(sq.to_set() == self.cells@);
            assert(sq.no_duplicates());
            assert(v@ =~= sq.map_values(|k: u64| key_cell(k)));
            assert forall|i: int, j: int| 0 <= i < v@.len() && 0 <= j < v@.len() && i != j implies v@[i]
                != v@[j] by {
                lemma_key_cell_roundtrip(sq[i]);
                lemma_key_cell_roundtrip(sq[j]);
            }
            assert forall|c: CellXZ| v@.to_set().contains(c) <==> self@.contains(c) by {
                if v@.to_set().contains(c) {
                    let i = choose|i: int| 0 <= i < v@.len() && v@[i] == c;
                    assert(sq.to_set().contains(sq[i]));
                    lemma_key_cell_roundtrip(sq[i]);
                }
                if self@.contains(c) {
                    let k = cell_key(c);
                    assert(sq.to_set().contains(k));
                    let i = choose|i: int| 0 <= i < sq.len() && sq[i] == k;
                    lemma_cell_key_roundtrip(c);
                    assert(v@[i] == c);
                }
            }
            assert(v@.to_set() =~= self@);
            v@.lemma_no_dup_set_cardinality();
        }
        v
    }

    /// The chunks covering every footprint cell over chunk layers
    /// `min_chunk_y - 1 ..= max_chunk_y + 1`, each once, in no particular order.
    pub fn affected_chunks_for_y_range(
        &self,
        chunk_cells: i32,
        min_chunk_y: i32,
        max_chunk_y: i32,
    ) -> (v: Vec<ChunkCoord>)
        requires
            chunk_cells != 0,
            chunk_cells == -1 ==> forall|c: CellXZ| #[trigger]
                self@.contains(c) ==> c.x != i32::MIN && c.z != i32::MIN,
            min_chunk_y > i32::MIN,
            max_chunk_y < i32::MAX,
        ensures
            v@.no_duplicates(),
            v@.to_set() == affected_chunk_set(self@, chunk_cells as int, min_chunk_y as int, max_chunk_y as int),
    {
        broadcast use vstd::std_specs::hash::group_hash_axioms;

        let cells = self.iter();
        let ghost cs = cells@;
        let ghost cc = chunk_cells as int;
        let ghost lo = min_chunk_y as int - 1;
        let ghost hi = max_chunk_y as int + 1;
        let mut seen: HashSet<u64> = HashSet::new();
        let mut out: Vec<ChunkCoord> = Vec::new();
        let n = cells.len();
        for i in 0..n
            invariant
                n == cs.len(),
                cells@ == cs,
                cs.to_set() == self@,
                chunk_cells != 0,
                chunk_cells == -1 ==> forall|c: CellXZ| #[trigger]
                    self@.contains(c) ==> c.x != i32::MIN && c.z != i32::MIN,
                lo == min_chunk_y - 1,
                hi == max_chunk_y + 1,
                cc == chunk_cells,
                min_chunk_y > i32::MIN,
                max_chunk_y < i32::MAX,
                forall|k: u64| #[trigger] seen@.contains(k) <==> exists|j: int|
                    0 <= j < i && k == cell_key(
                        CellXZ {
                            x: column_of(#[trigger] cs[j], cc).0 as i32,
                            z: column_of(cs[j], cc).1 as i32,
                        },
                    ),
                out@.no_duplicates(),
                forall|ch: ChunkCoord| #[trigger] out@.contains(ch) <==> (exists|j: int|
                    0 <= j < i && column_of(#[trigger] cs[j], cc) == (ch.x as int, ch.z as int))
                    && lo <= ch.y <= hi,
        {
            let c = cells[i];
            proof {
                assert(cs.to_set().contains(cs[i as int]));
                assert(self@.contains(c));
            }
            let cx = chunk_index(c.x, chunk_cells);
            let cz = chunk_index(c.z, chunk_cells);
            let col = CellXZ { x: cx, z: cz };
            let k = cell_key_of(col);
            let ghost prev_out = out@;
            let already = seen.contains(&k);
            if !already {
                let _ = seen.insert(k);
                proof {
                    assert forall|ch: ChunkCoord| prev_out.contains(ch) implies !(ch.x == cx && ch.z
                        == cz) by {
                        if ch.x == cx && ch.z == cz {
                            let j = choose|j: int|
                                0 <= j < i && column_of(#[trigger] cs[j], cc) == (
                                    ch.x as int,
                                    ch.z as int,
                                );
                            assert(seen@.contains(k)) by {
                                assert(k == cell_key(
                                    CellXZ {
                                        x: column_of(cs[j], cc).0 as i32,
                                        z: column_of(cs[j], cc).1 as i32,
                                    },
                                ));
                            }
                        }
                    }
                }
                let mut y: i64 = min_chunk_y as i64 - 1;
                let top: i64 = max_chunk_y as i64 + 1;
                while y <= top
                    invariant
                        lo <= y <= if top + 1 > lo { top + 1 } else { lo },
                        top == hi,
                        i32::MIN <= lo,
                        hi <= i32::MAX,
                        out@.no_duplicates(),
                        forall|ch: ChunkCoord| prev_out.contains(ch) ==> !(ch.x == cx && ch.z == cz),
                        forall|ch: ChunkCoord| #[trigger] out@.contains(ch) <==> prev_out.contains(ch)
                            || (ch.x == cx && ch.z == cz && lo <= ch.y < y),
                    decreases top + 1 - y,
                {
                    let ch = ChunkCoord { x: cx, y: y as i32, z: cz };
                    let ghost before = out@;
                    proof {
                        assert(!before.contains(ch));
                    }
                    out.push(ch);
                    proof {
                        assert(out@ == before.push(ch));
                        assert forall|a: int, b: int| 0 <= a < b < out@.len() implies out@[a] != out@[b] by {
                            assert(before.contains(before[a]));
                            if b == out@.len() - 1 {
                                assert(out@[a] == before[a]);
                            } else {
                                assert(out@[a] == before[a] && out@[b] == before[b]);
                            }
                        }
                        assert forall|c2: ChunkCoord| #[trigger] out@.contains(c2) <==> before.contains(c2)
                            || c2 == ch by {
                            if out@.contains(c2) && c2 != ch {
                                let a = choose|a: int| 0 <= a < out@.len() && out@[a] == c2;
                                assert(before[a] == c2);
                            }
                            if before.contains(c2) {
                                let a = choose|a: int| 0 <= a < before.len() && before[a] == c2;
                                assert(out@[a] == c2);
                            }
                            if c2 == ch {
                                assert(out@[before.len() as int] == ch);
                            }
                        }
                    }
                    y = y + 1;
                }
            }
            proof {
                assert forall|kk: u64| #[trigger] seen@.contains(kk) <==> exists|j: int|
                    0 <= j < i + 1 && kk == cell_key(
                        CellXZ {
                            x: column_of(#[trigger] cs[j], cc).0 as i32,
                            z: column_of(cs[j], cc).1 as i32,
                        },
                    ) by {
                    if exists|j: int|
                        0 <= j < i + 1 && kk == cell_key(
                            CellXZ {
                                x: column_of(#[trigger] cs[j], cc).0 as i32,
                                z: column_of(cs[j], cc).1 as i32,
                            },
                        ) {
                        let j = choose|j: int|
                            0 <= j < i + 1 && kk == cell_key(
                                CellXZ {
                                    x: column_of(#[trigger] cs[j], cc).0 as i32,
                                    z: column_of(cs[j], cc).1 as i32,
                                },
                            );
                        if j < i {
                            assert(seen@.contains(kk));
                        }
                    }
                }
                assert forall|ch: ChunkCoord| #[trigger] out@.contains(ch) <==> (exists|j: int|
                    0 <= j < i + 1 && column_of(#[trigger] cs[j], cc) == (ch.x as int, ch.z as int))
                    && lo <= ch.y <= hi by {
                    if (exists|j: int|
                        0 <= j < i + 1 && column_of(#[trigger] cs[j], cc) == (ch.x as int, ch.z as int))
                        && lo <= ch.y <= hi {
                        let j = choose|j: int|
                            0 <= j < i + 1 && column_of(#[trigger] cs[j], cc) == (ch.x as int, ch.z as int);
                        if j == i && already {
                            lemma_cell_key_roundtrip(col);
                            let j2 = choose|j2: int|
                                0 <= j2 < i && k == cell_key(
                                    CellXZ {
                                        x: column_of(#[trigger] cs[j2], cc).0 as i32,
                                        z: column_of(cs[j2], cc).1 as i32,
                                    },
                                );
                            lemma_cell_key_roundtrip(
                                CellXZ {
                                    x: column_of(cs[j2], cc).0 as i32,
                                    z: column_of(cs[j2], cc).1 as i32,
                                },
                            );
                            assert(cs.to_set().contains(cs[j2]));
                            assert(self@.contains(cs[j2]));
                            lemma_quotient_fits(cs[j2].x as int, cc);
                            lemma_quotient_fits(cs[j2].z as int, cc);
                            assert(column_of(cs[j2], cc) == (ch.x as int, ch.z as int));
                        }
                    }
                }
            }
        }
        proof {
            let target = affected_chunk_set(self@, cc, min_chunk_y as int, max_chunk_y as int);
            assert forall|ch: ChunkCoord| out@.to_set().contains(ch) <==> target.contains(ch) by {
                if target.contains(ch) {
                    let c = choose|c: CellXZ| #[trigger]
                        self@.contains(c) && column_of(c, cc) == (ch.x as int, ch.z as int);
                    assert(cs.to_set().contains(c));
                    let j = choose|j: int| 0 <= j < cs.len() && cs[j] == c;
                    assert(column_of(cs[j], cc) == (ch.x as int, ch.z as int));
                    assert(out@.contains(ch));
                }
                if out@.contains(ch) {
                    let j = choose|j: int|
                        0 <= j < n && column_of(#[trigger] cs[j], cc) == (ch.x as int, ch.z as int);
                    assert(cs.to_set().contains(cs[j]));
                    assert(self@.contains(cs[j]));
                }
            }
            assert(out@.to_set() =~= target);
        }
        out
    }

    /// Smallest x of the cells, `i32::MAX` when there are none.
    pub fn min_x(&self) -> (v: i32)
        ensures
            self@.len() == 0 ==> v == i32::MAX,
            self@.len() > 0 ==> (forall|c: CellXZ| #[trigger] self@.contains(c) ==> v <= c.x)
                && exists|c: CellXZ| #[trigger] self@.contains(c) && c.x == v,
    {
        proof {
            use_type_invariant(self);
            self.lemma_view_len();
        }
        self.min_x
    }

    /// Largest x of the cells, `i32::MIN` when there are none.
    pub fn max_x(&self) -> (v: i32)
        ensures
            self@.len() == 0 ==> v == i32::MIN,
            self@.len() > 0 ==> (forall|c: CellXZ| #[trigger] self@.contains(c) ==> c.x <= v)
                && exists|c: CellXZ| #[trigger] self@.contains(c) && c.x == v,
    {
        proof {
            use_type_invariant(self);
            self.lemma_view_len();
        }
        self.max_x
    }

    /// Smallest z of the cells, `i32::MAX` when there are none.
    pub fn min_z(&self) -> (v: i32)
        ensures
            self@.len() == 0 ==> v == i32::MAX,
            self@.len() > 0 ==> (forall|c: CellXZ| #[trigger] self@.contains(c) ==> v <= c.z)
                && exists|c: CellXZ| #[trigger] self@.contains(c) && c.z == v,
    {
        proof {
            use_type_invariant(self);
            self.lemma_view_len();
        }
        self.min_z
    }

    /// Largest z of the cells, `i32::MIN` when there are none.
    pub fn max_z(&self) -> (v: i32)
        ensures
            self@.len() == 0 ==> v == i32::MIN,
            self@.len() > 0 ==> (forall|c: CellXZ| #[trigger] self@.contains(c) ==> c.z <= v)
                && exists|c: CellXZ| #[trigger] self@.contains(c) && c.z == v,
    {
        proof {
            use_type_invariant(self);
            self.lemma_view_len();
        }
        self.max_z
    }
}

} // verus!
