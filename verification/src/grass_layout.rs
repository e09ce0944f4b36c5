//! Layout rules shared by the grass and flower planters: each cell of a
//! chunk owns a block of `subdivisions²` multimesh instances, cells taken
//! row by row, and a floor point grows grass depending on its texture and
//! the grass mask.
use vstd::prelude::*;

verus! {

/// Instances for a chunk of `cells_x` by `cells_z` cells.
pub open spec fn spec_instance_count(cells_x: int, cells_z: int, subdivisions: int) -> int {
    cells_x * cells_z * subdivisions * subdivisions
}

/// First instance of cell `(x, z)`.
pub open spec fn spec_cell_base(x: int, z: int, cells_x: int, subdivisions: int) -> int {
    (z * cells_x + x) * (subdivisions * subdivisions)
}

/// The instance count of a chunk with `dim_x` by `dim_z` grid points.
pub fn instance_count(dim_x: i32, dim_z: i32, subdivisions: i32) -> (n: i32)
    requires
        dim_x >= 1,
        dim_z >= 1,
        subdivisions >= 0,
        spec_instance_count(dim_x - 1, dim_z - 1, subdivisions as int) <= i32::MAX,
    ensures
        n == spec_instance_count(dim_x - 1, dim_z - 1, subdivisions as int),
{
    let cx = (dim_x - 1) as i64;
    let cz = (dim_z - 1) as i64;
    let s = subdivisions as i64;
    proof {
        lemma_count_parts(cx as int, cz as int, s as int);
    }
    let a = cx * cz;
    let b = a * s;
    (b * s) as i32
}

proof fn lemma_count_parts(cx: int, cz: int, s: int)
    requires
        0 <= cx <= i32::MAX,
        0 <= cz <= i32::MAX,
        s >= 0,
        cx * cz * s * s <= i32::MAX,
    ensures
        0 <= cx * cz,
        0 <= cx * cz * s,
        cx * cz <= 0x7fff_ffff_ffff_ffff,
        cx * cz * s <= 0x7fff_ffff_ffff_ffff,
{
    assert(0 <= cx * cz) by (nonlinear_arith)
        requires
            cx >= 0,
            cz >= 0,
    ;
    assert(0 <= cx * cz * s) by (nonlinear_arith)
        requires
            cx * cz >= 0,
            s >= 0,
    ;
    assert(cx * cz <= 0x7fff_ffff_ffff_ffff) by (nonlinear_arith)
        requires
            0 <= cx <= 0x7fff_ffff,
            0 <= cz <= 0x7fff_ffff,
    ;
    if s > 0 {
        assert(cx * cz * s <= cx * cz * s * s) by (nonlinear_arith)
            requires
                cx * cz * s >= 0,
                s >= 1,
        ;
        assert(cx * cz <= cx * cz * s) by (nonlinear_arith)
            requires
                cx * cz >= 0,
                s >= 1,
        ;
    } else {
        assert(cx * cz * s == 0) by (nonlinear_arith)
            requires
                s == 0,
        ;
    }
}

/// A cell's block of instances lies inside the chunk's instances, and the
/// blocks of two different cells do not overlap.
pub proof fn lemma_cell_blocks_disjoint(
    cells_x: int,
    cells_z: int,
    subdivisions: int,
    x1: int,
    z1: int,
    x2: int,
    z2: int,
)
    requires
        subdivisions >= 0,
        0 <= x1 < cells_x,
        0 <= z1 < cells_z,
        0 <= x2 < cells_x,
        0 <= z2 < cells_z,
    ensures
        0 <= spec_cell_base(x1, z1, cells_x, subdivisions),
        spec_cell_base(x1, z1, cells_x, subdivisions) + subdivisions * subdivisions
            <= spec_instance_count(cells_x, cells_z, subdivisions),
        !(x1 == x2 && z1 == z2) ==> spec_cell_base(x1, z1, cells_x, subdivisions) + subdivisions
            * subdivisions <= spec_cell_base(x2, z2, cells_x, subdivisions) || spec_cell_base(
            x2,
            z2,
            cells_x,
            subdivisions,
        ) + subdivisions * subdivisions <= spec_cell_base(x1, z1, cells_x, subdivisions),
{
    let q = subdivisions * subdivisions;
    let i1 = z1 * cells_x + x1;
    let i2 = z2 * cells_x + x2;
    assert(0 <= q) by (nonlinear_arith)
        requires
            subdivisions >= 0,
            q == subdivisions * subdivisions,
    ;
    assert(0 <= i1 < cells_x * cells_z) by (nonlinear_arith)
        requires
            0 <= x1 < cells_x,
            0 <= z1 < cells_z,
            i1 == z1 * cells_x + x1,
    ;
    assert(0 <= i1 * q) by (nonlinear_arith)
        requires
            0 <= i1,
            0 <= q,
    ;
    assert(i1 * q + q <= cells_x * cells_z * q) by (nonlinear_arith)
        requires
            i1 + 1 <= cells_x * cells_z,
            0 <= q,
    ;
    assert(cells_x * cells_z * q == cells_x * cells_z * subdivisions * subdivisions) by (nonlinear_arith)
        requires
            q == subdivisions * subdivisions,
    ;
    if !(x1 == x2 && z1 == z2) {
        assert(i1 != i2) by {
            vstd::arithmetic::div_mod::lemma_fundamental_div_mod_converse(i1, cells_x, z1, x1);
            vstd::arithmetic::div_mod::lemma_fundamental_div_mod_converse(i2, cells_x, z2, x2);
        }
        if i1 < i2 {
            assert(i1 * q + q <= i2 * q) by (nonlinear_arith)
                requires
                    i1 + 1 <= i2,
                    0 <= q,
            ;
        } else {
            assert(i2 * q + q <= i1 * q) by (nonlinear_arith)
                requires
                    i2 + 1 <= i1,
                    0 <= q,
            ;
        }
    }
}

/// The instances `start..end` of cell `(cell_x, cell_z)` in a chunk with
/// `dim_x` by `dim_z` grid points.
pub fn cell_instance_range(cell_x: i32, cell_z: i32, dim_x: i32, dim_z: i32, subdivisions: i32) -> (r: (
    i32,
    i32,
))
    requires
        0 <= cell_x < dim_x - 1,
        0 <= cell_z < dim_z - 1,
        subdivisions >= 0,
        spec_instance_count(dim_x - 1, dim_z - 1, subdivisions as int) <= i32::MAX,
    ensures
        r.0 == spec_cell_base(cell_x as int, cell_z as int, dim_x - 1, subdivisions as int),
        r.1 == r.0 + subdivisions * subdivisions,
{
    proof {
        lemma_cell_blocks_disjoint(
            dim_x - 1,
            dim_z - 1,
            subdivisions as int,
            cell_x as int,
            cell_z as int,
            cell_x as int,
            cell_z as int,
        );
        lemma_count_parts((dim_x - 1) as int, (dim_z - 1) as int, subdivisions as int);
        assert(0 <= (cell_z as int) * (dim_x - 1) + cell_x < (dim_x - 1) * (dim_z - 1)) by (
        nonlinear_arith)
            requires
                0 <= cell_x < dim_x - 1,
                0 <= cell_z < dim_z - 1,
        ;
        assert(0 <= subdivisions * subdivisions <= i32::MAX) by (nonlinear_arith)
            requires
                subdivisions >= 0,
                (dim_x - 1) * (dim_z - 1) * subdivisions * subdivisions <= i32::MAX,
                (dim_x - 1) * (dim_z - 1) >= 1,
        ;
    }
    let cells_x = (dim_x - 1) as i64;
    let s = subdivisions as i64;
    let q = s * s;
    let index = (cell_z as i64) * cells_x + (cell_x as i64);
    let base = index * q;
    (base as i32, (base + q) as i32)
}

/// Grass grows on a floor point when the mask forces it on, on the base
/// grass texture (1), and on textures 2 to 6 when their grass flag is set.
pub open spec fn spec_texture_has_grass(texture_id: int, force_grass_on: bool, tex_has_grass: Seq<bool>) -> bool {
    if force_grass_on {
        true
    } else if texture_id == 1 {
        true
    } else if 2 <= texture_id <= 6 {
        tex_has_grass[texture_id - 2]
    } else {
        false
    }
}

/// Whether grass grows on a floor point with texture `texture_id`.
pub fn texture_has_grass(texture_id: i32, force_grass_on: bool, tex_has_grass: &[bool; 5]) -> (b: bool)
    ensures
        b == spec_texture_has_grass(texture_id as int, force_grass_on, tex_has_grass@),
{
    if force_grass_on {
        true
    } else if texture_id == 1 {
        true
    } else if 2 <= texture_id && texture_id <= 6 {
        let ti = (texture_id - 2) as usize;
        tex_has_grass[ti]
    } else {
        false
    }
}

/// Which floor points grow grass, for every texture and configuration:
/// the mask override always does; without it, the base grass texture 1
/// always does, texture `t` in 2..=6 follows its flag `tex_has_grass[t - 2]`
/// (the five textures and the five flags in the same order), and every
/// other texture never does.
pub proof fn lemma_grass_by_texture(texture_id: int, tex_has_grass: Seq<bool>)
    requires
        tex_has_grass.len() == 5,
    ensures
        spec_texture_has_grass(texture_id, true, tex_has_grass),
        texture_id == 1 ==> spec_texture_has_grass(texture_id, false, tex_has_grass),
        2 <= texture_id <= 6 ==> spec_texture_has_grass(texture_id, false, tex_has_grass)
            == tex_has_grass[texture_id - 2],
        texture_id == 6 ==> spec_texture_has_grass(texture_id, false, tex_has_grass)
            == tex_has_grass[4],
        !(1 <= texture_id <= 6) ==> !spec_texture_has_grass(texture_id, false, tex_has_grass),
{
}

} // verus!
