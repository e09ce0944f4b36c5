//! Saving and restoring the per-point maps of a chunk: a height map kept as
//! `dim_z` rows of `dim_x` values is stored flat, row-major (`z * dim_x + x`),
//! and flat maps are read back only when their size matches the chunk.
use vstd::prelude::*;

verus! {

/// The rows as sequences.
pub open spec fn rows_view<T>(rows: Seq<Vec<T>>) -> Seq<Seq<T>> {
    rows.map_values(|r: Vec<T>| r@)
}

/// `dim_z` rows of `dim_x` values each.
pub open spec fn is_shaped<T>(rows: Seq<Seq<T>>, dim_x: int, dim_z: int) -> bool {
    rows.len() == dim_z && forall|z: int| 0 <= z < dim_z ==> (#[trigger] rows[z]).len() == dim_x
}

/// The rows stored flat, row-major.
pub open spec fn spec_pack<T>(rows: Seq<Seq<T>>, dim_x: int, dim_z: int) -> Seq<T> {
    Seq::new((dim_x * dim_z) as nat, |i: int| rows[i / dim_x][i % dim_x])
}

/// A flat map read back as rows.
pub open spec fn spec_unpack<T>(flat: Seq<T>, dim_x: int, dim_z: int) -> Seq<Seq<T>> {
    Seq::new(dim_z as nat, |z: int| Seq::new(dim_x as nat, |x: int| flat[z * dim_x + x]))
}

proof fn lemma_row_major(x: int, z: int, dim_x: int, dim_z: int)
    requires
        0 <= x < dim_x,
        0 <= z < dim_z,
    ensures
        0 <= z * dim_x + x < dim_x * dim_z,
        (z * dim_x + x) / dim_x == z,
        (z * dim_x + x) % dim_x == x,
{
    assert(0 <= z * dim_x + x < dim_x * dim_z) by (nonlinear_arith)
        requires
            0 <= x < dim_x,
            0 <= z < dim_z,
    ;
    vstd::arithmetic::div_mod::lemma_fundamental_div_mod_converse(z * dim_x + x, dim_x, z, x);
}

/// Flattens `dim_z` rows of `dim_x` values, row-major; `None` when the rows
/// do not have that shape.
pub fn pack_rows<T: Copy>(rows: &Vec<Vec<T>>, dim_x: usize, dim_z: usize) -> (r: Option<Vec<T>>)
    requires
        dim_x * dim_z <= usize::MAX,
    ensures
        r is None <==> !is_shaped(rows_view(rows@), dim_x as int, dim_z as int),
        r matches Some(flat) ==> flat@ == spec_pack(rows_view(rows@), dim_x as int, dim_z as int),
{
    if rows.len() != dim_z {
        return None;
    }
    let mut z: usize = 0;
    while z < dim_z
        invariant
            z <= dim_z,
            rows@.len() == dim_z,
            forall|k: int| 0 <= k < z ==> (#[trigger] rows@[k])@.len() == dim_x,
        decreases dim_z - z,
    {
        if rows[z].len() != dim_x {
            assert(rows_view(rows@)[z as int].len() != dim_x);
            return None;
        }
        z = z + 1;
    }
    let ghost rv = rows_view(rows@);
    assert(is_shaped(rv, dim_x as int, dim_z as int));
    let mut flat: Vec<T> = Vec::new();
    let mut z: usize = 0;
    while z < dim_z
        invariant
            z <= dim_z,
            dim_x * dim_z <= usize::MAX,
            rv == rows_view(rows@),
            is_shaped(rv, dim_x as int, dim_z as int),
            flat@.len() == z * dim_x,
            forall|i: int| 0 <= i < z * dim_x ==> #[trigger] flat@[i] == rv[i / dim_x as int][i % dim_x as int],
        decreases dim_z - z,
    {
        let row = &rows[z];
        assert(row@ == rv[z as int]);
        let mut x: usize = 0;
        while x < dim_x
            invariant
                x <= dim_x,
                z < dim_z,
                dim_x * dim_z <= usize::MAX,
                row@ == rv[z as int],
                row@.len() == dim_x,
                flat@.len() == z * dim_x + x,
                forall|i: int| 0 <= i < z * dim_x + x ==> #[trigger] flat@[i] == rv[i / dim_x as int][i % dim_x as int],
            decreases dim_x - x,
        {
            proof {
                lemma_row_major(x as int, z as int, dim_x as int, dim_z as int);
            }
            flat.push(row[x]);
            x = x + 1;
        }
        assert((z + 1) * dim_x == z * dim_x + dim_x) by (nonlinear_arith);
        z = z + 1;
    }
    assert(dim_z * dim_x == dim_x * dim_z) by (nonlinear_arith);
    assert(flat@ =~= spec_pack(rv, dim_x as int, dim_z as int));
    Some(flat)
}

/// Reads a flat map back as `dim_z` rows of `dim_x` values; `None` when its
/// size is not `dim_x * dim_z`.
pub fn unpack_rows<T: Copy>(flat: &Vec<T>, dim_x: usize, dim_z: usize) -> (r: Option<Vec<Vec<T>>>)
    requires
        dim_x * dim_z <= usize::MAX,
    ensures
        r is None <==> flat@.len() != dim_x * dim_z,
        r matches Some(rows) ==> rows_view(rows@) == spec_unpack(flat@, dim_x as int, dim_z as int),
{
    if flat.len() != dim_x * dim_z {
        return None;
    }
    let mut rows: Vec<Vec<T>> = Vec::new();
    let mut z: usize = 0;
    while z < dim_z
        invariant
            z <= dim_z,
            dim_x * dim_z <= usize::MAX,
            flat@.len() == dim_x * dim_z,
            rows@.len() == z,
            forall|k: int| 0 <= k < z ==> (#[trigger] rows@[k])@ == Seq::new(
                dim_x as nat,
                |x: int| flat@[k * dim_x + x],
            ),
        decreases dim_z - z,
    {
        let mut row: Vec<T> = Vec::new();
        let mut x: usize = 0;
        while x < dim_x
            invariant
                x <= dim_x,
                z < dim_z,
                dim_x * dim_z <= usize::MAX,
                flat@.len() == dim_x * dim_z,
                row@.len() == x,
                forall|j: int| 0 <= j < x ==> #[trigger] row@[j] == flat@[z * dim_x + j],
            decreases dim_x - x,
        {
            proof {
                lemma_row_major(x as int, z as int, dim_x as int, dim_z as int);
            }
            row.push(flat[z * dim_x + x]);
            x = x + 1;
        }
        assert(row@ =~= Seq::new(dim_x as nat, |x: int| flat@[z * dim_x + x]));
        rows.push(row);
        z = z + 1;
    }
    assert(rows_view(rows@) =~= spec_unpack(flat@, dim_x as int, dim_z as int));
    Some(rows)
}

/// A flat map read back when it has `expected` values, else `expected`
/// copies of `default`.
pub open spec fn spec_unpack_or_default<T>(flat: Seq<T>, expected: int, default: T) -> Seq<T> {
    if flat.len() == expected {
        flat
    } else {
        Seq::new(expected as nat, |i: int| default)
    }
}

/// A flat map of `expected` values, or `expected` copies of `default` when
/// its size is different.
pub fn unpack_or_default<T: Copy>(flat: &Vec<T>, expected: usize, default: T) -> (r: Vec<T>)
    ensures
        r@ == spec_unpack_or_default(flat@, expected as int, default),
{
    let mut r: Vec<T> = Vec::new();
    let same = flat.len() == expected;
    let mut i: usize = 0;
    while i < expected
        invariant
            i <= expected,
            same == (flat@.len() == expected),
            r@.len() == i,
            forall|j: int| 0 <= j < i ==> #[trigger] r@[j] == if same {
                flat@[j]
            } else {
                default
            },
        decreases expected - i,
    {
        if same {
            r.push(flat[i]);
        } else {
            r.push(default);
        }
        i = i + 1;
    }
    proof {
        if same {
            assert(r@ =~= flat@);
        } else {
            assert(r@ =~= Seq::new(expected as nat, |i: int| default));
        }
    }
    r
}

/// Restoring a saved map gives back the map that was saved: rows of the
/// chunk's shape, flattened and read back, are the same rows.
pub proof fn lemma_restore_after_save<T>(rows: Seq<Seq<T>>, dim_x: int, dim_z: int)
    requires
        dim_x >= 0,
        dim_z >= 0,
        is_shaped(rows, dim_x, dim_z),
    ensures
        spec_pack(rows, dim_x, dim_z).len() == dim_x * dim_z,
        spec_unpack(spec_pack(rows, dim_x, dim_z), dim_x, dim_z) == rows,
{
    let flat = spec_pack(rows, dim_x, dim_z);
    assert(0 <= dim_x * dim_z) by (nonlinear_arith)
        requires
            dim_x >= 0,
            dim_z >= 0,
    ;
    let back = spec_unpack(flat, dim_x, dim_z);
    assert forall|z: int| 0 <= z < dim_z implies #[trigger] back[z] =~= rows[z] by {
        assert forall|x: int| 0 <= x < dim_x implies back[z][x] == rows[z][x] by {
            lemma_row_major(x, z, dim_x, dim_z);
        }
    }
    assert(back =~= rows);
}

/// Saving a chunk and restoring it gives back every map: the height rows,
/// of the chunk's shape, through the flat height map, and each per-point
/// map of `dim_x * dim_z` values (colours, wall colours, grass mask), which
/// is saved as it is.
pub proof fn lemma_restore_chunk_maps<T, U>(
    heights: Seq<Seq<T>>,
    map: Seq<U>,
    default: U,
    dim_x: int,
    dim_z: int,
)
    requires
        dim_x > 0,
        dim_z > 0,
        is_shaped(heights, dim_x, dim_z),
        map.len() == dim_x * dim_z,
    ensures
        spec_pack(heights, dim_x, dim_z).len() == dim_x * dim_z,
        spec_unpack(spec_pack(heights, dim_x, dim_z), dim_x, dim_z) == heights,
        spec_unpack_or_default(map, dim_x * dim_z, default) == map,
{
    lemma_restore_after_save(heights, dim_x, dim_z);
}

} // verus!
