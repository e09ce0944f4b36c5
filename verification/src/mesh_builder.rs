//! Face culling for the block mesh of a tile grid: a cube face is drawn only
//! where no tile sits on the other side of it. Turning the visible faces into
//! vertices, normals and colours is left to the renderer.
use vstd::prelude::*;

use crate::tile_data::{GridPos, TileData, TileGrid};

verus! {

/// Number of faces of a cube.
pub const CUBE_FACES: u8 = 6;

/// Offset to the neighbour across each cube face, in the order
/// +X, -X, +Y, -Y, +Z, -Z.
pub open spec fn face_offset(face: int) -> (int, int, int) {
    if face == 0 {
        (1, 0, 0)
    } else if face == 1 {
        (-1, 0, 0)
    } else if face == 2 {
        (0, 1, 0)
    } else if face == 3 {
        (0, -1, 0)
    } else if face == 4 {
        (0, 0, 1)
    } else {
        (0, 0, -1)
    }
}

/// A coordinate a tile can stand at.
pub open spec fn in_i32(v: int) -> bool {
    i32::MIN <= v <= i32::MAX
}

/// A tile sits across face `face` of position `p`.
pub open spec fn neighbor_filled(m: Map<GridPos, TileData>, p: GridPos, face: int) -> bool {
    let o = face_offset(face);
    let nx = p.0 + o.0;
    let ny = p.1 + o.1;
    let nz = p.2 + o.2;
    in_i32(nx) && in_i32(ny) && in_i32(nz) && m.contains_key((nx as i32, ny as i32, nz as i32))
}

/// Face `face` of the tile at `p` is drawn: there is a tile at `p` and
/// none across that face.
pub open spec fn face_visible(m: Map<GridPos, TileData>, p: GridPos, face: int) -> bool {
    m.contains_key(p) && 0 <= face < 6 && !neighbor_filled(m, p, face)
}

/// The neighbour offset across a face, as in [`face_offset`].
pub fn neighbor_offset(face: u8) -> (o: (i32, i32, i32))
    requires
        face < CUBE_FACES,
    ensures
        (o.0 as int, o.1 as int, o.2 as int) == face_offset(face as int),
{
    match face {
        0 => (1, 0, 0),
        1 => (-1, 0, 0),
        2 => (0, 1, 0),
        3 => (0, -1, 0),
        4 => (0, 0, 1),
        _ => (0, 0, -1),
    }
}

/// `c + d` when it is an `i32`.
fn step_coord(c: i32, d: i32) -> (r: Option<i32>)
    requires
        -1 <= d <= 1,
    ensures
        r matches Some(v) ==> v == c + d,
        r is None <==> !in_i32(c + d),
{
    if d > 0 && c == i32::MAX {
        None
    } else if d < 0 && c == i32::MIN {
        None
    } else {
        Some(c + d)
    }
}

fn has_neighbor(grid: &TileGrid, p: GridPos, face: u8) -> (b: bool)
    requires
        face < CUBE_FACES,
    ensures
        b == neighbor_filled(grid@, p, face as int),
{
    let (dx, dy, dz) = neighbor_offset(face);
    match (step_coord(p.0, dx), step_coord(p.1, dy), step_coord(p.2, dz)) {
        (Some(x), Some(y), Some(z)) => grid.has_tile(x, y, z),
        _ => false,
    }
}

/// Entries for one tile come with increasing face numbers.
#[verifier::opaque]
pub open spec fn faces_ordered(v: Seq<(GridPos, TileData, u8)>) -> bool {
    forall|i: int, j: int| #![trigger v[i], v[j]]
        0 <= i < j < v.len() && v[i].0 == v[j].0 ==> v[i].2 < v[j].2
}

/// The entries of one tile stand together.
#[verifier::opaque]
pub open spec fn tiles_grouped(v: Seq<(GridPos, TileData, u8)>) -> bool {
    forall|i: int, j: int, k: int| #![trigger v[i], v[j], v[k]]
        0 <= i < j < k < v.len() && v[i].0 == v[k].0 ==> v[j].0 == v[i].0
}

/// Appending the entries of a new tile, in face order, keeps the entries
/// ordered and grouped.
proof fn lemma_append_tile_block(
    before: Seq<(GridPos, TileData, u8)>,
    f: Seq<(GridPos, TileData, u8)>,
    p: GridPos,
)
    requires
        faces_ordered(before),
        tiles_grouped(before),
        forall|i: int| 0 <= i < before.len() ==> (#[trigger] before[i]).0 != p,
        forall|i: int| 0 <= i < f.len() ==> (#[trigger] f[i]).0 == p,
        faces_ordered(f),
    ensures
        faces_ordered(before + f),
        tiles_grouped(before + f),
{
    reveal(faces_ordered);
    reveal(tiles_grouped);
    let v = before + f;
    let n = before.len() as int;
    assert forall|i: int, j: int| #![trigger v[i], v[j]]
        0 <= i < j < v.len() && v[i].0 == v[j].0 implies v[i].2 < v[j].2 by {
        if j < n {
            assert(v[i] == before[i] && v[j] == before[j]);
        } else if i >= n {
            assert(v[i] == f[i - n] && v[j] == f[j - n]);
        } else {
            assert(v[i] == before[i] && v[j] == f[j - n]);
        }
    }
    assert forall|i: int, j: int, k: int| #![trigger v[i], v[j], v[k]]
        0 <= i < j < k < v.len() && v[i].0 == v[k].0 implies v[j].0 == v[i].0 by {
        if k < n {
            assert(v[i] == before[i] && v[j] == before[j] && v[k] == before[k]);
        } else if i >= n {
            assert(v[i] == f[i - n] && v[j] == f[j - n] && v[k] == f[k - n]);
        } else {
            assert(v[i] == before[i] && v[k] == f[k - n]);
        }
    }
}

/// The visible faces of the tile `tile` at `p`, in face order.
fn tile_faces(grid: &TileGrid, p: GridPos, tile: TileData) -> (f: Vec<(GridPos, TileData, u8)>)
    requires
        grid@.contains_key(p),
    ensures
        forall|i: int| #![trigger f@[i]]
            0 <= i < f@.len() ==> f@[i].0 == p && f@[i].1 == tile && face_visible(grid@, p, f@[i].2 as int),
        faces_ordered(f@),
        forall|face: int| #[trigger] face_visible(grid@, p, face) ==> exists|i: int|
            0 <= i < f@.len() && f@[i].2 == face,
{
    let mut f: Vec<(GridPos, TileData, u8)> = Vec::new();
    proof {
        reveal(faces_ordered);
    }
    let mut face: u8 = 0;
    while face < CUBE_FACES
        invariant
            grid@.contains_key(p),
            face <= 6,
            forall|i: int| #![trigger f@[i]]
                0 <= i < f@.len() ==> f@[i].0 == p && f@[i].1 == tile && face_visible(grid@, p, f@[i].2 as int)
                    && f@[i].2 < face,
            faces_ordered(f@),
            forall|g: int| 0 <= g < face && #[trigger] face_visible(grid@, p, g) ==> exists|i: int|
                0 <= i < f@.len() && f@[i].2 == g,
        decreases 6 - face,
    {
        if !has_neighbor(grid, p, face) {
            let ghost before = f@;
            f.push((p, tile, face));
            proof {
                let n = before.len() as int;
                assert forall|i: int| #![trigger f@[i]]
                    0 <= i < f@.len() implies f@[i].0 == p && f@[i].1 == tile && face_visible(grid@, p, f@[i].2 as int)
                        && f@[i].2 < face + 1 by {
                    if i < n {
                        assert(f@[i] == before[i]);
                    }
                }
                reveal(faces_ordered);
                assert forall|i: int, j: int| #![trigger f@[i], f@[j]]
                    0 <= i < j < f@.len() && f@[i].0 == f@[j].0 implies f@[i].2 < f@[j].2 by {
                    assert(f@[i] == before[i]);
                    if j < n {
                        assert(f@[j] == before[j]);
                    }
                }
                assert forall|g: int| 0 <= g < face + 1 && #[trigger] face_visible(grid@, p, g) implies exists|i: int|
                    0 <= i < f@.len() && f@[i].2 == g by {
                    if g < face {
                        let i = choose|i: int| 0 <= i < before.len() && before[i].2 == g;
                        assert(f@[i] == before[i]);
                    } else {
                        assert(f@[n].2 == g);
                    }
                }
            }
        }
        face = face + 1;
    }
    f
}

/// Every visible cube face of the grid, as the tile's position, the tile
/// and the face (numbered as in [`face_offset`]). Each visible face appears
/// exactly once; tiles come in the grid's own order, the faces of one tile
/// together and in face order. A grid with at least one tile always has a
/// visible face.
pub fn visible_faces(grid: &TileGrid) -> (v: Vec<(GridPos, TileData, u8)>)
    ensures
        forall|i: int| #![trigger v@[i]]
            0 <= i < v@.len() ==> face_visible(grid@, v@[i].0, v@[i].2 as int) && v@[i].1
                == grid@[v@[i].0],
        forall|p: GridPos, f: int| #[trigger] face_visible(grid@, p, f) ==> exists|i: int|
            0 <= i < v@.len() && v@[i].0 == p && v@[i].2 == f,
        forall|i: int, j: int|
            0 <= i < j < v@.len() ==> !(v@[i].0 == v@[j].0 && v@[i].2 == v@[j].2),
        faces_ordered(v@),
        tiles_grouped(v@),
        grid@.len() > 0 ==> v@.len() > 0,
{
    let tiles = grid.iter();
    let mut v: Vec<(GridPos, TileData, u8)> = Vec::new();
    proof {
        reveal(faces_ordered);
        reveal(tiles_grouped);
    }
    let mut t: usize = 0;
    while t < tiles.len()
        invariant
            t <= tiles@.len(),
            forall|i: int, j: int| 0 <= i < j < tiles@.len() ==> tiles@[i].0 != tiles@[j].0,
            forall|i: int| 0 <= i < tiles@.len() ==> #[trigger] grid@.contains_key(tiles@[i].0)
                && grid@[tiles@[i].0] == tiles@[i].1,
            forall|i: int| #![trigger v@[i]]
                0 <= i < v@.len() ==> face_visible(grid@, v@[i].0, v@[i].2 as int) && v@[i].1
                    == grid@[v@[i].0] && exists|k: int| 0 <= k < t && tiles@[k].0 == v@[i].0,
            forall|k: int, f: int|
                0 <= k < t && #[trigger] face_visible(grid@, tiles@[k].0, f) ==> exists|i: int|
                    0 <= i < v@.len() && v@[i].0 == tiles@[k].0 && v@[i].2 == f,
            faces_ordered(v@),
            tiles_grouped(v@),
        decreases tiles@.len() - t,
    {
        let (p, tile) = tiles[t];
        proof {
            assert(grid@.contains_key(tiles@[t as int].0));
        }
        let f = tile_faces(grid, p, tile);
        let ghost before = v@;
        proof {
            assert forall|i: int| 0 <= i < before.len() implies (#[trigger] before[i]).0 != p by {
                assert(v@[i] == before[i]);
                let k = choose|k: int| 0 <= k < t && tiles@[k].0 == v@[i].0;
                assert(tiles@[k].0 != tiles@[t as int].0);
            }
            lemma_append_tile_block(before, f@, p);
        }
        let mut m: usize = 0;
        while m < f.len()
            invariant
                m <= f@.len(),
                v@ == before + f@.subrange(0, m as int),
            decreases f@.len() - m,
        {
            v.push(f[m]);
            proof {
                assert(f@.subrange(0, m + 1) =~= f@.subrange(0, m as int).push(f@[m as int]));
            }
            m = m + 1;
        }
        proof {
            assert(f@.subrange(0, f@.len() as int) =~= f@);
            let n = before.len() as int;
            assert forall|i: int| #![trigger v@[i]]
                0 <= i < v@.len() implies face_visible(grid@, v@[i].0, v@[i].2 as int) && v@[i].1
                    == grid@[v@[i].0] && exists|k: int| 0 <= k < t + 1 && tiles@[k].0 == v@[i].0 by {
                if i < n {
                    assert(v@[i] == before[i]);
                    let k = choose|k: int| 0 <= k < t && tiles@[k].0 == before[i].0;
                    assert(0 <= k < t + 1);
                } else {
                    assert(v@[i] == f@[i - n]);
                    assert(tiles@[t as int].0 == v@[i].0);
                }
            }
            assert forall|k: int, g: int|
                0 <= k < t + 1 && #[trigger] face_visible(grid@, tiles@[k].0, g) implies exists|i: int|
                    0 <= i < v@.len() && v@[i].0 == tiles@[k].0 && v@[i].2 == g by {
                if k < t {
                    let i = choose|i: int| 0 <= i < before.len() && before[i].0 == tiles@[k].0 && before[i].2 == g;
                    assert(v@[i] == before[i]);
                } else {
                    let i = choose|i: int| 0 <= i < f@.len() && f@[i].2 == g;
                    assert(v@[n + i] == f@[i]);
                }
            }
        }
        t = t + 1;
    }
    proof {
        reveal(faces_ordered);
        assert forall|i: int, j: int|
            0 <= i < j < v@.len() implies !(v@[i].0 == v@[j].0 && v@[i].2 == v@[j].2) by {
            if v@[i].0 == v@[j].0 {
                assert(v@[i].2 < v@[j].2);
            }
        }
        assert forall|p: GridPos, f: int| #[trigger] face_visible(grid@, p, f) implies exists|i: int|
            0 <= i < v@.len() && v@[i].0 == p && v@[i].2 == f by {
            let k = choose|k: int| 0 <= k < tiles@.len() && tiles@[k].0 == p;
            assert(face_visible(grid@, tiles@[k].0, f));
        }
        if grid@.len() > 0 {
            let k = lemma_rightmost_tile(tiles@);
            let p = tiles@[k].0;
            assert(grid@.contains_key(p));
            assert(!neighbor_filled(grid@, p, 0)) by {
                if neighbor_filled(grid@, p, 0) {
                    let q: GridPos = ((p.0 + 1) as i32, p.1, p.2);
                    assert(grid@.contains_key(q));
                    let i = choose|i: int| 0 <= i < tiles@.len() && tiles@[i].0 == q;
                    assert(tiles@[i].0.0 <= tiles@[k].0.0);
                }
            }
            assert(face_visible(grid@, p, 0));
        }
    }
    v
}

/// Index of an entry whose position has the largest x.
proof fn lemma_rightmost_tile(s: Seq<(GridPos, TileData)>) -> (k: int)
    requires
        s.len() > 0,
    ensures
        0 <= k < s.len(),
        forall|i: int| 0 <= i < s.len() ==> s[i].0.0 <= s[k].0.0,
    decreases s.len(),
{
    if s.len() == 1 {
        0
    } else {
        let k0 = lemma_rightmost_tile(s.drop_last());
        let l = s.len() - 1;
        assert forall|i: int| 0 <= i < l implies s[i].0.0 <= s[k0].0.0 by {
            assert(s[i] == s.drop_last()[i]);
        }
        assert(s[k0] == s.drop_last()[k0]);
        if s[l].0.0 > s[k0].0.0 {
            l
        } else {
            k0
        }
    }
}

} // verus!
