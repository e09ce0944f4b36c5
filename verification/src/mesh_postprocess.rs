//! Index bookkeeping of terrain mesh post-processing: merging chunk meshes
//! into one indexed mesh, welding duplicate vertices, and dropping vertices
//! that no triangle uses. The vertex type is left open; positions and
//! normals are carried, never computed on.
use vstd::prelude::*;

verus! {

/// Mesh of one chunk: vertices, their normals, and triangle corner indices
/// (three per triangle) into `vertices`.
pub struct ChunkMesh<V> {
    pub vertices: Vec<V>,
    pub normals: Vec<V>,
    pub indices: Vec<i32>,
}

/// One indexed mesh built from several chunks.
pub struct CombinedMesh<V> {
    pub vertices: Vec<V>,
    pub normals: Vec<V>,
    pub indices: Vec<u32>,
}

impl<V> CombinedMesh<V> {
    pub fn new() -> (m: Self)
        ensures
            m.vertices@.len() == 0,
            m.normals@.len() == 0,
            m.indices@.len() == 0,
    {
        CombinedMesh { vertices: Vec::new(), normals: Vec::new(), indices: Vec::new() }
    }

    pub fn vertex_count(&self) -> (n: usize)
        ensures
            n == self.vertices@.len(),
    {
        self.vertices.len()
    }

    /// Number of whole triangles in the index list.
    pub fn triangle_count(&self) -> (n: usize)
        ensures
            n == self.indices@.len() / 3,
    {
        self.indices.len() / 3
    }
}

impl<V> Default for CombinedMesh<V> {
    fn default() -> (m: Self)
        ensures
            m.vertices@.len() == 0,
            m.normals@.len() == 0,
            m.indices@.len() == 0,
    {
        CombinedMesh::new()
    }
}

/// Triangle `t` of `ix` refers only to vertices `0..count`.
pub open spec fn valid_triangle(ix: Seq<i32>, t: int, count: int) -> bool {
    &&& 0 <= ix[3 * t] < count
    &&& 0 <= ix[3 * t + 1] < count
    &&& 0 <= ix[3 * t + 2] < count
}

/// The indices of the valid triangles among the first `t` of `ix`, each
/// shifted by `base`; triangles with an index outside `0..count` are dropped.
pub open spec fn shifted_triangles(ix: Seq<i32>, t: int, count: int, base: int) -> Seq<u32>
    decreases t,
{
    if t <= 0 {
        Seq::empty()
    } else {
        let prev = shifted_triangles(ix, t - 1, count, base);
        if valid_triangle(ix, t - 1, count) {
            prev + seq![
                (base + ix[3 * (t - 1)]) as u32,
                (base + ix[3 * (t - 1) + 1]) as u32,
                (base + ix[3 * (t - 1) + 2]) as u32,
            ]
        } else {
            prev
        }
    }
}

/// Number of vertices in the first `j` chunks.
pub open spec fn vertex_base<V>(chunks: Seq<ChunkMesh<V>>, j: int) -> int
    decreases j,
{
    if j <= 0 {
        0
    } else {
        vertex_base(chunks, j - 1) + chunks[j - 1].vertices@.len()
    }
}

/// The vertices of the first `j` chunks, one chunk after another.
pub open spec fn merged_vertices<V>(chunks: Seq<ChunkMesh<V>>, j: int) -> Seq<V>
    decreases j,
{
    if j <= 0 {
        Seq::empty()
    } else {
        merged_vertices(chunks, j - 1) + chunks[j - 1].vertices@
    }
}

/// The normals of the first `j` chunks, one chunk after another.
pub open spec fn merged_normals<V>(chunks: Seq<ChunkMesh<V>>, j: int) -> Seq<V>
    decreases j,
{
    if j <= 0 {
        Seq::empty()
    } else {
        merged_normals(chunks, j - 1) + chunks[j - 1].normals@
    }
}

/// The bound that a chunk's triangle indices are checked against: its
/// vertex count, as an `i32`. A chunk with more than `i32::MAX` (and at most
/// `u32::MAX`) vertices has a negative count there, so none of its
/// triangles pass.
pub open spec fn index_limit(vertex_count: int) -> int {
    if vertex_count <= i32::MAX {
        vertex_count
    } else {
        0
    }
}

/// The valid triangles of the first `j` chunks, renumbered into the merged
/// vertex list.
pub open spec fn merged_indices<V>(chunks: Seq<ChunkMesh<V>>, j: int) -> Seq<u32>
    decreases j,
{
    if j <= 0 {
        Seq::empty()
    } else {
        let c = chunks[j - 1];
        merged_indices(chunks, j - 1) + shifted_triangles(
            c.indices@,
            c.indices@.len() as int / 3,
            index_limit(c.vertices@.len() as int),
            vertex_base(chunks, j - 1),
        )
    }
}

proof fn lemma_vertex_base_monotone<V>(chunks: Seq<ChunkMesh<V>>, i: int, j: int)
    requires
        0 <= i <= j,
    ensures
        vertex_base(chunks, i) <= vertex_base(chunks, j),
    decreases j - i,
{
    if i < j {
        lemma_vertex_base_monotone(chunks, i, j - 1);
    }
}

proof fn lemma_merged_vertices_len<V>(chunks: Seq<ChunkMesh<V>>, j: int)
    requires
        0 <= j,
    ensures
        merged_vertices(chunks, j).len() == vertex_base(chunks, j),
    decreases j,
{
    if j > 0 {
        lemma_merged_vertices_len(chunks, j - 1);
    }
}

/// Appends the valid triangles of one chunk, shifted by `base`.
fn push_chunk_triangles(out: &mut Vec<u32>, ix: &Vec<i32>, count: usize, base: u32)
    requires
        count <= i32::MAX,
        base + count <= u32::MAX,
    ensures
        final(out)@ == old(out)@ + shifted_triangles(ix@, ix@.len() as int / 3, count as int, base as int),
{
    let n = ix.len() / 3;
    let cnt = count as i32;
    proof {
        vstd::arithmetic::div_mod::lemma_fundamental_div_mod(ix@.len() as int, 3);
    }
    let mut t: usize = 0;
    while t < n
        invariant
            t <= n,
            n == ix@.len() / 3,
            3 * n <= ix@.len(),
            cnt == count,
            count <= i32::MAX,
            base + count <= u32::MAX,
            out@ == old(out)@ + shifted_triangles(ix@, t as int, count as int, base as int),
        decreases n - t,
    {
        let len = ix.len();
        assert(3 * t + 2 < len);
        let i0 = ix[3 * t];
        let i1 = ix[3 * t + 1];
        let i2 = ix[3 * t + 2];
        let ghost prev = out@;
        if !(i0 < 0 || i0 >= cnt || i1 < 0 || i1 >= cnt || i2 < 0 || i2 >= cnt) {
            out.push(base + i0 as u32);
            out.push(base + i1 as u32);
            out.push(base + i2 as u32);
            proof {
                let tri = seq![
                    (base + ix@[3 * t as int]) as u32,
                    (base + ix@[3 * t + 1]) as u32,
                    (base + ix@[3 * t + 2]) as u32,
                ];
                assert(out@ =~= prev + tri);
                assert(old(out)@ + shifted_triangles(ix@, t as int, count as int, base as int) + tri
                    =~= old(out)@ + (shifted_triangles(ix@, t as int, count as int, base as int)
                    + tri));
            }
        }
        t = t + 1;
    }
}

/// Appends every element of `src` to `dst`.
fn append_all<V: Copy>(dst: &mut Vec<V>, src: &Vec<V>)
    ensures
        final(dst)@ == old(dst)@ + src@,
{
    let mut i: usize = 0;
    while i < src.len()
        invariant
            i <= src@.len(),
            dst@ == old(dst)@ + src@.subrange(0, i as int),
        decreases src@.len() - i,
    {
        dst.push(src[i]);
        proof {
            assert(src@.subrange(0, i + 1) =~= src@.subrange(0, i as int).push(src@[i as int]));
        }
        i = i + 1;
    }
    assert(src@.subrange(0, src@.len() as int) =~= src@);
}

/// Merges chunk meshes into one: vertices and normals one chunk after
/// another, and each chunk's triangles renumbered into the merged vertex
/// list. A triangle with an index outside its chunk is dropped, and so is a
/// trailing partial triangle; a chunk with more than `i32::MAX` vertices
/// keeps its vertices but contributes no triangles.
pub fn merge_chunks<V: Copy>(chunks: &Vec<ChunkMesh<V>>) -> (m: CombinedMesh<V>)
    requires
        vertex_base(chunks@, chunks@.len() as int) <= u32::MAX,
    ensures
        m.vertices@ == merged_vertices(chunks@, chunks@.len() as int),
        m.normals@ == merged_normals(chunks@, chunks@.len() as int),
        m.indices@ == merged_indices(chunks@, chunks@.len() as int),
{
    let mut combined: CombinedMesh<V> = CombinedMesh::new();
    let n = chunks.len();
    for j in 0..n
        invariant
            n == chunks@.len(),
            vertex_base(chunks@, n as int) <= u32::MAX,
            combined.vertices@ == merged_vertices(chunks@, j as int),
            combined.normals@ == merged_normals(chunks@, j as int),
            combined.indices@ == merged_indices(chunks@, j as int),
    {
        let chunk = &chunks[j];
        proof {
            lemma_merged_vertices_len(chunks@, j as int);
            lemma_vertex_base_monotone(chunks@, j + 1, n as int);
        }
        let base = combined.vertices.len() as u32;
        let count = if chunk.vertices.len() <= i32::MAX as usize {
            chunk.vertices.len()
        } else {
            0
        };
        append_all(&mut combined.vertices, &chunk.vertices);
        append_all(&mut combined.normals, &chunk.normals);
        push_chunk_triangles(&mut combined.indices, &chunk.indices, count, base);
    }
    combined
}

/// Vertex `v` is used by some index of `ix`.
pub open spec fn is_used(ix: Seq<u32>, v: int) -> bool {
    exists|k: int| 0 <= k < ix.len() && ix[k] == v
}

/// Number of used vertices among `0..i`.
pub open spec fn used_before(ix: Seq<u32>, i: int) -> nat
    decreases i,
{
    if i <= 0 {
        0
    } else {
        used_before(ix, i - 1) + if is_used(ix, i - 1) {
            1nat
        } else {
            0nat
        }
    }
}

proof fn lemma_used_before_monotone(ix: Seq<u32>, i: int, j: int)
    requires
        0 <= i <= j,
    ensures
        used_before(ix, i) <= used_before(ix, j),
        used_before(ix, j) - used_before(ix, i) <= j - i,
        is_used(ix, i) && i < j ==> used_before(ix, i) < used_before(ix, j),
    decreases j - i,
{
    if i < j {
        lemma_used_before_monotone(ix, i, j - 1);
    }
}

/// Drops the vertices (and their normals) that no index uses, keeping the
/// order of the rest, and renumbers the indices to match.
pub fn remove_unused_vertices<V: Copy>(mesh: &mut CombinedMesh<V>)
    requires
        old(mesh).normals@.len() == old(mesh).vertices@.len(),
        old(mesh).vertices@.len() <= u32::MAX,
        forall|k: int| 0 <= k < old(mesh).indices@.len() ==> #[trigger] old(mesh).indices@[k] < old(
            mesh,
        ).vertices@.len(),
    ensures
        ({
            let ix = old(mesh).indices@;
            let n = old(mesh).vertices@.len() as int;
            &&& final(mesh).vertices@.len() == used_before(ix, n)
            &&& final(mesh).normals@.len() == used_before(ix, n)
            &&& forall|i: int|
                0 <= i < n && is_used(ix, i) ==> final(mesh).vertices@[used_before(ix, i) as int]
                    == old(mesh).vertices@[i] && final(mesh).normals@[used_before(ix, i) as int]
                    == old(mesh).normals@[i]
            &&& final(mesh).indices@.len() == ix.len()
            &&& forall|k: int|
                0 <= k < ix.len() ==> #[trigger] final(mesh).indices@[k] == used_before(
                    ix,
                    ix[k] as int,
                )
            &&& forall|k: int|
                0 <= k < ix.len() ==> #[trigger] final(mesh).indices@[k] < final(mesh).vertices@.len()
                    && final(mesh).vertices@[final(mesh).indices@[k] as int] == old(
                    mesh,
                ).vertices@[ix[k] as int]
        }),
{
    let ghost ix = mesh.indices@;
    let n = mesh.vertices.len();
    let mut used: Vec<bool> = Vec::new();
    let mut i: usize = 0;
    while i < n
        invariant
            i <= n,
            used@.len() == i,
            forall|v: int| 0 <= v < i ==> !#[trigger] used@[v],
        decreases n - i,
    {
        used.push(false);
        i = i + 1;
    }
    let m = mesh.indices.len();
    for k in 0..m
        invariant
            m == ix.len(),
            ix == old(mesh).indices@,
            mesh.indices@ == ix,
            mesh.vertices@ == old(mesh).vertices@,
            mesh.normals@ == old(mesh).normals@,
            mesh.vertices@.len() == n,
            used@.len() == n,
            forall|kk: int| 0 <= kk < ix.len() ==> #[trigger] ix[kk] < n,
            forall|v: int|
                0 <= v < n ==> (#[trigger] used@[v] <==> exists|kk: int| 0 <= kk < k && ix[kk] == v),
    {
        let idx = mesh.indices[k] as usize;
        used.set(idx, true);
        proof {
            assert forall|v: int| 0 <= v < n implies (#[trigger] used@[v] <==> exists|kk: int|
                0 <= kk < k + 1 && ix[kk] == v) by {
                if v == idx {
                    assert(ix[k as int] == v);
                }
            }
        }
    }
    let mut remap: Vec<u32> = Vec::new();
    let mut new_vertices: Vec<V> = Vec::new();
    let mut new_normals: Vec<V> = Vec::new();
    let mut new_index: u32 = 0;
    let mut i: usize = 0;
    while i < n
        invariant
            i <= n,
            n == mesh.vertices@.len(),
            n == mesh.normals@.len(),
            n <= u32::MAX,
            ix == old(mesh).indices@,
            mesh.indices@ == ix,
            mesh.vertices@ == old(mesh).vertices@,
            mesh.normals@ == old(mesh).normals@,
            used@.len() == n,
            forall|v: int| 0 <= v < n ==> (#[trigger] used@[v] <==> is_used(ix, v)),
            remap@.len() == i,
            new_index == used_before(ix, i as int),
            new_vertices@.len() == new_index,
            new_normals@.len() == new_index,
            forall|v: int| 0 <= v < i && is_used(ix, v) ==> #[trigger] remap@[v] == used_before(ix, v),
            forall|v: int|
                0 <= v < i && #[trigger] is_used(ix, v) ==> new_vertices@[used_before(ix, v) as int]
                    == mesh.vertices@[v] && new_normals@[used_before(ix, v) as int] == mesh.normals@[v],
        decreases n - i,
    {
        proof {
            lemma_used_before_monotone(ix, i as int, n as int);
            lemma_used_before_monotone(ix, 0, i as int);
        }
        let ghost r0 = remap@;
        let ghost v0 = new_vertices@;
        let ghost n0 = new_normals@;
        if used[i] {
            remap.push(new_index);
            new_vertices.push(mesh.vertices[i]);
            new_normals.push(mesh.normals[i]);
            new_index = new_index + 1;
        } else {
            remap.push(0);
        }
        proof {
            assert forall|v: int| 0 <= v < i + 1 && is_used(ix, v) implies #[trigger] remap@[v]
                == used_before(ix, v) by {
                if v < i {
                    assert(r0[v] == used_before(ix, v));
                }
            }
            assert forall|v: int| 0 <= v < i + 1 && #[trigger] is_used(ix, v) implies new_vertices@[used_before(
                ix,
                v,
            ) as int] == mesh.vertices@[v] && new_normals@[used_before(ix, v) as int]
                == mesh.normals@[v] by {
                if v < i {
                    lemma_used_before_monotone(ix, v, i as int);
                    assert(new_vertices@[used_before(ix, v) as int] == v0[used_before(ix, v) as int]);
                    assert(new_normals@[used_before(ix, v) as int] == n0[used_before(ix, v) as int]);
                }
            }
        }
        i = i + 1;
    }
    let ghost old_vertices = mesh.vertices@;
    let ghost old_normals = mesh.normals@;
    let mut new_indices: Vec<u32> = Vec::new();
    for k in 0..m
        invariant
            m == ix.len(),
            ix == old(mesh).indices@,
            mesh.indices@ == ix,
            mesh.vertices@ == old(mesh).vertices@,
            mesh.normals@ == old(mesh).normals@,
            n == mesh.vertices@.len(),
            new_vertices@.len() == used_before(ix, n as int),
            new_normals@.len() == used_before(ix, n as int),
            forall|v: int|
                0 <= v < n && #[trigger] is_used(ix, v) ==> new_vertices@[used_before(ix, v) as int]
                    == mesh.vertices@[v] && new_normals@[used_before(ix, v) as int] == mesh.normals@[v],
            remap@.len() == n,
            forall|kk: int| 0 <= kk < ix.len() ==> #[trigger] ix[kk] < n,
            forall|v: int| 0 <= v < n && is_used(ix, v) ==> #[trigger] remap@[v] == used_before(ix, v),
            new_indices@.len() == k,
            forall|kk: int| 0 <= kk < k ==> #[trigger] new_indices@[kk] == used_before(ix, ix[kk] as int),
    {
        proof {
            assert(ix[k as int] < n);
            assert(is_used(ix, ix[k as int] as int));
        }
        let old_idx = ix_at(&mesh.indices, k);
        new_indices.push(remap[old_idx as usize]);
    }
    proof {
        assert forall|k: int| 0 <= k < ix.len() implies #[trigger] new_indices@[k] < new_vertices@.len()
            && new_vertices@[new_indices@[k] as int] == old(mesh).vertices@[ix[k] as int] by {
            let v = ix[k] as int;
            assert(v < n);
            assert(is_used(ix, v));
            lemma_used_before_monotone(ix, v, n as int);
        }
    }
    mesh.vertices = new_vertices;
    mesh.normals = new_normals;
    mesh.indices = new_indices;
}

fn ix_at(v: &Vec<u32>, k: usize) -> (r: u32)
    requires
        k < v@.len(),
    ensures
        r == v@[k as int],
{
    v[k]
}

/// The triangle-index budget for decimation to `target_triangles`, or
/// `None` when decimation does nothing: no target, a target of zero, an
/// empty mesh, or a mesh already at or below the target.
pub fn decimation_target(index_count: usize, target_triangles: Option<usize>) -> (r: Option<usize>)
    requires
        target_triangles matches Some(t) ==> t * 3 <= usize::MAX,
    ensures
        r == (match target_triangles {
            None => None,
            Some(t) => if index_count == 0 || t == 0 || t * 3 >= index_count {
                None
            } else {
                Some((t * 3) as usize)
            },
        }),
{
    match target_triangles {
        None => None,
        Some(t) => {
            if index_count == 0 || t == 0 {
                return None;
            }
            let target_indices = t * 3;
            if target_indices >= index_count {
                None
            } else {
                Some(target_indices)
            }
        },
    }
}

/// A vertex position as the bit patterns of its three `f32` coordinates.
/// Two such values are equal exactly when their bytes are.
pub type VertexBits = [u32; 3];

/// Calls `meshopt::generate_vertex_remap` with the index buffer. As its
/// source and documentation show, the table has one entry per vertex; every
/// vertex that an index refers to gets a new position below the returned
/// count (an `unsigned int` counter there), every other vertex gets
/// `u32::MAX`, and each position below the count is the new position of
/// some referenced vertex. Two referenced vertices share a position exactly
/// when they are binary equal (a hash match and a byte comparison), which
/// for `VertexBits` is equality of the values.
#[verifier::external_body]
fn vertex_remap(vertices: &Vec<VertexBits>, indices: &Vec<u32>) -> (r: (usize, Vec<u32>))
    requires
        forall|k: int| 0 <= k < indices@.len() ==> #[trigger] indices@[k] < vertices@.len(),
    ensures
        r.1@.len() == vertices@.len(),
        r.0 <= vertices@.len(),
        r.0 <= u32::MAX,
        forall|a: int, b: int|
            0 <= a < vertices@.len() && 0 <= b < vertices@.len() && is_used(indices@, a) && is_used(
                indices@,
                b,
            ) ==> (#[trigger] r.1@[a] == #[trigger] r.1@[b] <==> vertices@[a] == vertices@[b]),
        forall|k: int| 0 <= k < indices@.len() ==> r.1@[#[trigger] indices@[k] as int] < r.0,
        forall|v: int|
            0 <= v < vertices@.len() && !is_used(indices@, v) ==> #[trigger] r.1@[v] == u32::MAX,
        forall|j: int| 0 <= j < r.0 ==> #[trigger] is_target(indices@, r.1@, j),
{
    meshopt::generate_vertex_remap(vertices.as_slice(), Some(indices.as_slice()))
}

/// Some vertex referred to by `ix` is sent to `j` by `remap`.
pub open spec fn is_target(ix: Seq<u32>, remap: Seq<u32>, j: int) -> bool {
    exists|k: int| 0 <= k < ix.len() && #[trigger] remap[ix[k] as int] == j
}

/// Some index refers past the end of `vertices`.
pub open spec fn has_bad_index(ix: Seq<u32>, vertex_count: int) -> bool {
    exists|k: int| 0 <= k < ix.len() && ix[k] >= vertex_count
}

/// `vertices` holds, at each new position `j`, the last old vertex that
/// `remap` sends to `j`.
pub open spec fn welded_vertices<V>(old_vertices: Seq<V>, remap: Seq<u32>, vertices: Seq<V>) -> bool {
    forall|j: int| 0 <= j < vertices.len() ==> #[trigger] has_source(old_vertices, remap, vertices, j)
}

/// Position `j` of `vertices` holds the last old vertex that `remap` sends there.
pub open spec fn has_source<V>(old_vertices: Seq<V>, remap: Seq<u32>, vertices: Seq<V>, j: int) -> bool {
    exists|i: int| #[trigger] last_source(old_vertices, remap, vertices, j, i)
}

/// Old vertex `i` is the last one that `remap` sends to `j`, and `vertices`
/// holds it there.
pub open spec fn last_source<V>(old_vertices: Seq<V>, remap: Seq<u32>, vertices: Seq<V>, j: int, i: int) -> bool {
    &&& 0 <= i < old_vertices.len()
    &&& remap[i] == j
    &&& vertices[j] == old_vertices[i]
    &&& forall|i2: int| i < i2 < old_vertices.len() ==> remap[i2] != j
}

/// Renumbers the indices through `remap` and keeps, at each new position
/// below `unique`, the last old vertex that `remap` sends there.
fn apply_remap<V: Copy>(mesh: &mut CombinedMesh<V>, remap: &Vec<u32>, unique: usize)
    requires
        0 < unique <= old(mesh).vertices@.len(),
        unique <= u32::MAX,
        remap@.len() == old(mesh).vertices@.len(),
        forall|k: int| 0 <= k < old(mesh).indices@.len() ==> #[trigger] old(mesh).indices@[k]
            < old(mesh).vertices@.len(),
        forall|k: int|
            0 <= k < old(mesh).indices@.len() ==> remap@[#[trigger] old(mesh).indices@[k] as int]
                < unique,
        forall|v: int|
            0 <= v < old(mesh).vertices@.len() && !is_used(old(mesh).indices@, v) ==> #[trigger] remap@[v]
                == u32::MAX,
        forall|j: int| 0 <= j < unique ==> #[trigger] is_target(old(mesh).indices@, remap@, j),
        forall|a: int, b: int|
            0 <= a < old(mesh).vertices@.len() && 0 <= b < old(mesh).vertices@.len() && is_used(
                old(mesh).indices@,
                a,
            ) && is_used(old(mesh).indices@, b) && #[trigger] remap@[a] == #[trigger] remap@[b]
                ==> old(mesh).vertices@[a] == old(mesh).vertices@[b],
    ensures
        final(mesh).normals@ == old(mesh).normals@,
        final(mesh).indices@.len() == old(mesh).indices@.len(),
        forall|k: int|
            0 <= k < old(mesh).indices@.len() ==> #[trigger] final(mesh).indices@[k] == remap@[old(
                mesh,
            ).indices@[k] as int],
        final(mesh).vertices@.len() == unique,
        welded_vertices(old(mesh).vertices@, remap@, final(mesh).vertices@),
        forall|k: int|
            0 <= k < old(mesh).indices@.len() ==> final(mesh).vertices@[#[trigger] final(mesh).indices@[k] as int]
                == old(mesh).vertices@[old(mesh).indices@[k] as int],
{
    let vc = mesh.vertices.len();
    let m = mesh.indices.len();
    let ghost ov = mesh.vertices@;
    let ghost oi = mesh.indices@;
    let mut new_indices: Vec<u32> = Vec::new();
    for k in 0..m
        invariant
            m == oi.len(),
            mesh.indices@ == oi,
            remap@.len() == vc,
            forall|kk: int| 0 <= kk < oi.len() ==> #[trigger] oi[kk] < vc,
            new_indices@.len() == k,
            forall|kk: int| 0 <= kk < k ==> #[trigger] new_indices@[kk] == remap@[oi[kk] as int],
    {
        let old_idx = mesh.indices[k];
        assert(oi[k as int] < vc);
        new_indices.push(remap[old_idx as usize]);
    }
    let mut new_vertices: Vec<V> = Vec::new();
    let first = mesh.vertices[0];
    for j in 0..unique
        invariant
            new_vertices@.len() == j,
    {
        new_vertices.push(first);
    }
    for i in 0..vc
        invariant
            vc == ov.len(),
            mesh.vertices@ == ov,
            remap@.len() == vc,
            new_vertices@.len() == unique,
            forall|j: int|
                0 <= j < unique && (exists|i0: int| 0 <= i0 < i && remap@[i0] == j) ==> exists|i1: int|
                    0 <= i1 < i && remap@[i1] == j && #[trigger] new_vertices@[j] == ov[i1]
                        && forall|i2: int| i1 < i2 < i ==> remap@[i2] != j,
    {
        let j = remap[i];
        let ghost before = new_vertices@;
        if (j as usize) < unique {
            new_vertices.set(j as usize, mesh.vertices[i]);
        }
        proof {
            assert forall|jj: int|
                0 <= jj < unique && (exists|i0: int| 0 <= i0 < i + 1 && remap@[i0] == jj) implies exists|i1: int|
                0 <= i1 < i + 1 && remap@[i1] == jj && #[trigger] new_vertices@[jj] == ov[i1]
                    && forall|i2: int| i1 < i2 < i + 1 ==> remap@[i2] != jj by {
                if jj == j {
                    assert(new_vertices@[jj] == ov[i as int]);
                } else {
                    let i0 = choose|i0: int| 0 <= i0 < i + 1 && remap@[i0] == jj;
                    assert(i0 < i);
                    let i1 = choose|i1: int|
                        0 <= i1 < i && remap@[i1] == jj && #[trigger] before[jj] == ov[i1]
                            && forall|i2: int| i1 < i2 < i ==> remap@[i2] != jj;
                    assert(new_vertices@[jj] == before[jj]);
                }
            }
        }
    }
    proof {
        assert forall|jj: int| 0 <= jj < new_vertices@.len() implies exists|i: int|
            0 <= i < ov.len() && remap@[i] == jj && #[trigger] new_vertices@[jj] == ov[i]
                && forall|i2: int| i < i2 < ov.len() ==> remap@[i2] != jj by {
            assert(is_target(oi, remap@, jj));
            let k = choose|k: int| 0 <= k < oi.len() && #[trigger] remap@[oi[k] as int] == jj;
            assert(oi[k] < vc);
        }
        assert forall|jj: int| 0 <= jj < new_vertices@.len() implies #[trigger] has_source(
            ov,
            remap@,
            new_vertices@,
            jj,
        ) by {
            let i1 = choose|i: int|
                0 <= i < ov.len() && remap@[i] == jj && #[trigger] new_vertices@[jj] == ov[i]
                    && forall|i2: int| i < i2 < ov.len() ==> remap@[i2] != jj;
            assert(last_source(ov, remap@, new_vertices@, jj, i1));
        }
        assert(welded_vertices(ov, remap@, new_vertices@));
        assert forall|k: int| 0 <= k < oi.len() implies new_vertices@[#[trigger] new_indices@[k] as int]
            == ov[oi[k] as int] by {
            let v = oi[k] as int;
            assert(v < vc);
            assert(is_used(oi, v));
            let j = remap@[v] as int;
            assert(new_indices@[k] == remap@[v]);
            assert(has_source(ov, remap@, new_vertices@, j));
            let i = choose|i: int| #[trigger] last_source(ov, remap@, new_vertices@, j, i);
            if !is_used(oi, i) {
                assert(remap@[i] == u32::MAX);
            }
            assert(remap@[i] == remap@[v]);
        }
    }
    let ghost nv = new_vertices@;
    mesh.vertices = new_vertices;
    mesh.indices = new_indices;
    assert(mesh.vertices@ == nv);
}

/// Merges duplicate vertices into one position each: two used vertices
/// share a new position exactly when their bit patterns are equal, so that
/// every index still reaches a vertex equal to the one it reached before and
/// no two remaining vertices are equal. Renumbers the indices through the
/// remap table, which is returned with the number of distinct positions so
/// that the caller can combine the normals. Does nothing and returns `None`
/// when the mesh has no vertices or no indices, or an index refers past the
/// vertices.
pub fn weld_vertices(mesh: &mut CombinedMesh<VertexBits>) -> (r: Option<(usize, Vec<u32>)>)
    ensures
        r is None <==> (old(mesh).vertices@.len() == 0 || old(mesh).indices@.len() == 0
            || has_bad_index(old(mesh).indices@, old(mesh).vertices@.len() as int)),
        final(mesh).normals@ == old(mesh).normals@,
        r is None ==> final(mesh).vertices@ == old(mesh).vertices@ && final(mesh).indices@ == old(
            mesh,
        ).indices@,
        r matches Some((u, remap)) ==> {
            let ov = old(mesh).vertices@;
            let oi = old(mesh).indices@;
            &&& 0 < u <= ov.len()
            &&& remap@.len() == ov.len()
            &&& forall|k: int| 0 <= k < oi.len() ==> remap@[#[trigger] oi[k] as int] < u
            &&& forall|v: int| 0 <= v < ov.len() && !is_used(oi, v) ==> #[trigger] remap@[v] == u32::MAX
            &&& forall|j: int| 0 <= j < u ==> #[trigger] is_target(oi, remap@, j)
            &&& final(mesh).indices@.len() == oi.len()
            &&& forall|k: int|
                0 <= k < oi.len() ==> #[trigger] final(mesh).indices@[k] == remap@[oi[k] as int]
            &&& final(mesh).vertices@.len() == u
            &&& welded_vertices(ov, remap@, final(mesh).vertices@)
            &&& forall|a: int, b: int|
                0 <= a < ov.len() && 0 <= b < ov.len() && is_used(oi, a) && is_used(oi, b)
                    ==> (#[trigger] remap@[a] == #[trigger] remap@[b] <==> ov[a] == ov[b])
            &&& forall|j1: int, j2: int|
                0 <= j1 < j2 < u ==> #[trigger] final(mesh).vertices@[j1]
                    != #[trigger] final(mesh).vertices@[j2]
            &&& forall|k: int|
                0 <= k < oi.len() ==> final(mesh).vertices@[#[trigger] final(mesh).indices@[k] as int]
                    == ov[oi[k] as int]
        },
{
    let vc = mesh.vertices.len();
    let m = mesh.indices.len();
    if vc == 0 || m == 0 {
        return None;
    }
    for k in 0..m
        invariant
            m == mesh.indices@.len(),
            vc == mesh.vertices@.len(),
            forall|kk: int| 0 <= kk < k ==> #[trigger] mesh.indices@[kk] < vc,
    {
        if mesh.indices[k] as usize >= vc {
            return None;
        }
    }
    let ghost ov = mesh.vertices@;
    let ghost oi = mesh.indices@;
    let (unique, remap) = vertex_remap(&mesh.vertices, &mesh.indices);
    proof {
        assert(remap@[oi[0] as int] < unique);
    }
    if unique == 0 {
        return None;
    }
    apply_remap(mesh, &remap, unique);
    proof {
        let nv = mesh.vertices@;
        assert forall|j1: int, j2: int| 0 <= j1 < j2 < unique implies #[trigger] nv[j1] != #[trigger] nv[j2] by {
            assert(has_source(ov, remap@, nv, j1));
            assert(has_source(ov, remap@, nv, j2));
            let i1 = choose|i: int| #[trigger] last_source(ov, remap@, nv, j1, i);
            let i2 = choose|i: int| #[trigger] last_source(ov, remap@, nv, j2, i);
            if !is_used(oi, i1) {
                assert(remap@[i1] == u32::MAX);
            }
            if !is_used(oi, i2) {
                assert(remap@[i2] == u32::MAX);
            }
            if nv[j1] == nv[j2] {
                assert(ov[i1] == ov[i2]);
                assert(remap@[i1] == remap@[i2]);
            }
        }
    }
    Some((unique, remap))
}

} // verus!
