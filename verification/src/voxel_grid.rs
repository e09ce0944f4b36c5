//! Chunk coordinates, local voxel indexing and sparse per-chunk storage.
use std::collections::HashMap;
use vstd::prelude::*;
use vstd::std_specs::iter::IteratorSpec;

use crate::tile_data::{
    grid_key, grid_pos, key_pos, lemma_key_pos_roundtrip, lemma_pos_key_injective,
    lemma_pos_key_roundtrip, pos_key, valid_key,
};

verus! {

/// Integer coordinate of a chunk in the chunk lattice.
#[derive(Clone, Copy, Debug, PartialEq, Eq, Hash, Structural)]
pub struct ChunkCoord {
    pub x: i32,
    pub y: i32,
    pub z: i32,
}

impl ChunkCoord {
    pub fn new(x: i32, y: i32, z: i32) -> (c: Self)
        ensures
            c.x == x && c.y == y && c.z == z,
    {
        ChunkCoord { x, y, z }
    }
}

/// Flat index of voxel `(lx, ly, lz)` in a chunk of `resolution` voxels per axis,
/// each coordinate clamped to the last voxel first.
pub open spec fn spec_local_index(lx: int, ly: int, lz: int, resolution: int) -> int {
    let cx = if lx < resolution - 1 { lx } else { resolution - 1 };
    let cy = if ly < resolution - 1 { ly } else { resolution - 1 };
    let cz = if lz < resolution - 1 { lz } else { resolution - 1 };
    cx + cy * resolution + cz * resolution * resolution
}

/// Flattens a local voxel position (x fastest, then y, then z), clamping each
/// coordinate into the chunk.
pub fn local_index(local_x: u32, local_y: u32, local_z: u32, resolution: u32) -> (idx: u32)
    requires
        resolution >= 1,
        resolution * resolution * resolution <= u32::MAX,
    ensures
        idx == spec_local_index(local_x as int, local_y as int, local_z as int, resolution as int),
        idx < resolution * resolution * resolution,
{
    let r = resolution;
    let lx = if local_x < r - 1 { local_x } else { r - 1 };
    let ly = if local_y < r - 1 { local_y } else { r - 1 };
    let lz = if local_z < r - 1 { local_z } else { r - 1 };
    proof {
        assert(lx + ly * r + lz * r * r <= (r - 1) + (r - 1) * r + (r - 1) * r * r) by (nonlinear_arith)
            requires
                lx <= r - 1,
                ly <= r - 1,
                lz <= r - 1,
                r >= 1,
        ;
        assert((r - 1) + (r - 1) * r + (r - 1) * r * r == r * r * r - 1) by (nonlinear_arith);
        assert(ly * r <= (r - 1) * r) by (nonlinear_arith)
            requires
                ly <= r - 1,
                r >= 1,
        ;
        assert(lz * r * r <= (r - 1) * r * r) by (nonlinear_arith)
            requires
                lz <= r - 1,
                r >= 1,
        ;
        assert(r * r <= r * r * r) by (nonlinear_arith)
            requires
                r >= 1,
        ;
        assert(lz * r <= r * r) by (nonlinear_arith)
            requires
                lz <= r - 1,
                r >= 1,
        ;
    }
    lx + ly * r + lz * r * r
}

/// Sparse per-chunk storage keyed by local voxel index.
#[derive(Clone, Debug)]
pub struct SparseChunkData<T> {
    pub data: HashMap<u32, T>,
}

impl<T> View for SparseChunkData<T> {
    type V = Map<u32, T>;

    open spec fn view(&self) -> Map<u32, T> {
        self.data@
    }
}

impl<T> Default for SparseChunkData<T> {
    fn default() -> (d: Self)
        ensures
            d@ == Map::<u32, T>::empty(),
    {
        SparseChunkData::new()
    }
}

impl<T> SparseChunkData<T> {
    pub fn new() -> (d: Self)
        ensures
            d@ == Map::<u32, T>::empty(),
    {
        SparseChunkData { data: HashMap::new() }
    }

    pub fn set(&mut self, local_index: u32, value: T)
        ensures
            final(self)@ == old(self)@.insert(local_index, value),
    {
        broadcast use vstd::std_specs::hash::group_hash_axioms;

        let _ = self.data.insert(local_index, value);
    }

    pub fn get(&self, local_index: u32) -> (r: Option<&T>)
        ensures
            r == (if self@.contains_key(local_index) {
                Some(&self@[local_index])
            } else {
                None
            }),
    {
        broadcast use vstd::std_specs::hash::group_hash_axioms;

        self.data.get(&local_index)
    }

    pub fn remove(&mut self, local_index: u32) -> (r: Option<T>)
        ensures
            final(self)@ == old(self)@.remove(local_index),
            r == (if old(self)@.contains_key(local_index) {
                Some(old(self)@[local_index])
            } else {
                None
            }),
    {
        broadcast use vstd::std_specs::hash::group_hash_axioms;

        self.data.remove(&local_index)
    }

    pub fn is_empty(&self) -> (b: bool)
        ensures
            b == (self@.len() == 0),
    {
        broadcast use vstd::std_specs::hash::group_hash_axioms;

        proof {
            if self@.len() == 0 {
                assert(self@.dom() =~= Set::<u32>::empty());
            } else {
                assert(self@.dom().finite());
                if self@.dom() =~= Set::<u32>::empty() {
                }
            }
        }
        self.data.is_empty()
    }

    pub fn len(&self) -> (n: usize)
        ensures
            n == self@.len(),
    {
        broadcast use vstd::std_specs::hash::group_hash_axioms;

        self.data.len()
    }
}

/// The lattice position of a chunk coordinate.
pub open spec fn coord_pos(c: ChunkCoord) -> (i32, i32, i32) {
    (c.x, c.y, c.z)
}

/// The chunk coordinate at a lattice position.
pub open spec fn pos_coord(p: (i32, i32, i32)) -> ChunkCoord {
    ChunkCoord { x: p.0, y: p.1, z: p.2 }
}

/// A map from chunk coordinates to values.
#[derive(Debug)]
pub struct CoordMap<V> {
    entries: HashMap<u128, V>,
}

impl<V> View for CoordMap<V> {
    type V = Map<ChunkCoord, V>;

    /// The values by chunk coordinate.
    closed spec fn view(&self) -> Map<ChunkCoord, V> {
        Map::new(
            |c: ChunkCoord| self.entries@.contains_key(pos_key(coord_pos(c))),
            |c: ChunkCoord| self.entries@[pos_key(coord_pos(c))],
        )
    }
}

impl<V: Clone> Clone for CoordMap<V> {
    fn clone(&self) -> (r: Self)
        ensures
            r@ == self@,
    {
        proof {
            use_type_invariant(self);
        }
        let r = CoordMap { entries: self.entries.clone() };
        assert(r@ =~= self@);
        r
    }
}

fn coord_key(c: &ChunkCoord) -> (k: u128)
    ensures
        k == pos_key(coord_pos(*c)),
        valid_key(k),
{
    proof {
        lemma_pos_key_roundtrip(coord_pos(*c));
    }
    grid_key(c.x, c.y, c.z)
}

proof fn lemma_coord_key_injective(a: ChunkCoord, b: ChunkCoord)
    ensures
        pos_key(coord_pos(a)) == pos_key(coord_pos(b)) <==> a == b,
{
    lemma_pos_key_injective(coord_pos(a), coord_pos(b));
}

impl<V> CoordMap<V> {
    /// Every stored key encodes a lattice position.
    #[verifier::type_invariant]
    spec fn keys_valid(self) -> bool {
        forall|k: u128| #[trigger] self.entries@.contains_key(k) ==> valid_key(k)
    }

    proof fn lemma_view_dom(&self)
        requires
            self.keys_valid(),
        ensures
            self@.dom() == self.entries@.dom().map(|k: u128| pos_coord(key_pos(k))),
            self@.dom().finite(),
            self@.dom().len() == self.entries@.dom().len(),
    {
        broadcast use vstd::std_specs::hash::group_hash_axioms;

        let f = |k: u128| pos_coord(key_pos(k));
        let d = self.entries@.dom();
        assert forall|c: ChunkCoord| #[trigger] self@.dom().contains(c) implies d.map(f).contains(c) by {
            lemma_pos_key_roundtrip(coord_pos(c));
            assert(f(pos_key(coord_pos(c))) == c);
        }
        assert forall|c: ChunkCoord| #[trigger] d.map(f).contains(c) implies self@.dom().contains(c) by {
            let k = choose|k: u128| d.contains(k) && f(k) == c;
            lemma_key_pos_roundtrip(k);
        }
        assert(self@.dom() =~= d.map(f));
        assert forall|k1: u128, k2: u128|
            d.contains(k1) && d.contains(k2) && #[trigger] f(k1) == #[trigger] f(k2) implies k1
            == k2 by {
            lemma_key_pos_roundtrip(k1);
            lemma_key_pos_roundtrip(k2);
        }
        vstd::set_lib::lemma_map_size(d, self@.dom(), f);
    }

    pub fn new() -> (m: Self)
        ensures
            m@ == Map::<ChunkCoord, V>::empty(),
    {
        let m = CoordMap { entries: HashMap::new() };
        assert(m@ =~= Map::<ChunkCoord, V>::empty());
        m
    }

    /// Stores `value` under `coord`, replacing what was there.
    pub fn insert(&mut self, coord: ChunkCoord, value: V)
        ensures
            final(self)@ == old(self)@.insert(coord, value),
    {
        broadcast use vstd::std_specs::hash::group_hash_axioms;

        proof {
            use_type_invariant(&*self);
        }
        let k = coord_key(&coord);
        let mut entries = HashMap::new();
        std::mem::swap(&mut entries, &mut self.entries);
        let _ = entries.insert(k, value);
        self.entries = entries;
        proof {
            assert forall|c: ChunkCoord| true implies (pos_key(coord_pos(c)) == k <==> c == coord) by {
                lemma_coord_key_injective(c, coord);
            }
            assert(self@ =~= old(self)@.insert(coord, value));
        }
    }

    /// The value stored under `coord`, if any.
    pub fn get(&self, coord: &ChunkCoord) -> (r: Option<&V>)
        ensures
            r == (if self@.contains_key(*coord) {
                Some(&self@[*coord])
            } else {
                None
            }),
    {
        broadcast use vstd::std_specs::hash::group_hash_axioms;

        let k = coord_key(coord);
        self.entries.get(&k)
    }

    pub fn contains_key(&self, coord: &ChunkCoord) -> (b: bool)
        ensures
            b == self@.contains_key(*coord),
    {
        broadcast use vstd::std_specs::hash::group_hash_axioms;

        let k = coord_key(coord);
        self.entries.contains_key(&k)
    }

    /// Removes and returns the value under `coord`.
    pub fn remove(&mut self, coord: &ChunkCoord) -> (r: Option<V>)
        ensures
            final(self)@ == old(self)@.remove(*coord),
            r == (if old(self)@.contains_key(*coord) {
                Some(old(self)@[*coord])
            } else {
                None
            }),
    {
        broadcast use vstd::std_specs::hash::group_hash_axioms;

        proof {
            use_type_invariant(&*self);
        }
        let k = coord_key(coord);
        let mut entries = HashMap::new();
        std::mem::swap(&mut entries, &mut self.entries);
        let r = entries.remove(&k);
        self.entries = entries;
        proof {
            assert forall|c: ChunkCoord| true implies (pos_key(coord_pos(c)) == k <==> c == *coord) by {
                lemma_coord_key_injective(c, *coord);
            }
            assert(self@ =~= old(self)@.remove(*coord));
        }
        r
    }

    /// Removes every entry.
    pub fn clear(&mut self)
        ensures
            final(self)@ == Map::<ChunkCoord, V>::empty(),
    {
        broadcast use vstd::std_specs::hash::group_hash_axioms;

        self.entries = HashMap::new();
        assert(self@ =~= Map::<ChunkCoord, V>::empty());
    }

    pub fn len(&self) -> (n: usize)
        ensures
            n == self@.len(),
    {
        broadcast use vstd::std_specs::hash::group_hash_axioms;

        proof {
            use_type_invariant(self);
            self.lemma_view_dom();
        }
        self.entries.len()
    }

    /// Every stored coordinate, each once, in no particular order.
    pub fn keys(&self) -> (v: Vec<ChunkCoord>)
        ensures
            v@.no_duplicates(),
            v@.to_set() == self@.dom(),
    {
        broadcast use vstd::std_specs::hash::group_hash_axioms;

        proof {
            use_type_invariant(self);
        }
        let mut v: Vec<ChunkCoord> = Vec::new();
        let ghost sq = vstd::std_specs::hash::spec_hash_map_iter(&self.entries).remaining();
        for (k, _t) in it: self.entries.iter()
            invariant
                self.keys_valid(),
                it.seq() == sq,
                v@.len() == it.index(),
                forall|i: int| 0 <= i < v@.len() ==> v@[i] == pos_coord(key_pos(*#[trigger] sq[i].0)),
        {
            proof {
                assert(self.entries@.contains_key(*k));
            }
            let (x, y, z) = grid_pos(*k);
            v.push(ChunkCoord { x, y, z });
        }
        proof {
            assert(sq.len() == v@.len());
            assert forall|i: int, j: int| 0 <= i < v@.len() && 0 <= j < v@.len() && i != j implies v@[i]
                != v@[j] by {
                let ki = *sq[i].0;
                let kj = *sq[j].0;
                assert(self.entries@.contains_key(ki));
                assert(self.entries@.contains_key(kj));
                lemma_key_pos_roundtrip(ki);
                lemma_key_pos_roundtrip(kj);
                if ki == kj {
                    assert(self.entries@[ki] == *sq[i].1);
                    assert(self.entries@[kj] == *sq[j].1);
                    assert(sq[i] == sq[j]);
                }
            }
            assert forall|c: ChunkCoord| v@.to_set().contains(c) <==> self@.dom().contains(c) by {
                if v@.to_set().contains(c) {
                    let i = choose|i: int| 0 <= i < v@.len() && v@[i] == c;
                    let ki = *sq[i].0;
                    assert(self.entries@.contains_key(ki));
                    lemma_key_pos_roundtrip(ki);
                }
                if self@.dom().contains(c) {
                    let k = pos_key(coord_pos(c));
                    lemma_pos_key_roundtrip(coord_pos(c));
                    assert(self.entries@.contains_key(k));
                    assert(sq.contains((&k, &self.entries@[k])));
                    let i = choose|i: int| 0 <= i < sq.len() && sq[i] == (&k, &self.entries@[k]);
                    assert(*sq[i].0 == k);
                    assert(v@[i] == pos_coord(key_pos(k)));
                    assert(v@[i] == c);
                }
            }
            assert(v@.to_set() =~= self@.dom());
        }
        v
    }
}

/// Per-voxel values over all chunks, stored sparsely: a chunk is kept only
/// while it holds at least one value.
#[derive(Debug)]
pub struct ChunkedLayer<T> {
    chunks: CoordMap<SparseChunkData<T>>,
}

impl<T> View for ChunkedLayer<T> {
    type V = Map<(ChunkCoord, u32), T>;

    /// The stored values by chunk and local voxel index.
    closed spec fn view(&self) -> Map<(ChunkCoord, u32), T> {
        Map::new(
            |p: (ChunkCoord, u32)| self.chunks@.contains_key(p.0) && self.chunks@[p.0]@.contains_key(p.1),
            |p: (ChunkCoord, u32)| self.chunks@[p.0]@[p.1],
        )
    }
}

impl<T: Clone> Clone for ChunkedLayer<T> {
    fn clone(&self) -> (r: Self)
        ensures
            r@ == self@,
    {
        proof {
            use_type_invariant(self);
        }
        let r = ChunkedLayer { chunks: self.chunks.clone() };
        assert(r@ =~= self@);
        r
    }
}

/// The entries of `chunks` whose chunk is among `keys`.
pub open spec fn entries_of<T>(chunks: Map<ChunkCoord, SparseChunkData<T>>, keys: Seq<ChunkCoord>) -> Set<(ChunkCoord, u32)> {
    Set::new(
        |p: (ChunkCoord, u32)|
            keys.contains(p.0) && chunks.contains_key(p.0) && chunks[p.0]@.contains_key(p.1),
    )
}

/// The entries of one chunk.
pub open spec fn chunk_entries<T>(c: ChunkCoord, d: SparseChunkData<T>) -> Set<(ChunkCoord, u32)> {
    d@.dom().map(|i: u32| (c, i))
}

impl<T> ChunkedLayer<T> {
    /// No chunk is stored empty.
    #[verifier::type_invariant]
    spec fn no_empty_chunks(self) -> bool {
        forall|c: ChunkCoord| #[trigger] self.chunks@.contains_key(c) ==> self.chunks@[c]@.len() > 0
    }

    pub fn new() -> (l: Self)
        ensures
            l@ == Map::<(ChunkCoord, u32), T>::empty(),
    {
        let l = ChunkedLayer { chunks: CoordMap::new() };
        assert(l@ =~= Map::<(ChunkCoord, u32), T>::empty());
        l
    }

    /// Stores `value` for voxel `local_index` of `chunk`.
    pub fn set(&mut self, chunk: ChunkCoord, local_index: u32, value: T)
        ensures
            final(self)@ == old(self)@.insert((chunk, local_index), value),
    {
        proof {
            use_type_invariant(&*self);
        }
        let mut taken = ChunkedLayer::new();
        std::mem::swap(&mut taken, self);
        let ChunkedLayer { mut chunks } = taken;
        let ghost before = chunks@;
        let mut data = match chunks.remove(&chunk) {
            Some(d) => d,
            None => SparseChunkData::new(),
        };
        data.set(local_index, value);
        proof {
            broadcast use vstd::std_specs::hash::group_hash_axioms;
            assert(data@.contains_key(local_index));
            assert(data@.dom().finite());
            if data@.len() == 0 {
                assert(data@.dom().contains(local_index));
            }
        }
        chunks.insert(chunk, data);
        *self = ChunkedLayer { chunks };
        assert(self@ =~= old(self)@.insert((chunk, local_index), value));
    }

    /// The value stored for voxel `local_index` of `chunk`, if any.
    pub fn get(&self, chunk: &ChunkCoord, local_index: u32) -> (r: Option<&T>)
        ensures
            r == (if self@.contains_key((*chunk, local_index)) {
                Some(&self@[(*chunk, local_index)])
            } else {
                None
            }),
    {
        match self.chunks.get(chunk) {
            Some(data) => data.get(local_index),
            None => None,
        }
    }

    /// Removes and returns the value of voxel `local_index` of `chunk`; a
    /// chunk left without values is dropped.
    pub fn remove(&mut self, chunk: &ChunkCoord, local_index: u32) -> (r: Option<T>)
        ensures
            final(self)@ == old(self)@.remove((*chunk, local_index)),
            r == (if old(self)@.contains_key((*chunk, local_index)) {
                Some(old(self)@[(*chunk, local_index)])
            } else {
                None
            }),
    {
        proof {
            use_type_invariant(&*self);
        }
        let mut taken = ChunkedLayer::new();
        std::mem::swap(&mut taken, self);
        let ChunkedLayer { mut chunks } = taken;
        let r = match chunks.remove(chunk) {
            Some(mut data) => {
                let r = data.remove(local_index);
                if !data.is_empty() {
                    chunks.insert(*chunk, data);
                } else {
                    proof {
                        assert(data@.dom() =~= Set::<u32>::empty()) by {
                            broadcast use vstd::std_specs::hash::group_hash_axioms;
                            assert(data@.dom().finite());
                        }
                    }
                }
                r
            },
            None => None,
        };
        *self = ChunkedLayer { chunks };
        assert(self@ =~= old(self)@.remove((*chunk, local_index)));
        r
    }

    /// The chunks that hold at least one value, each once.
    pub fn modified_chunks(&self) -> (v: Vec<ChunkCoord>)
        ensures
            v@.no_duplicates(),
            forall|c: ChunkCoord|
                #[trigger] v@.contains(c) <==> exists|i: u32| self@.contains_key((c, i)),
    {
        proof {
            use_type_invariant(self);
        }
        let v = self.chunks.keys();
        proof {
            assert forall|c: ChunkCoord| #[trigger] v@.contains(c) <==> exists|i: u32|
                self@.contains_key((c, i)) by {
                broadcast use vstd::std_specs::hash::group_hash_axioms;
                assert(v@.to_set().contains(c) == v@.contains(c));
                if v@.contains(c) {
                    assert(self.chunks@.contains_key(c));
                    let d = self.chunks@[c];
                    assert(d@.len() > 0);
                    assert(d@.dom().finite());
                    if d@.dom() =~= Set::<u32>::empty() {
                    }
                    let i = d@.dom().choose();
                    assert(self@.contains_key((c, i)));
                }
            }
        }
        v
    }

    /// Number of stored values over all chunks.
    pub fn total_modifications(&self) -> (n: usize)
        requires
            self@.dom().len() <= usize::MAX,
        ensures
            self@.dom().finite(),
            n == self@.len(),
    {
        proof {
            use_type_invariant(self);
        }
        let keys = self.chunks.keys();
        let ghost cm = self.chunks@;
        let k = keys.len();
        let mut total: usize = 0;
        proof {
            assert forall|c: ChunkCoord| keys@.contains(c) implies cm.contains_key(c) by {
                assert(keys@.to_set().contains(c));
            }
            lemma_entries_finite(cm, keys@, k as int);
            assert(keys@.take(k as int) =~= keys@);
            assert(entries_of(cm, keys@) =~= self@.dom()) by {
                assert forall|p: (ChunkCoord, u32)| entries_of(cm, keys@).contains(p)
                    <==> self@.dom().contains(p) by {
                    if self@.dom().contains(p) {
                        assert(keys@.to_set().contains(p.0));
                    }
                }
            }
            assert(entries_of(cm, keys@.take(0)) =~= Set::<(ChunkCoord, u32)>::empty());
        }
        for j in 0..k
            invariant
                k == keys@.len(),
                keys@.no_duplicates(),
                forall|c: ChunkCoord| keys@.contains(c) ==> cm.contains_key(c),
                cm == self.chunks@,
                entries_of(cm, keys@.take(j as int)).finite(),
                total == entries_of(cm, keys@.take(j as int)).len(),
                keys@.take(k as int) == keys@,
                entries_of(cm, keys@).finite(),
                entries_of(cm, keys@) == self@.dom(),
                self@.dom().len() <= usize::MAX,
        {
            let c = keys[j];
            proof {
                assert(keys@.contains(keys@[j as int]));
            }
            let data = self.chunks.get(&c).unwrap();
            proof {
                lemma_entries_step(cm, keys@, j as int);
                lemma_entries_prefix_subset(cm, keys@, j + 1, k as int);
                vstd::set_lib::lemma_len_subset(
                    entries_of(cm, keys@.take(j + 1)),
                    entries_of(cm, keys@),
                );
            }
            total = total + data.len();
        }
        total
    }
}

/// The entries of one more chunk extend the prefix sets by that chunk's entries.
proof fn lemma_entries_step<T>(cm: Map<ChunkCoord, SparseChunkData<T>>, keys: Seq<ChunkCoord>, j: int)
    requires
        0 <= j < keys.len(),
        keys.no_duplicates(),
        forall|c: ChunkCoord| keys.contains(c) ==> cm.contains_key(c),
        entries_of(cm, keys.take(j)).finite(),
    ensures
        entries_of(cm, keys.take(j + 1)).finite(),
        entries_of(cm, keys.take(j + 1)).len() == entries_of(cm, keys.take(j)).len()
            + cm[keys[j]]@.len(),
{
    broadcast use vstd::std_specs::hash::group_hash_axioms;
    broadcast use vstd::seq_lib::group_seq_properties;

    let c = keys[j];
    assert(keys.contains(c));
    let d = cm[c];
    let prev = entries_of(cm, keys.take(j));
    let next = entries_of(cm, keys.take(j + 1));
    let ce = chunk_entries(c, d);
    let f = |i: u32| (c, i);
    assert(d@.dom().finite());
    assert forall|a: u32, b: u32| d@.dom().contains(a) && d@.dom().contains(b) && #[trigger] f(a)
        == #[trigger] f(b) implies a == b by {}
    vstd::set_lib::lemma_map_size(d@.dom(), ce, f);
    assert(keys.take(j + 1) =~= keys.take(j).push(c));
    assert forall|p: (ChunkCoord, u32)| next.contains(p) <==> (prev + ce).contains(p) by {
        if p.0 == c && cm[c]@.contains_key(p.1) {
            assert(f(p.1) == p);
        }
        if ce.contains(p) {
            let i = choose|i: u32| d@.dom().contains(i) && f(i) == p;
        }
        assert(keys.take(j + 1).contains(p.0) <==> keys.take(j).contains(p.0) || p.0 == c);
    }
    assert(next =~= prev + ce);
    assert forall|p: (ChunkCoord, u32)| !(prev.contains(p) && ce.contains(p)) by {
        if prev.contains(p) && ce.contains(p) {
            let i = choose|i: u32| d@.dom().contains(i) && f(i) == p;
            let jj = choose|jj: int| 0 <= jj < j && #[trigger] keys.take(j)[jj] == p.0;
            assert(keys[jj] == keys[j]);
        }
    }
    assert(prev.disjoint(ce));
    vstd::set_lib::lemma_set_disjoint_lens(prev, ce);
}

/// Every prefix of the chunk list has finitely many entries.
proof fn lemma_entries_finite<T>(cm: Map<ChunkCoord, SparseChunkData<T>>, keys: Seq<ChunkCoord>, j: int)
    requires
        0 <= j <= keys.len(),
        keys.no_duplicates(),
        forall|c: ChunkCoord| keys.contains(c) ==> cm.contains_key(c),
    ensures
        entries_of(cm, keys.take(j)).finite(),
    decreases j,
{
    if j == 0 {
        assert(entries_of(cm, keys.take(0)) =~= Set::<(ChunkCoord, u32)>::empty());
    } else {
        lemma_entries_finite(cm, keys, j - 1);
        lemma_entries_step(cm, keys, j - 1);
    }
}

/// A shorter prefix has no more entries than a longer one.
proof fn lemma_entries_prefix_subset<T>(
    cm: Map<ChunkCoord, SparseChunkData<T>>,
    keys: Seq<ChunkCoord>,
    i: int,
    j: int,
)
    requires
        0 <= i <= j <= keys.len(),
    ensures
        entries_of(cm, keys.take(i)).subset_of(entries_of(cm, keys.take(j))),
{
    assert forall|p: (ChunkCoord, u32)| entries_of(cm, keys.take(i)).contains(p) implies entries_of(
        cm,
        keys.take(j),
    ).contains(p) by {
        let a = choose|a: int| 0 <= a < i && #[trigger] keys.take(i)[a] == p.0;
        assert(keys.take(j)[a] == p.0);
    }
}

/// A read after a write gives the value written, and leaves every other
/// voxel as it was; a read after a removal finds nothing.
pub proof fn lemma_layer_read_after_write<T>(
    m: Map<(ChunkCoord, u32), T>,
    chunk: ChunkCoord,
    local_index: u32,
    value: T,
    other: (ChunkCoord, u32),
)
    ensures
        m.insert((chunk, local_index), value).contains_key((chunk, local_index)),
        m.insert((chunk, local_index), value)[(chunk, local_index)] == value,
        !m.remove((chunk, local_index)).contains_key((chunk, local_index)),
        other != (chunk, local_index) ==> m.insert((chunk, local_index), value).contains_key(other)
            == m.contains_key(other) && m.insert((chunk, local_index), value)[other] == m[other],
        other != (chunk, local_index) ==> m.remove((chunk, local_index)).contains_key(other)
            == m.contains_key(other) && m.remove((chunk, local_index))[other] == m[other],
{
}

} // verus!
