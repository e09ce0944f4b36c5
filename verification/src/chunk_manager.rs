//! Chunk lifecycle bookkeeping for streamed terrain: which chunks are known,
//! in which state, at which level of detail, and which must be (re)meshed,
//! transitioned between detail levels, or unloaded.
//!
//! The caller measures distances, sends mesh requests and receives results;
//! this module decides what to request and records what happened.
use vstd::prelude::*;

use crate::voxel_grid::{ChunkCoord, CoordMap};

verus! {

/// Most mesh results taken in per update.
pub const DEFAULT_MAX_RESULTS_PER_UPDATE: usize = 64;

/// Lifecycle state of a chunk.
#[derive(Clone, Copy, Debug, PartialEq, Eq, Structural)]
pub enum ChunkState {
    /// Known but without a current mesh; will be requested.
    Unloaded,
    /// A mesh request is in flight.
    Pending,
    /// A mesh arrived and waits to be shown.
    Ready,
    /// The mesh is shown.
    Active,
    /// Out of view; its mesh can be freed.
    MarkedForUnload,
}

/// What is known about one chunk.
#[derive(Clone, Copy, Debug, PartialEq, Eq, Structural)]
pub struct Chunk {
    pub state: ChunkState,
    pub lod_level: u8,
    pub last_access_frame: u64,
    pub mesh_instance_id: Option<i64>,
}

impl Chunk {
    /// An unloaded chunk at the given level of detail.
    pub fn new(lod_level: u8) -> (c: Self)
        ensures
            c == (Chunk {
                state: ChunkState::Unloaded,
                lod_level,
                last_access_frame: 0,
                mesh_instance_id: None,
            }),
    {
        Chunk { state: ChunkState::Unloaded, lod_level, last_access_frame: 0, mesh_instance_id: None }
    }
}

/// A chunk must be (re)requested: it is unknown, unloaded, or at another
/// level of detail without a request in flight.
pub open spec fn spec_needs_request(chunks: Map<ChunkCoord, Chunk>, coord: ChunkCoord, lod: u8) -> bool {
    if chunks.contains_key(coord) {
        let c = chunks[coord];
        c.state == ChunkState::Unloaded || (c.lod_level != lod && c.state != ChunkState::Pending)
    } else {
        true
    }
}

/// The neighbor of `coord` in direction `side`: -x, +x, -y, +y, -z, +z.
pub open spec fn side_neighbor(coord: ChunkCoord, side: int) -> ChunkCoord {
    if side == 0 {
        ChunkCoord { x: (coord.x - 1) as i32, ..coord }
    } else if side == 1 {
        ChunkCoord { x: (coord.x + 1) as i32, ..coord }
    } else if side == 2 {
        ChunkCoord { y: (coord.y - 1) as i32, ..coord }
    } else if side == 3 {
        ChunkCoord { y: (coord.y + 1) as i32, ..coord }
    } else if side == 4 {
        ChunkCoord { z: (coord.z - 1) as i32, ..coord }
    } else {
        ChunkCoord { z: (coord.z + 1) as i32, ..coord }
    }
}

/// The neighbor on `side` is wanted at a finer level than `lod`.
pub open spec fn finer_on_side(desired: Map<ChunkCoord, u8>, coord: ChunkCoord, lod: u8, side: int) -> bool {
    let n = side_neighbor(coord, side);
    desired.contains_key(n) && desired[n] < lod
}

/// Flag bit `1 << side` when the neighbor on `side` is finer.
pub open spec fn side_bit(desired: Map<ChunkCoord, u8>, coord: ChunkCoord, lod: u8, side: int) -> u8 {
    if finer_on_side(desired, coord, lod, side) {
        if side == 0 {
            1u8
        } else if side == 1 {
            2u8
        } else if side == 2 {
            4u8
        } else if side == 3 {
            8u8
        } else if side == 4 {
            16u8
        } else {
            32u8
        }
    } else {
        0u8
    }
}

/// Faces of a chunk at `lod` that border a finer neighbor, as bits
/// -x, +x, -y, +y, -z, +z from the lowest; none at the finest level.
pub open spec fn spec_transition_sides(desired: Map<ChunkCoord, u8>, coord: ChunkCoord, lod: u8) -> u8 {
    if lod == 0 {
        0
    } else {
        side_bit(desired, coord, lod, 0) | side_bit(desired, coord, lod, 1) | side_bit(
            desired,
            coord,
            lod,
            2,
        ) | side_bit(desired, coord, lod, 3) | side_bit(desired, coord, lod, 4) | side_bit(
            desired,
            coord,
            lod,
            5,
        )
    }
}

/// A chunk coordinate is meshed for a map of `w` x `h` x `d` chunks: the map
/// plus one guard layer on every side but the top, so that walls and floor
/// have samples on both sides.
pub open spec fn spec_in_map_bounds(coord: ChunkCoord, w: i32, h: i32, d: i32) -> bool {
    -1 <= coord.x <= w && -1 <= coord.z <= d && -1 <= coord.y < h
}

/// The chunks that a state change touches.
pub open spec fn with_state(
    chunks: Map<ChunkCoord, Chunk>,
    selected: spec_fn(ChunkCoord, Chunk) -> bool,
    state: ChunkState,
) -> Map<ChunkCoord, Chunk> {
    Map::new(
        |c: ChunkCoord| chunks.contains_key(c),
        |c: ChunkCoord|
            if selected(c, chunks[c]) {
                Chunk { state, ..chunks[c] }
            } else {
                chunks[c]
            },
    )
}

/// The chunk at `c` is known and ready or shown.
pub open spec fn is_shown_or_ready(chunks: Map<ChunkCoord, Chunk>, c: ChunkCoord) -> bool {
    chunks.contains_key(c) && (chunks[c].state == ChunkState::Active || chunks[c].state
        == ChunkState::Ready)
}

/// Chunk bookkeeping for a terrain of `map_width` x `map_height` x `map_depth` chunks.
pub struct ChunkManager {
    chunks: CoordMap<Chunk>,
    current_frame: u64,
    max_results_per_update: usize,
    map_width: i32,
    map_height: i32,
    map_depth: i32,
}

impl View for ChunkManager {
    type V = Map<ChunkCoord, Chunk>;

    /// The known chunks.
    closed spec fn view(&self) -> Map<ChunkCoord, Chunk> {
        self.chunks@
    }
}

impl ChunkManager {
    /// Number of the current update.
    pub closed spec fn frame(&self) -> u64 {
        self.current_frame
    }

    /// Chunk counts of the map along x, y and z.
    pub closed spec fn map_dims(&self) -> (i32, i32, i32) {
        (self.map_width, self.map_height, self.map_depth)
    }

    /// Most mesh results to take in per update.
    pub closed spec fn results_cap(&self) -> usize {
        self.max_results_per_update
    }

    /// No chunks, at frame zero, taking at most
    /// `DEFAULT_MAX_RESULTS_PER_UPDATE` results per update.
    pub fn new(map_width: i32, map_height: i32, map_depth: i32) -> (m: Self)
        ensures
            m@ == Map::<ChunkCoord, Chunk>::empty(),
            m.frame() == 0,
            m.map_dims() == (map_width, map_height, map_depth),
            m.results_cap() == DEFAULT_MAX_RESULTS_PER_UPDATE,
    {
        ChunkManager {
            chunks: CoordMap::new(),
            current_frame: 0,
            max_results_per_update: DEFAULT_MAX_RESULTS_PER_UPDATE,
            map_width,
            map_height,
            map_depth,
        }
    }

    pub fn current_frame(&self) -> (f: u64)
        ensures
            f == self.frame(),
    {
        self.current_frame
    }

    pub fn max_results_per_update(&self) -> (n: usize)
        ensures
            n == self.results_cap(),
    {
        self.max_results_per_update
    }

    /// Starts a new update.
    pub fn advance_frame(&mut self)
        requires
            old(self).frame() < u64::MAX,
        ensures
            final(self).frame() == old(self).frame() + 1,
            final(self)@ == old(self)@,
            final(self).map_dims() == old(self).map_dims(),
            final(self).results_cap() == old(self).results_cap(),
    {
        self.current_frame = self.current_frame + 1;
    }

    /// The chunk at `coord`, if known.
    pub fn chunk(&self, coord: &ChunkCoord) -> (r: Option<Chunk>)
        ensures
            r == (if self@.contains_key(*coord) {
                Some(self@[*coord])
            } else {
                None
            }),
    {
        match self.chunks.get(coord) {
            Some(c) => Some(*c),
            None => None,
        }
    }

    /// Records `chunk` at `coord`, replacing what was known.
    pub fn insert_chunk(&mut self, coord: ChunkCoord, chunk: Chunk)
        ensures
            final(self)@ == old(self)@.insert(coord, chunk),
            final(self).frame() == old(self).frame(),
            final(self).map_dims() == old(self).map_dims(),
            final(self).results_cap() == old(self).results_cap(),
    {
        self.chunks.insert(coord, chunk);
    }

    /// Whether `coord` lies in the map or its guard layer.
    pub fn in_map_bounds(&self, coord: &ChunkCoord) -> (b: bool)
        ensures
            b == spec_in_map_bounds(*coord, self.map_dims().0, self.map_dims().1, self.map_dims().2),
    {
        !(coord.x < -1 || coord.x > self.map_width) && !(coord.z < -1 || coord.z > self.map_depth)
            && !(coord.y < -1 || coord.y >= self.map_height)
    }

    /// Whether the chunk at `coord` must be requested at `desired_lod`.
    pub fn needs_request(&self, coord: &ChunkCoord, desired_lod: u8) -> (b: bool)
        ensures
            b == spec_needs_request(self@, *coord, desired_lod),
    {
        match self.chunks.get(coord) {
            Some(chunk) => chunk.state == ChunkState::Unloaded || (chunk.lod_level != desired_lod
                && chunk.state != ChunkState::Pending),
            None => true,
        }
    }

    /// Faces of the chunk at `coord`, meshed at `lod`, that need transition
    /// cells because the neighbor there is wanted at a finer level.
    pub fn compute_transition_sides(&self, coord: &ChunkCoord, lod: u8, desired: &CoordMap<u8>) -> (sides:
        u8)
        requires
            lod > 0 ==> i32::MIN < coord.x < i32::MAX,
            lod > 0 ==> i32::MIN < coord.y < i32::MAX,
            lod > 0 ==> i32::MIN < coord.z < i32::MAX,
        ensures
            sides == spec_transition_sides(desired@, *coord, lod),
    {
        if lod == 0 {
            return 0;
        }
        let neighbors: [(ChunkCoord, u8); 6] = [
            (ChunkCoord::new(coord.x - 1, coord.y, coord.z), 1u8),
            (ChunkCoord::new(coord.x + 1, coord.y, coord.z), 2u8),
            (ChunkCoord::new(coord.x, coord.y - 1, coord.z), 4u8),
            (ChunkCoord::new(coord.x, coord.y + 1, coord.z), 8u8),
            (ChunkCoord::new(coord.x, coord.y, coord.z - 1), 16u8),
            (ChunkCoord::new(coord.x, coord.y, coord.z + 1), 32u8),
        ];
        let mut sides: u8 = 0;
        let mut k: usize = 0;
        assert(0u8 | 0u8 | 0u8 | 0u8 | 0u8 | 0u8 == 0u8) by (bit_vector);
        while k < 6
            invariant
                k <= 6,
                lod != 0,
                forall|j: int|
                    0 <= j < 6 ==> (#[trigger] neighbors@[j]).0 == side_neighbor(*coord, j),
                neighbors@[0].1 == 1u8 && neighbors@[1].1 == 2u8 && neighbors@[2].1 == 4u8
                    && neighbors@[3].1 == 8u8 && neighbors@[4].1 == 16u8 && neighbors@[5].1 == 32u8,
                sides == (if k > 0 { side_bit(desired@, *coord, lod, 0) } else { 0u8 }) | (if k
                    > 1 { side_bit(desired@, *coord, lod, 1) } else { 0u8 }) | (if k > 2 {
                    side_bit(desired@, *coord, lod, 2)
                } else {
                    0u8
                }) | (if k > 3 { side_bit(desired@, *coord, lod, 3) } else { 0u8 }) | (if k > 4 {
                    side_bit(desired@, *coord, lod, 4)
                } else {
                    0u8
                }) | (if k > 5 { side_bit(desired@, *coord, lod, 5) } else { 0u8 }),
            decreases 6 - k,
        {
            let (n, flag) = neighbors[k];
            let bit: u8 = match desired.get(&n) {
                Some(neighbor_lod) => if *neighbor_lod < lod {
                    flag
                } else {
                    0
                },
                None => 0,
            };
            assert(bit == side_bit(desired@, *coord, lod, k as int));
            let ghost prev = sides;
            sides = sides | bit;
            proof {
                let b0 = if k > 0 { side_bit(desired@, *coord, lod, 0) } else { 0u8 };
                let b1 = if k > 1 { side_bit(desired@, *coord, lod, 1) } else { 0u8 };
                let b2 = if k > 2 { side_bit(desired@, *coord, lod, 2) } else { 0u8 };
                let b3 = if k > 3 { side_bit(desired@, *coord, lod, 3) } else { 0u8 };
                let b4 = if k > 4 { side_bit(desired@, *coord, lod, 4) } else { 0u8 };
                let b5 = if k > 5 { side_bit(desired@, *coord, lod, 5) } else { 0u8 };
                assert(prev == b0 | b1 | b2 | b3 | b4 | b5);
                assert(b0 | b1 | b2 | b3 | b4 | b5 | bit == b0 | b1 | b2 | b3 | b4 | b5 | bit)
                    by (bit_vector);
                if k == 0 {
                    assert(0u8 | 0u8 | 0u8 | 0u8 | 0u8 | 0u8 | bit == bit | 0u8 | 0u8 | 0u8 | 0u8
                        | 0u8) by (bit_vector);
                } else if k == 1 {
                    assert(b0 | 0u8 | 0u8 | 0u8 | 0u8 | 0u8 | bit == b0 | bit | 0u8 | 0u8 | 0u8
                        | 0u8) by (bit_vector);
                } else if k == 2 {
                    assert(b0 | b1 | 0u8 | 0u8 | 0u8 | 0u8 | bit == b0 | b1 | bit | 0u8 | 0u8
                        | 0u8) by (bit_vector);
                } else if k == 3 {
                    assert(b0 | b1 | b2 | 0u8 | 0u8 | 0u8 | bit == b0 | b1 | b2 | bit | 0u8
                        | 0u8) by (bit_vector);
                } else if k == 4 {
                    assert(b0 | b1 | b2 | b3 | 0u8 | 0u8 | bit == b0 | b1 | b2 | b3 | bit
                        | 0u8) by (bit_vector);
                } else {
                    assert(b0 | b1 | b2 | b3 | b4 | 0u8 | bit == b0 | b1 | b2 | b3 | b4
                        | bit) by (bit_vector);
                }
            }
            k = k + 1;
        }
        sides
    }

    /// Records that a mesh request for `coord` at `desired_lod` was sent: a
    /// known chunk becomes pending and is touched; an unknown one is added as
    /// pending at that level.
    pub fn record_request(&mut self, coord: ChunkCoord, desired_lod: u8)
        ensures
            final(self)@ == old(self)@.insert(
                coord,
                if old(self)@.contains_key(coord) {
                    Chunk {
                        state: ChunkState::Pending,
                        last_access_frame: old(self).frame(),
                        ..old(self)@[coord]
                    }
                } else {
                    Chunk {
                        state: ChunkState::Pending,
                        lod_level: desired_lod,
                        last_access_frame: old(self).frame(),
                        mesh_instance_id: None,
                    }
                },
            ),
            final(self).frame() == old(self).frame(),
            final(self).map_dims() == old(self).map_dims(),
            final(self).results_cap() == old(self).results_cap(),
    {
        let updated = match self.chunks.get(&coord) {
            Some(c) => Chunk { state: ChunkState::Pending, last_access_frame: self.current_frame, ..*c },
            None => {
                let mut chunk = Chunk::new(desired_lod);
                chunk.state = ChunkState::Pending;
                chunk.last_access_frame = self.current_frame;
                chunk
            },
        };
        self.chunks.insert(coord, updated);
    }

    /// Marks a known chunk as accessed in the current update.
    pub fn touch(&mut self, coord: &ChunkCoord)
        ensures
            final(self)@ == (if old(self)@.contains_key(*coord) {
                old(self)@.insert(
                    *coord,
                    Chunk { last_access_frame: old(self).frame(), ..old(self)@[*coord] },
                )
            } else {
                old(self)@
            }),
            final(self).frame() == old(self).frame(),
            final(self).map_dims() == old(self).map_dims(),
            final(self).results_cap() == old(self).results_cap(),
    {
        match self.chunks.get(coord) {
            Some(c) => {
                let updated = Chunk { last_access_frame: self.current_frame, ..*c };
                self.chunks.insert(*coord, updated);
            },
            None => {},
        }
    }

    /// Every known chunk that is not desired and has no request in flight is
    /// marked for unloading.
    pub fn mark_distant_for_unload(&mut self, desired: &CoordMap<u8>)
        ensures
            final(self)@ == with_state(
                old(self)@,
                |c: ChunkCoord, ch: Chunk| !desired@.contains_key(c) && ch.state != ChunkState::Pending,
                ChunkState::MarkedForUnload,
            ),
            final(self).frame() == old(self).frame(),
            final(self).map_dims() == old(self).map_dims(),
            final(self).results_cap() == old(self).results_cap(),
    {
        let keys = self.chunks.keys();
        let ghost start = self.chunks@;
        let ghost sel = |c: ChunkCoord, ch: Chunk|
            !desired@.contains_key(c) && ch.state != ChunkState::Pending;
        let n = keys.len();
        for i in 0..n
            invariant
                n == keys@.len(),
                keys@.no_duplicates(),
                keys@.to_set() == start.dom(),
                start == old(self)@,
                sel == (|c: ChunkCoord, ch: Chunk|
                    !desired@.contains_key(c) && ch.state != ChunkState::Pending),
                self.frame() == old(self).frame(),
                self.map_dims() == old(self).map_dims(),
                self.results_cap() == old(self).results_cap(),
                self.chunks@.dom() == start.dom(),
                forall|c: ChunkCoord|
                    #[trigger] start.contains_key(c) ==> self.chunks@[c] == (if (exists|j: int|
                        0 <= j < i && keys@[j] == c) && sel(c, start[c]) {
                        Chunk { state: ChunkState::MarkedForUnload, ..start[c] }
                    } else {
                        start[c]
                    }),
        {
            let coord = keys[i];
            proof {
                assert(keys@.to_set().contains(keys@[i as int]));
            }
            let c = *self.chunks.get(&coord).unwrap();
            if !desired.contains_key(&coord) && c.state != ChunkState::Pending {
                self.chunks.insert(coord, Chunk { state: ChunkState::MarkedForUnload, ..c });
            }
            proof {
                assert forall|cc: ChunkCoord| #[trigger] start.contains_key(cc) implies self.chunks@[cc]
                    == (if (exists|j: int| 0 <= j < i + 1 && keys@[j] == cc) && sel(cc, start[cc]) {
                    Chunk { state: ChunkState::MarkedForUnload, ..start[cc] }
                } else {
                    start[cc]
                }) by {
                    if cc == coord {
                        assert forall|j: int| 0 <= j < i implies keys@[j] != cc by {
                            assert(keys@[j] != keys@[i as int]);
                        }
                        assert(c == start[cc]);
                    } else {
                        if exists|j: int| 0 <= j < i + 1 && keys@[j] == cc {
                            let j = choose|j: int| 0 <= j < i + 1 && keys@[j] == cc;
                            assert(j != i);
                        }
                    }
                }
                assert(self.chunks@.dom() =~= start.dom());
            }
        }
        proof {
            assert forall|c: ChunkCoord| #[trigger] start.contains_key(c) implies exists|j: int|
                0 <= j < n && keys@[j] == c by {
                assert(keys@.to_set().contains(c));
            }
            assert(self@ =~= with_state(start, sel, ChunkState::MarkedForUnload));
        }
    }

    /// Records a finished mesh for `coord`: a known chunk becomes ready at
    /// the mesh's level of detail.
    pub fn apply_result(&mut self, coord: &ChunkCoord, lod_level: u8)
        ensures
            final(self)@ == (if old(self)@.contains_key(*coord) {
                old(self)@.insert(
                    *coord,
                    Chunk { state: ChunkState::Ready, lod_level, ..old(self)@[*coord] },
                )
            } else {
                old(self)@
            }),
            final(self).frame() == old(self).frame(),
            final(self).map_dims() == old(self).map_dims(),
            final(self).results_cap() == old(self).results_cap(),
    {
        match self.chunks.get(coord) {
            Some(c) => {
                let updated = Chunk { state: ChunkState::Ready, lod_level, ..*c };
                self.chunks.insert(*coord, updated);
            },
            None => {},
        }
    }

    /// The chunks marked for unloading, each once with its mesh instance.
    pub fn get_unload_candidates(&self) -> (v: Vec<(ChunkCoord, Option<i64>)>)
        ensures
            v@.no_duplicates(),
            forall|c: ChunkCoord, id: Option<i64>|
                #[trigger] v@.contains((c, id)) <==> (self@.contains_key(c) && self@[c].state
                    == ChunkState::MarkedForUnload && self@[c].mesh_instance_id == id),
    {
        let keys = self.chunks.keys();
        let n = keys.len();
        let mut v: Vec<(ChunkCoord, Option<i64>)> = Vec::new();
        for i in 0..n
            invariant
                n == keys@.len(),
                keys@.no_duplicates(),
                keys@.to_set() == self@.dom(),
                v@.no_duplicates(),
                forall|c: ChunkCoord, id: Option<i64>|
                    #[trigger] v@.contains((c, id)) <==> (exists|j: int| 0 <= j < i && keys@[j] == c)
                        && self@[c].state == ChunkState::MarkedForUnload && self@[c].mesh_instance_id
                        == id,
        {
            let coord = keys[i];
            proof {
                assert(keys@.to_set().contains(keys@[i as int]));
            }
            let c = *self.chunks.get(&coord).unwrap();
            let ghost before = v@;
            if c.state == ChunkState::MarkedForUnload {
                proof {
                    assert forall|j: int| 0 <= j < before.len() implies before[j] != (coord, c.mesh_instance_id) by {
                        assert(before.contains(before[j]));
                        let (c2, id2) = before[j];
                        if c2 == coord {
                            let jj = choose|jj: int| 0 <= jj < i && keys@[jj] == c2;
                            assert(keys@[jj] == keys@[i as int]);
                        }
                    }
                }
                v.push((coord, c.mesh_instance_id));
            }
            proof {
                assert forall|cc: ChunkCoord, id: Option<i64>| #[trigger] v@.contains((cc, id)) <==> (
                exists|j: int| 0 <= j < i + 1 && keys@[j] == cc) && self@[cc].state
                    == ChunkState::MarkedForUnload && self@[cc].mesh_instance_id == id by {
                    if v@.contains((cc, id)) && !before.contains((cc, id)) {
                        let j = choose|j: int| 0 <= j < v@.len() && v@[j] == (cc, id);
                        assert(j == before.len());
                    }
                    if before.contains((cc, id)) {
                        let j = choose|j: int| 0 <= j < before.len() && before[j] == (cc, id);
                        assert(v@[j] == (cc, id));
                    }
                    if (exists|j: int| 0 <= j < i + 1 && keys@[j] == cc) && self@[cc].state
                        == ChunkState::MarkedForUnload && self@[cc].mesh_instance_id == id {
                        let j = choose|j: int| 0 <= j < i + 1 && keys@[j] == cc;
                        if j == i {
                            assert(v@[v@.len() - 1] == (cc, id));
                        }
                    }
                }
                assert forall|a: int, b: int| 0 <= a < b < v@.len() implies v@[a] != v@[b] by {
                    if b == before.len() {
                        assert(v@[a] == before[a]);
                    } else {
                        assert(v@[a] == before[a] && v@[b] == before[b]);
                    }
                }
            }
        }
        proof {
            assert forall|c: ChunkCoord, id: Option<i64>| #[trigger] v@.contains((c, id)) <==> (
            self@.contains_key(c) && self@[c].state == ChunkState::MarkedForUnload
                && self@[c].mesh_instance_id == id) by {
                if self@.contains_key(c) {
                    assert(keys@.to_set().contains(c));
                }
                if exists|j: int| 0 <= j < n && keys@[j] == c {
                    let j = choose|j: int| 0 <= j < n && keys@[j] == c;
                    assert(keys@.to_set().contains(keys@[j]));
                }
            }
        }
        v
    }

    /// Forgets the chunk at `coord`.
    pub fn remove_chunk(&mut self, coord: &ChunkCoord)
        ensures
            final(self)@ == old(self)@.remove(*coord),
            final(self).frame() == old(self).frame(),
            final(self).map_dims() == old(self).map_dims(),
            final(self).results_cap() == old(self).results_cap(),
    {
        let _ = self.chunks.remove(coord);
    }

    /// Records that the mesh of a known chunk is shown as `instance_id`.
    pub fn mark_chunk_active(&mut self, coord: &ChunkCoord, instance_id: i64)
        ensures
            final(self)@ == (if old(self)@.contains_key(*coord) {
                old(self)@.insert(
                    *coord,
                    Chunk {
                        state: ChunkState::Active,
                        mesh_instance_id: Some(instance_id),
                        ..old(self)@[*coord]
                    },
                )
            } else {
                old(self)@
            }),
            final(self).frame() == old(self).frame(),
            final(self).map_dims() == old(self).map_dims(),
            final(self).results_cap() == old(self).results_cap(),
    {
        match self.chunks.get(coord) {
            Some(c) => {
                let updated = Chunk {
                    state: ChunkState::Active,
                    mesh_instance_id: Some(instance_id),
                    ..*c
                };
                self.chunks.insert(*coord, updated);
            },
            None => {},
        }
    }

    /// Forgets every chunk.
    pub fn clear_all_chunks(&mut self)
        ensures
            final(self)@ == Map::<ChunkCoord, Chunk>::empty(),
            final(self).frame() == old(self).frame(),
            final(self).map_dims() == old(self).map_dims(),
            final(self).results_cap() == old(self).results_cap(),
    {
        self.chunks.clear();
    }

    /// Marks chunks for regeneration after an edit: each listed chunk that is
    /// ready or shown becomes unloaded, so that the next update requests it
    /// again. Returns how many chunks changed.
    pub fn mark_chunks_dirty(&mut self, coords: &[ChunkCoord]) -> (count: usize)
        ensures
            final(self)@ == with_state(
                old(self)@,
                |c: ChunkCoord, ch: Chunk|
                    coords@.contains(c) && (ch.state == ChunkState::Active || ch.state
                        == ChunkState::Ready),
                ChunkState::Unloaded,
            ),
            count == coords@.to_set().filter(|c: ChunkCoord| is_shown_or_ready(old(self)@, c)).len(),
            final(self).frame() == old(self).frame(),
            final(self).map_dims() == old(self).map_dims(),
            final(self).results_cap() == old(self).results_cap(),
    {
        let ghost start = self.chunks@;
        let ghost dirty = |c: ChunkCoord| is_shown_or_ready(start, c);
        let mut count: usize = 0;
        let n = coords.len();
        proof {
            assert(coords@.take(0).to_set().filter(dirty) =~= Set::<ChunkCoord>::empty());
        }
        for i in 0..n
            invariant
                n == coords@.len(),
                start == old(self)@,
                dirty == (|c: ChunkCoord| is_shown_or_ready(start, c)),
                self.frame() == old(self).frame(),
                self.map_dims() == old(self).map_dims(),
                self.results_cap() == old(self).results_cap(),
                self.chunks@.dom() == start.dom(),
                forall|c: ChunkCoord|
                    #[trigger] start.contains_key(c) ==> self.chunks@[c] == (if coords@.take(
                        i as int,
                    ).contains(c) && dirty(c) {
                        Chunk { state: ChunkState::Unloaded, ..start[c] }
                    } else {
                        start[c]
                    }),
                count == coords@.take(i as int).to_set().filter(dirty).len(),
                count <= i,
        {
            let coord = coords[i];
            let ghost prefix = coords@.take(i as int);
            let ghost next = coords@.take(i + 1);
            assert(next == prefix.push(coord));
            let ghost seen = prefix.contains(coord);
            match self.chunks.get(&coord) {
                Some(c) => {
                    proof {
                        assert(start.contains_key(coord));
                        assert(self.chunks@[coord] == *c);
                    }
                    if c.state == ChunkState::Active || c.state == ChunkState::Ready {
                        proof {
                            assert(self.chunks@[coord] == (if prefix.contains(coord) && dirty(coord) {
                                Chunk { state: ChunkState::Unloaded, ..start[coord] }
                            } else {
                                start[coord]
                            }));
                            assert(!(prefix.contains(coord) && dirty(coord)));
                            assert(start[coord].state == c.state);
                            assert(is_shown_or_ready(start, coord));
                            assert(dirty(coord));
                            assert(!seen);
                        }
                        let updated = Chunk { state: ChunkState::Unloaded, ..*c };
                        self.chunks.insert(coord, updated);
                        count = count + 1;
                    }
                },
                None => {},
            }
            proof {
                broadcast use vstd::seq_lib::group_seq_properties;
                assert(next.to_set() =~= prefix.to_set().insert(coord));
                let f_prev = prefix.to_set().filter(dirty);
                let f_next = next.to_set().filter(dirty);
                if dirty(coord) && !seen {
                    assert(f_next =~= f_prev.insert(coord));
                    assert(!f_prev.contains(coord));
                } else {
                    assert(f_next =~= f_prev);
                }
                assert forall|c: ChunkCoord| #[trigger] start.contains_key(c) implies self.chunks@[c]
                    == (if next.contains(c) && dirty(c) {
                    Chunk { state: ChunkState::Unloaded, ..start[c] }
                } else {
                    start[c]
                }) by {
                    assert(next.contains(c) <==> prefix.contains(c) || c == coord);
                }
                assert(self.chunks@.dom() =~= start.dom());
            }
        }
        proof {
            assert(coords@.take(n as int) =~= coords@);
            assert(self@ =~= with_state(
                start,
                |c: ChunkCoord, ch: Chunk|
                    coords@.contains(c) && (ch.state == ChunkState::Active || ch.state
                        == ChunkState::Ready),
                ChunkState::Unloaded,
            ));
        }
        count
    }
}

/// A chunk with a request in flight is not requested again, at any level.
pub proof fn lemma_pending_not_rerequested(chunks: Map<ChunkCoord, Chunk>, coord: ChunkCoord, lod: u8)
    requires
        chunks.contains_key(coord),
        chunks[coord].state == ChunkState::Pending,
    ensures
        !spec_needs_request(chunks, coord, lod),
{
}

/// After an edit marks a ready or shown chunk dirty, the next update
/// requests it again, whatever level it is wanted at.
pub proof fn lemma_dirty_chunk_rerequested(
    chunks: Map<ChunkCoord, Chunk>,
    coords: Seq<ChunkCoord>,
    coord: ChunkCoord,
    lod: u8,
)
    requires
        chunks.contains_key(coord),
        chunks[coord].state == ChunkState::Active || chunks[coord].state == ChunkState::Ready,
        coords.contains(coord),
    ensures
        spec_needs_request(
            with_state(
                chunks,
                |c: ChunkCoord, ch: Chunk|
                    coords.contains(c) && (ch.state == ChunkState::Active || ch.state
                        == ChunkState::Ready),
                ChunkState::Unloaded,
            ),
            coord,
            lod,
        ),
{
}

/// A chunk that is desired, or has a request in flight, keeps its state when
/// distant chunks are marked for unloading.
pub proof fn lemma_unload_spares_desired_and_pending(
    chunks: Map<ChunkCoord, Chunk>,
    desired: Map<ChunkCoord, u8>,
    coord: ChunkCoord,
)
    requires
        chunks.contains_key(coord),
        desired.contains_key(coord) || chunks[coord].state == ChunkState::Pending,
    ensures
        with_state(
            chunks,
            |c: ChunkCoord, ch: Chunk| !desired.contains_key(c) && ch.state != ChunkState::Pending,
            ChunkState::MarkedForUnload,
        )[coord] == chunks[coord],
{
}

/// The finest level never needs transition faces.
pub proof fn lemma_no_transition_at_finest(desired: Map<ChunkCoord, u8>, coord: ChunkCoord)
    ensures
        spec_transition_sides(desired, coord, 0) == 0,
{
}

proof fn lemma_six_flags(b0: u8, b1: u8, b2: u8, b3: u8, b4: u8, b5: u8)
    by (bit_vector)
    requires
        b0 == 0 || b0 == 1,
        b1 == 0 || b1 == 2,
        b2 == 0 || b2 == 4,
        b3 == 0 || b3 == 8,
        b4 == 0 || b4 == 16,
        b5 == 0 || b5 == 32,
    ensures
        ((b0 | b1 | b2 | b3 | b4 | b5) & 1u8 != 0) == (b0 != 0),
        ((b0 | b1 | b2 | b3 | b4 | b5) & 2u8 != 0) == (b1 != 0),
        ((b0 | b1 | b2 | b3 | b4 | b5) & 4u8 != 0) == (b2 != 0),
        ((b0 | b1 | b2 | b3 | b4 | b5) & 8u8 != 0) == (b3 != 0),
        ((b0 | b1 | b2 | b3 | b4 | b5) & 16u8 != 0) == (b4 != 0),
        ((b0 | b1 | b2 | b3 | b4 | b5) & 32u8 != 0) == (b5 != 0),
        (b0 | b1 | b2 | b3 | b4 | b5) < 64,
{
}

/// Above the finest level, bit 1, 2, 4, 8, 16, 32 of a chunk's transition
/// sides is set exactly when its face neighbour at x - 1, x + 1, y - 1,
/// y + 1, z - 1, z + 1 respectively is wanted at a finer level, and no
/// other bit is set.
pub proof fn lemma_transition_side_bits(desired: Map<ChunkCoord, u8>, coord: ChunkCoord, lod: u8)
    requires
        lod > 0,
        i32::MIN < coord.x < i32::MAX,
        i32::MIN < coord.y < i32::MAX,
        i32::MIN < coord.z < i32::MAX,
    ensures
        (spec_transition_sides(desired, coord, lod) & 1u8 != 0) <==> (desired.contains_key(ChunkCoord { x: (coord.x - 1) as i32, y: coord.y, z: coord.z })
            && desired[ChunkCoord { x: (coord.x - 1) as i32, y: coord.y, z: coord.z }] < lod),
        (spec_transition_sides(desired, coord, lod) & 2u8 != 0) <==> (desired.contains_key(ChunkCoord { x: (coord.x + 1) as i32, y: coord.y, z: coord.z })
            && desired[ChunkCoord { x: (coord.x + 1) as i32, y: coord.y, z: coord.z }] < lod),
        (spec_transition_sides(desired, coord, lod) & 4u8 != 0) <==> (desired.contains_key(ChunkCoord { x: coord.x, y: (coord.y - 1) as i32, z: coord.z })
            && desired[ChunkCoord { x: coord.x, y: (coord.y - 1) as i32, z: coord.z }] < lod),
        (spec_transition_sides(desired, coord, lod) & 8u8 != 0) <==> (desired.contains_key(ChunkCoord { x: coord.x, y: (coord.y + 1) as i32, z: coord.z })
            && desired[ChunkCoord { x: coord.x, y: (coord.y + 1) as i32, z: coord.z }] < lod),
        (spec_transition_sides(desired, coord, lod) & 16u8 != 0) <==> (desired.contains_key(ChunkCoord { x: coord.x, y: coord.y, z: (coord.z - 1) as i32 })
            && desired[ChunkCoord { x: coord.x, y: coord.y, z: (coord.z - 1) as i32 }] < lod),
        (spec_transition_sides(desired, coord, lod) & 32u8 != 0) <==> (desired.contains_key(ChunkCoord { x: coord.x, y: coord.y, z: (coord.z + 1) as i32 })
            && desired[ChunkCoord { x: coord.x, y: coord.y, z: (coord.z + 1) as i32 }] < lod),
        spec_transition_sides(desired, coord, lod) < 64,
{
    lemma_six_flags(
        side_bit(desired, coord, lod, 0),
        side_bit(desired, coord, lod, 1),
        side_bit(desired, coord, lod, 2),
        side_bit(desired, coord, lod, 3),
        side_bit(desired, coord, lod, 4),
        side_bit(desired, coord, lod, 5),
    );
}

} // verus!
