use std::collections::HashMap;
use vstd::prelude::*;
use vstd::std_specs::iter::IteratorSpec;

verus! {

/// A single tile in the 3D grid.
#[derive(Clone, Copy, Debug, PartialEq, Eq, Structural)]
pub struct TileData {
    /// Index into the tile atlas (0 = empty/air).
    pub tile_id: u16,
    /// Rotation around the Y axis in quarter turns (0..=3).
    pub rotation: u8,
    /// Flip flags: bit 0 = X, bit 1 = Y, bit 2 = Z.
    pub flip_flags: u8,
}

impl Default for TileData {
    fn default() -> (t: Self)
        ensures
            t.tile_id == 0,
            t.rotation == 0,
            t.flip_flags == 0,
    {
        TileData { tile_id: 0, rotation: 0, flip_flags: 0 }
    }
}

impl TileData {
    pub const FLIP_X: u8 = 0b001;

    pub const FLIP_Y: u8 = 0b010;

    pub const FLIP_Z: u8 = 0b100;

    pub fn new(tile_id: u16) -> (t: Self)
        ensures
            t.tile_id == tile_id,
            t.rotation == 0,
            t.flip_flags == 0,
    {
        TileData { tile_id, rotation: 0, flip_flags: 0 }
    }

    /// Sets the rotation, reduced to a quarter-turn count in 0..=3.
    pub fn with_rotation(self, rotation: u8) -> (t: Self)
        ensures
            t.tile_id == self.tile_id,
            t.flip_flags == self.flip_flags,
            t.rotation == rotation % 4,
    {
        TileData { rotation: rotation % 4, ..self }
    }

    /// Sets the flip flags, keeping only the three axis bits.
    pub fn with_flip(self, flip_flags: u8) -> (t: Self)
        ensures
            t.tile_id == self.tile_id,
            t.rotation == self.rotation,
            t.flip_flags == flip_flags % 8,
    {
        let f = flip_flags & 0b111;
        assert(flip_flags & 7 == flip_flags % 8) by (bit_vector);
        TileData { flip_flags: f, ..self }
    }

    pub fn is_empty(&self) -> (b: bool)
        ensures
            b == (self.tile_id == 0),
    {
        self.tile_id == 0
    }

    pub fn flip_x(&self) -> (b: bool)
        ensures
            b == (self.flip_flags % 2 == 1),
    {
        let f = self.flip_flags;
        assert((f & 1 != 0) == (f % 2 == 1)) by (bit_vector);
        f & Self::FLIP_X != 0
    }

    pub fn flip_y(&self) -> (b: bool)
        ensures
            b == ((self.flip_flags / 2) % 2 == 1),
    {
        let f = self.flip_flags;
        assert((f & 2 != 0) == ((f / 2) % 2 == 1)) by (bit_vector);
        f & Self::FLIP_Y != 0
    }

    pub fn flip_z(&self) -> (b: bool)
        ensures
            b == ((self.flip_flags / 4) % 2 == 1),
    {
        let f = self.flip_flags;
        assert((f & 4 != 0) == ((f / 4) % 2 == 1)) by (bit_vector);
        f & Self::FLIP_Z != 0
    }
}

/// Grid position of a tile.
pub type GridPos = (i32, i32, i32);

/// Offset that maps an `i32` coordinate onto `0..2^32`.
pub open spec fn coord_offset(c: i32) -> int {
    c + 0x8000_0000
}

/// The integer that a position is stored under: the three offset
/// coordinates as base-2^32 digits.
pub open spec fn pos_key(p: GridPos) -> u128 {
    (coord_offset(p.0) * 0x1_0000_0000_0000_0000 + coord_offset(p.1) * 0x1_0000_0000
        + coord_offset(p.2)) as u128
}

/// The position that a stored integer stands for.
pub open spec fn key_pos(k: u128) -> GridPos {
    (
        (k as int / 0x1_0000_0000_0000_0000 - 0x8000_0000) as i32,
        ((k as int / 0x1_0000_0000) % 0x1_0000_0000 - 0x8000_0000) as i32,
        (k as int % 0x1_0000_0000 - 0x8000_0000) as i32,
    )
}

/// Keys that encode a position.
pub open spec fn valid_key(k: u128) -> bool {
    k < 0x1_0000_0000_0000_0000_0000_0000
}

pub(crate) proof fn lemma_pos_key_roundtrip(p: GridPos)
    ensures
        valid_key(pos_key(p)),
        key_pos(pos_key(p)) == p,
{
    let a = coord_offset(p.0);
    let b = coord_offset(p.1);
    let c = coord_offset(p.2);
    let k = a * 0x1_0000_0000_0000_0000 + b * 0x1_0000_0000 + c;
    assert(0 <= a < 0x1_0000_0000 && 0 <= b < 0x1_0000_0000 && 0 <= c < 0x1_0000_0000);
    assert(0 <= b * 0x1_0000_0000 + c < 0x1_0000_0000_0000_0000);
    vstd::arithmetic::div_mod::lemma_fundamental_div_mod_converse(
        k,
        0x1_0000_0000_0000_0000,
        a,
        b * 0x1_0000_0000 + c,
    );
    vstd::arithmetic::div_mod::lemma_fundamental_div_mod_converse(
        k,
        0x1_0000_0000,
        a * 0x1_0000_0000 + b,
        c,
    );
    vstd::arithmetic::div_mod::lemma_fundamental_div_mod_converse(
        a * 0x1_0000_0000 + b,
        0x1_0000_0000,
        a,
        b,
    );
}

pub(crate) proof fn lemma_key_pos_roundtrip(k: u128)
    requires
        valid_key(k),
    ensures
        pos_key(key_pos(k)) == k,
{
    let ki = k as int;
    let a = ki / 0x1_0000_0000_0000_0000;
    let m = ki / 0x1_0000_0000;
    let b = m % 0x1_0000_0000;
    let c = ki % 0x1_0000_0000;
    vstd::arithmetic::div_mod::lemma_fundamental_div_mod(ki, 0x1_0000_0000);
    vstd::arithmetic::div_mod::lemma_fundamental_div_mod(m, 0x1_0000_0000);
    vstd::arithmetic::div_mod::lemma_div_denominator(ki, 0x1_0000_0000, 0x1_0000_0000);
    assert(m / 0x1_0000_0000 == a);
    assert(0 <= a < 0x1_0000_0000);
}

pub(crate) proof fn lemma_pos_key_injective(p: GridPos, q: GridPos)
    ensures
        pos_key(p) == pos_key(q) <==> p == q,
{
    lemma_pos_key_roundtrip(p);
    lemma_pos_key_roundtrip(q);
}

pub(crate) fn grid_key(x: i32, y: i32, z: i32) -> (k: u128)
    ensures
        k == pos_key((x, y, z)),
{
    proof {
        lemma_pos_key_roundtrip((x, y, z));
    }
    let a = (x as i64 + 0x8000_0000) as u128;
    let b = (y as i64 + 0x8000_0000) as u128;
    let c = (z as i64 + 0x8000_0000) as u128;
    a * 0x1_0000_0000_0000_0000 + b * 0x1_0000_0000 + c
}

pub(crate) fn grid_pos(k: u128) -> (p: GridPos)
    requires
        valid_key(k),
    ensures
        p == key_pos(k),
{
    let a = (k / 0x1_0000_0000_0000_0000) as i64 - 0x8000_0000;
    let b = ((k / 0x1_0000_0000) % 0x1_0000_0000) as i64 - 0x8000_0000;
    let c = (k % 0x1_0000_0000) as i64 - 0x8000_0000;
    (a as i32, b as i32, c as i32)
}

/// `lo` and `hi` are the per-axis minimum and maximum over the positions of `m`:
/// every position lies between them, and each of the six values is attained.
pub open spec fn is_bounding_box(m: Map<GridPos, TileData>, lo: GridPos, hi: GridPos) -> bool {
    &&& forall|p: GridPos| #[trigger]
        m.contains_key(p) ==> lo.0 <= p.0 <= hi.0 && lo.1 <= p.1 <= hi.1 && lo.2 <= p.2 <= hi.2
    &&& exists|p: GridPos| #[trigger] m.contains_key(p) && p.0 == lo.0
    &&& exists|p: GridPos| #[trigger] m.contains_key(p) && p.1 == lo.1
    &&& exists|p: GridPos| #[trigger] m.contains_key(p) && p.2 == lo.2
    &&& exists|p: GridPos| #[trigger] m.contains_key(p) && p.0 == hi.0
    &&& exists|p: GridPos| #[trigger] m.contains_key(p) && p.1 == hi.1
    &&& exists|p: GridPos| #[trigger] m.contains_key(p) && p.2 == hi.2
}

/// Sparse 3D grid of tiles. Only non-empty tiles are stored.
pub struct TileGrid {
    tiles: HashMap<u128, TileData>,
}

impl Default for TileGrid {
    fn default() -> (g: Self)
        ensures
            g@ == Map::<GridPos, TileData>::empty(),
    {
        TileGrid::new()
    }
}

impl View for TileGrid {
    type V = Map<GridPos, TileData>;

    /// The tiles by position.
    closed spec fn view(&self) -> Map<GridPos, TileData> {
        Map::new(
            |p: GridPos| self.tiles@.contains_key(pos_key(p)),
            |p: GridPos| self.tiles@[pos_key(p)],
        )
    }
}

impl TileGrid {
    /// Every stored key encodes a position and every stored tile is non-empty.
    #[verifier::type_invariant]
    spec fn keys_valid(self) -> bool {
        forall|k: u128| #[trigger]
            self.tiles@.contains_key(k) ==> valid_key(k) && self.tiles@[k].tile_id != 0
    }

    proof fn lemma_view_dom(&self)
        requires
            self.keys_valid(),
        ensures
            self@.dom() == self.tiles@.dom().map(|k: u128| key_pos(k)),
            self@.dom().finite(),
            self@.dom().len() == self.tiles@.dom().len(),
    {
        broadcast use vstd::std_specs::hash::group_hash_axioms;

        let f = |k: u128| key_pos(k);
        let d = self.tiles@.dom();
        assert forall|p: GridPos| #[trigger] self@.dom().contains(p) implies d.map(f).contains(p) by {
            lemma_pos_key_roundtrip(p);
            assert(f(pos_key(p)) == p);
        }
        assert forall|p: GridPos| #[trigger] d.map(f).contains(p) implies self@.dom().contains(p) by {
            let k = choose|k: u128| d.contains(k) && f(k) == p;
            lemma_key_pos_roundtrip(k);
        }
        assert(self@.dom() =~= d.map(f));
        assert forall|k1: u128, k2: u128| d.contains(k1) && d.contains(k2) && #[trigger] f(k1) == #[trigger] f(k2) implies k1 == k2 by {
            lemma_key_pos_roundtrip(k1);
            lemma_key_pos_roundtrip(k2);
        }
        vstd::set_lib::lemma_map_size(d, self@.dom(), f);
    }

    pub fn new() -> (g: Self)
        ensures
            g@ == Map::<GridPos, TileData>::empty(),
    {
        let g = TileGrid { tiles: HashMap::new() };
        assert(g@ =~= Map::<GridPos, TileData>::empty());
        g
    }

    /// Stores `tile` at the position; an empty tile removes whatever is there.
    pub fn set_tile(&mut self, x: i32, y: i32, z: i32, tile: TileData)
        ensures
            tile.tile_id == 0 ==> final(self)@ == old(self)@.remove((x, y, z)),
            tile.tile_id != 0 ==> final(self)@ == old(self)@.insert((x, y, z), tile),
    {
        broadcast use vstd::std_specs::hash::group_hash_axioms;

        proof {
            use_type_invariant(&*self);
        }
        let k = grid_key(x, y, z);
        proof {
            lemma_pos_key_roundtrip((x, y, z));
        }
        let mut tiles = HashMap::new();
        std::mem::swap(&mut tiles, &mut self.tiles);
        if tile.is_empty() {
            let _ = tiles.remove(&k);
        } else {
            let _ = tiles.insert(k, tile);
        }
        self.tiles = tiles;
        proof {
            assert forall|p: GridPos| true implies (pos_key(p) == k <==> p == (x, y, z)) by {
                lemma_pos_key_injective(p, (x, y, z));
            }
            if tile.tile_id == 0 {
                assert(self@ =~= old(self)@.remove((x, y, z)));
            } else {
                assert(self@ =~= old(self)@.insert((x, y, z), tile));
            }
        }
    }

    /// The tile at the position, if any.
    pub fn get_tile(&self, x: i32, y: i32, z: i32) -> (r: Option<&TileData>)
        ensures
            r == (if self@.contains_key((x, y, z)) {
                Some(&self@[(x, y, z)])
            } else {
                None
            }),
            r matches Some(t) ==> t.tile_id != 0,
    {
        broadcast use vstd::std_specs::hash::group_hash_axioms;

        proof {
            use_type_invariant(self);
        }
        let k = grid_key(x, y, z);
        self.tiles.get(&k)
    }

    /// Removes and returns the tile at the position.
    pub fn remove_tile(&mut self, x: i32, y: i32, z: i32) -> (r: Option<TileData>)
        ensures
            final(self)@ == old(self)@.remove((x, y, z)),
            r == (if old(self)@.contains_key((x, y, z)) {
                Some(old(self)@[(x, y, z)])
            } else {
                None
            }),
    {
        broadcast use vstd::std_specs::hash::group_hash_axioms;

        proof {
            use_type_invariant(&*self);
        }
        let k = grid_key(x, y, z);
        let mut tiles = HashMap::new();
        std::mem::swap(&mut tiles, &mut self.tiles);
        let r = tiles.remove(&k);
        self.tiles = tiles;
        proof {
            assert forall|p: GridPos| true implies (pos_key(p) == k <==> p == (x, y, z)) by {
                lemma_pos_key_injective(p, (x, y, z));
            }
            assert(self@ =~= old(self)@.remove((x, y, z)));
        }
        r
    }

    /// Removes every tile.
    pub fn clear(&mut self)
        ensures
            final(self)@ == Map::<GridPos, TileData>::empty(),
    {
        broadcast use vstd::std_specs::hash::group_hash_axioms;

        self.tiles = HashMap::new();
        assert(self@ =~= Map::<GridPos, TileData>::empty());
    }

    /// Number of stored tiles. Every grid holds finitely many tiles, and
    /// only non-empty ones.
    pub fn tile_count(&self) -> (n: usize)
        ensures
            n == self@.len(),
            self@.dom().finite(),
            forall|p: GridPos| #[trigger] self@.contains_key(p) ==> self@[p].tile_id != 0,
    {
        broadcast use vstd::std_specs::hash::group_hash_axioms;

        proof {
            use_type_invariant(self);
            self.lemma_view_dom();
            assert forall|p: GridPos| #[trigger] self@.contains_key(p) implies self@[p].tile_id != 0 by {
                assert(self.tiles@.contains_key(pos_key(p)));
            }
        }
        self.tiles.len()
    }

    /// Every stored tile with its position, each position once.
    pub fn iter(&self) -> (v: Vec<(GridPos, TileData)>)
        ensures
            v@.len() == self@.len(),
            forall|i: int, j: int| 0 <= i < j < v@.len() ==> v@[i].0 != v@[j].0,
            forall|i: int| 0 <= i < v@.len() ==> #[trigger] self@.contains_key(v@[i].0) && self@[v@[i].0] == v@[i].1,
            forall|p: GridPos| #[trigger] self@.contains_key(p) ==> exists|i: int| 0 <= i < v@.len() && v@[i].0 == p,
    {
        broadcast use vstd::std_specs::hash::group_hash_axioms;

        proof {
            use_type_invariant(self);
            self.lemma_view_dom();
        }
        let mut v: Vec<(GridPos, TileData)> = Vec::new();
        let ghost sq = vstd::std_specs::hash::spec_hash_map_iter(&self.tiles).remaining();
        for (k, t) in it: self.tiles.iter()
            invariant
                self.keys_valid(),
                it.seq() == sq,
                v@.len() == it.index(),
                forall|i: int| 0 <= i < v@.len() ==> v@[i].0 == key_pos(*#[trigger] sq[i].0) && v@[i].1 == *sq[i].1,
        {
            proof {
                assert(self.tiles@.contains_key(*k));
            }
            let p = grid_pos(*k);
            v.push((p, *t));
        }
        proof {
            assert(sq.len() == v@.len());
            assert forall|i: int| 0 <= i < v@.len() implies #[trigger] self@.contains_key(v@[i].0)
                && self@[v@[i].0] == v@[i].1 by {
                assert(self.tiles@.contains_key(*sq[i].0));
                lemma_key_pos_roundtrip(*sq[i].0);
            }
            assert forall|i: int, j: int| 0 <= i < j < v@.len() implies v@[i].0 != v@[j].0 by {
                let ki = *sq[i].0;
                let kj = *sq[j].0;
                assert(self.tiles@.contains_key(ki));
                assert(self.tiles@.contains_key(kj));
                lemma_key_pos_roundtrip(ki);
                lemma_key_pos_roundtrip(kj);
                if ki == kj {
                    assert(self.tiles@[ki] == *sq[i].1);
                    assert(self.tiles@[kj] == *sq[j].1);
                    assert(sq[i] == sq[j]);
                }
            }
            assert forall|p: GridPos| #[trigger] self@.contains_key(p) implies exists|i: int|
                0 <= i < v@.len() && v@[i].0 == p by {
                let k = pos_key(p);
                lemma_pos_key_roundtrip(p);
                assert(self.tiles@.contains_key(k));
                assert(sq.contains((&k, &self.tiles@[k])));
                let i = choose|i: int| 0 <= i < sq.len() && sq[i] == (&k, &self.tiles@[k]);
                assert(v@[i].0 == key_pos(*sq[i].0));
            }
        }
        v
    }

    /// Bounding box `(min, max)` of all stored positions; `None` when the grid is empty.
    pub fn bounds(&self) -> (r: Option<(GridPos, GridPos)>)
        ensures
            r is None <==> self@.len() == 0,
            r matches Some((lo, hi)) ==> is_bounding_box(self@, lo, hi),
    {
        let v = self.iter();
        if v.len() == 0 {
            return None;
        }
        let mut lo: GridPos = (i32::MAX, i32::MAX, i32::MAX);
        let mut hi: GridPos = (i32::MIN, i32::MIN, i32::MIN);
        let ghost mut w: Seq<int> = seq![0int, 0int, 0int, 0int, 0int, 0int];
        let mut i: usize = 0;
        while i < v.len()
            invariant
                0 <= i <= v@.len(),
                w.len() == 6,
                forall|j: int| 0 <= j < i ==> lo.0 <= (#[trigger] v@[j]).0.0 <= hi.0 && lo.1
                    <= v@[j].0.1 <= hi.1 && lo.2 <= v@[j].0.2 <= hi.2,
                i > 0 ==> (forall|c: int| 0 <= c < 6 ==> 0 <= #[trigger] w[c] < i),
                i > 0 ==> v@[w[0]].0.0 == lo.0 && v@[w[1]].0.1 == lo.1 && v@[w[2]].0.2 == lo.2
                    && v@[w[3]].0.0 == hi.0 && v@[w[4]].0.1 == hi.1 && v@[w[5]].0.2 == hi.2,
            decreases v@.len() - i,
        {
            let (x, y, z) = v[i].0;
            if i == 0 || x < lo.0 {
                lo.0 = x;
                proof { w = w.update(0, i as int); }
            }
            if i == 0 || y < lo.1 {
                lo.1 = y;
                proof { w = w.update(1, i as int); }
            }
            if i == 0 || z < lo.2 {
                lo.2 = z;
                proof { w = w.update(2, i as int); }
            }
            if i == 0 || x > hi.0 {
                hi.0 = x;
                proof { w = w.update(3, i as int); }
            }
            if i == 0 || y > hi.1 {
                hi.1 = y;
                proof { w = w.update(4, i as int); }
            }
            if i == 0 || z > hi.2 {
                hi.2 = z;
                proof { w = w.update(5, i as int); }
            }
            i = i + 1;
        }
        proof {
            assert forall|p: GridPos| #[trigger] self@.contains_key(p) implies lo.0 <= p.0 <= hi.0
                && lo.1 <= p.1 <= hi.1 && lo.2 <= p.2 <= hi.2 by {
                let j = choose|j: int| 0 <= j < v@.len() && v@[j].0 == p;
                assert(v@[j].0 == p);
            }
            assert(w[0] >= 0 && w[1] >= 0 && w[2] >= 0 && w[3] >= 0 && w[4] >= 0 && w[5] >= 0);
            assert(self@.contains_key(v@[w[0]].0));
            assert(self@.contains_key(v@[w[1]].0));
            assert(self@.contains_key(v@[w[2]].0));
            assert(self@.contains_key(v@[w[3]].0));
            assert(self@.contains_key(v@[w[4]].0));
            assert(self@.contains_key(v@[w[5]].0));
        }
        Some((lo, hi))
    }

    pub fn has_tile(&self, x: i32, y: i32, z: i32) -> (b: bool)
        ensures
            b == self@.contains_key((x, y, z)),
    {
        broadcast use vstd::std_specs::hash::group_hash_axioms;

        let k = grid_key(x, y, z);
        self.tiles.contains_key(&k)
    }
}

/// Reading a position after storing a non-empty tile there gives that tile,
/// storing an empty tile leaves the position without a tile, and every other
/// position keeps its tile.
pub proof fn lemma_tile_read_after_write(g: Map<GridPos, TileData>, p: GridPos, t: TileData, q: GridPos)
    ensures
        t.tile_id != 0 ==> g.insert(p, t).contains_key(p) && g.insert(p, t)[p] == t,
        !g.remove(p).contains_key(p),
        q != p ==> g.insert(p, t).contains_key(q) == g.contains_key(q) && g.insert(p, t)[q] == g[q],
        q != p ==> g.remove(p).contains_key(q) == g.contains_key(q) && g.remove(p)[q] == g[q],
{
}

} // verus!
