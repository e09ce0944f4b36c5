//! The discrete side of marching-squares terrain cells: merge modes, texture
//! channel encoding, corner indexing and rotation, the per-cell texture
//! triple, and the classification of a cell's corner relations into the
//! geometry case that builds it.
//!
//! Heights are compared against the merge threshold by the caller; this
//! module works on the resulting relations.
use vstd::prelude::*;

verus! {

/// How strongly nearby heights are merged into slopes.
#[derive(Clone, Copy, Debug, PartialEq, Eq, Structural)]
pub enum MergeMode {
    Cubic,
    Polyhedron,
    RoundedPolyhedron,
    SemiRound,
    Spherical,
}

impl MergeMode {
    /// The mode with the given index; unknown indices fall back to `Polyhedron`.
    pub fn from_index(idx: i32) -> (m: Self)
        ensures
            m == merge_mode_of(idx as int),
    {
        match idx {
            0 => MergeMode::Cubic,
            1 => MergeMode::Polyhedron,
            2 => MergeMode::RoundedPolyhedron,
            3 => MergeMode::SemiRound,
            4 => MergeMode::Spherical,
            _ => MergeMode::Polyhedron,
        }
    }

    /// The index of the mode, `0..=4` in declaration order.
    pub fn to_index(self) -> (i: i32)
        ensures
            i == merge_mode_index(self),
            0 <= i <= 4,
    {
        match self {
            MergeMode::Cubic => 0,
            MergeMode::Polyhedron => 1,
            MergeMode::RoundedPolyhedron => 2,
            MergeMode::SemiRound => 3,
            MergeMode::Spherical => 4,
        }
    }

    /// The rounded modes are `SemiRound` and `Spherical`.
    pub fn is_round(self) -> (b: bool)
        ensures
            b == (self == MergeMode::SemiRound || self == MergeMode::Spherical),
    {
        match self {
            MergeMode::SemiRound | MergeMode::Spherical => true,
            _ => false,
        }
    }
}

/// The mode with index `idx`; unknown indices give `Polyhedron`.
pub open spec fn merge_mode_of(idx: int) -> MergeMode {
    if idx == 0 {
        MergeMode::Cubic
    } else if idx == 2 {
        MergeMode::RoundedPolyhedron
    } else if idx == 3 {
        MergeMode::SemiRound
    } else if idx == 4 {
        MergeMode::Spherical
    } else {
        MergeMode::Polyhedron
    }
}

/// The index of a mode in declaration order.
pub open spec fn merge_mode_index(m: MergeMode) -> int {
    match m {
        MergeMode::Cubic => 0,
        MergeMode::Polyhedron => 1,
        MergeMode::RoundedPolyhedron => 2,
        MergeMode::SemiRound => 3,
        MergeMode::Spherical => 4,
    }
}

/// Converting a mode to its index and back gives the mode again; an index
/// in `0..=4` survives the other round trip, and any other index comes back
/// as the index of `Polyhedron`.
pub proof fn lemma_merge_mode_index_roundtrip(m: MergeMode, idx: int)
    ensures
        merge_mode_of(merge_mode_index(m)) == m,
        0 <= idx <= 4 ==> merge_mode_index(merge_mode_of(idx)) == idx,
        !(0 <= idx <= 4) ==> merge_mode_index(merge_mode_of(idx)) == 1,
{
}

/// How colors are sampled across a cell.
#[derive(Clone, Copy, Debug, PartialEq, Eq, Structural)]
pub enum BlendMode {
    /// Bilinear interpolation across the corners.
    Interpolated,
    /// Corner A's color is used directly.
    Direct,
}

impl Default for BlendMode {
    fn default() -> (m: Self)
        ensures
            m == BlendMode::Interpolated,
    {
        BlendMode::Interpolated
    }
}

/// One RGBA channel of a vertex color.
#[derive(Clone, Copy, Debug, PartialEq, Eq, Structural)]
pub enum ColorChannel {
    Red,
    Green,
    Blue,
    Alpha,
}

/// The channel with index `idx` (red, green, blue, alpha); anything else is red.
pub open spec fn channel_of(idx: int) -> ColorChannel {
    if idx == 1 {
        ColorChannel::Green
    } else if idx == 2 {
        ColorChannel::Blue
    } else if idx == 3 {
        ColorChannel::Alpha
    } else {
        ColorChannel::Red
    }
}

/// The index of a channel: red 0, green 1, blue 2, alpha 3.
pub open spec fn channel_index(c: ColorChannel) -> int {
    match c {
        ColorChannel::Red => 0,
        ColorChannel::Green => 1,
        ColorChannel::Blue => 2,
        ColorChannel::Alpha => 3,
    }
}

impl ColorChannel {
    /// The channel with the given index; unknown indices give `Red`.
    pub fn from_index(idx: u8) -> (c: Self)
        ensures
            c == channel_of(idx as int),
    {
        match idx {
            1 => ColorChannel::Green,
            2 => ColorChannel::Blue,
            3 => ColorChannel::Alpha,
            _ => ColorChannel::Red,
        }
    }

    /// The index of the channel, `0..=3`.
    pub fn index(self) -> (i: u8)
        ensures
            i == channel_index(self),
            i < 4,
    {
        match self {
            ColorChannel::Red => 0,
            ColorChannel::Green => 1,
            ColorChannel::Blue => 2,
            ColorChannel::Alpha => 3,
        }
    }
}

/// A terrain texture, `0..=15`, stored in vertex colors as the pair of
/// dominant channels `(index / 4, index % 4)`.
#[derive(Clone, Copy, Debug, PartialEq, Eq, Hash, Structural)]
pub struct TextureIndex(pub u8);

impl Default for TextureIndex {
    fn default() -> (t: Self)
        ensures
            t.0 == 0,
    {
        TextureIndex(0)
    }
}

impl TextureIndex {
    /// The texture whose two colors have dominant channels `c0` and `c1`.
    pub fn from_channels(c0: ColorChannel, c1: ColorChannel) -> (t: Self)
        ensures
            t.0 == channel_index(c0) * 4 + channel_index(c1),
            t.0 < 16,
    {
        TextureIndex(c0.index() * 4 + c1.index())
    }

    /// The dominant channels of the two colors that encode this texture.
    pub fn channels(self) -> (r: (ColorChannel, ColorChannel))
        ensures
            r == (channel_of(self.0 as int / 4), channel_of(self.0 as int % 4)),
    {
        (ColorChannel::from_index(self.0 / 4), ColorChannel::from_index(self.0 % 4))
    }
}

/// The dominant channels of the color pair for texture `idx`, the index being
/// cut to its low byte first.
pub fn texture_index_to_channels(idx: i32) -> (r: (ColorChannel, ColorChannel))
    ensures
        r == (channel_of((idx as u8) as int / 4), channel_of((idx as u8) as int % 4)),
{
    TextureIndex(idx as u8).channels()
}

/// Encoding two channels as a texture and decoding it gives the channels
/// back, and every texture `0..=15` is the encoding of its decoded channels.
pub proof fn lemma_texture_channels_roundtrip(c0: ColorChannel, c1: ColorChannel, t: u8)
    ensures
        ({
            let i = channel_index(c0) * 4 + channel_index(c1);
            channel_of(i / 4) == c0 && channel_of(i % 4) == c1
        }),
        t < 16 ==> channel_index(channel_of(t as int / 4)) * 4 + channel_index(channel_of(t as int % 4)) == t,
{
}

/// Rotation index after turning `rotations` quarter turns from `rotation`.
pub open spec fn spec_rotated(rotation: int, rotations: int) -> int {
    (rotation + 4 + rotations) % 4
}

/// Turns a cell's rotation index by `rotations` quarter turns.
pub fn rotate_cell(rotation: usize, rotations: i32) -> (r: usize)
    requires
        rotation < 4,
        rotations >= -4,
        rotations <= i32::MAX - 8,
    ensures
        r == spec_rotated(rotation as int, rotations as int),
        r < 4,
{
    let s: i32 = rotation as i32 + 4 + rotations;
    (s % 4) as usize
}

/// Height slots of corners A, B, D, C when the cell is seen under `rotation`.
pub fn corner_slots(rotation: usize) -> (r: [usize; 4])
    requires
        rotation < 4,
    ensures
        r@ == seq![
            slot(rotation as int, sa()) as usize,
            slot(rotation as int, sb()) as usize,
            slot(rotation as int, sd()) as usize,
            slot(rotation as int, sc()) as usize,
        ],
{
    let r = [rotation, (rotation + 1) % 4, (rotation + 2) % 4, (rotation + 3) % 4];
    assert(r@ =~= seq![
        slot(rotation as int, sa()) as usize,
        slot(rotation as int, sb()) as usize,
        slot(rotation as int, sd()) as usize,
        slot(rotation as int, sc()) as usize,
    ]);
    r
}

/// Index of cell `(x, z)` in a row-major map `dim_x` cells wide.
pub open spec fn spec_color_index(x: int, z: int, dim_x: int) -> int {
    z * dim_x + x
}

/// Index of cell `(x, z)` in a row-major map `dim_x` cells wide.
pub fn color_index(x: i32, z: i32, dim_x: i32) -> (i: usize)
    requires
        i32::MIN <= z * dim_x <= i32::MAX,
        i32::MIN <= spec_color_index(x as int, z as int, dim_x as int) <= i32::MAX,
    ensures
        i == spec_color_index(x as int, z as int, dim_x as int) as usize,
{
    (z * dim_x + x) as usize
}

/// Map indices of corners A, B, C, D of the cell whose corner A is `(x, z)`:
/// A and B on row `z`, C and D on row `z + 1`.
pub fn corner_indices(x: i32, z: i32, dim_x: i32) -> (r: [usize; 4])
    requires
        z < i32::MAX,
        i32::MIN <= z * dim_x <= i32::MAX,
        i32::MIN <= (z + 1) * dim_x <= i32::MAX,
        i32::MIN <= z * dim_x + x,
        z * dim_x + x + 1 <= i32::MAX,
        i32::MIN <= (z + 1) * dim_x + x,
        (z + 1) * dim_x + x + 1 <= i32::MAX,
    ensures
        r@ == seq![
            spec_color_index(x as int, z as int, dim_x as int) as usize,
            spec_color_index(x as int + 1, z as int, dim_x as int) as usize,
            spec_color_index(x as int, z as int + 1, dim_x as int) as usize,
            spec_color_index(x as int + 1, z as int + 1, dim_x as int) as usize,
        ],
{
    let row = z * dim_x;
    let next = (z + 1) * dim_x;
    let r = [(row + x) as usize, (row + x + 1) as usize, (next + x) as usize, (next + x + 1) as usize];
    assert(r@ =~= seq![
        spec_color_index(x as int, z as int, dim_x as int) as usize,
        spec_color_index(x as int + 1, z as int, dim_x as int) as usize,
        spec_color_index(x as int, z as int + 1, dim_x as int) as usize,
        spec_color_index(x as int + 1, z as int + 1, dim_x as int) as usize,
    ]);
    r
}

/// The three textures a cell blends: the most frequent corner texture,
/// then the next ones, repeating the previous pick when there are fewer.
#[derive(Clone, Copy, Debug, PartialEq, Eq, Structural)]
pub struct CellMaterials {
    pub material_a: TextureIndex,
    pub material_b: TextureIndex,
    pub material_c: TextureIndex,
}

/// How many of the four corners carry texture `x`.
pub open spec fn corner_count(t: Seq<u8>, x: int) -> int {
    (if t[0] == x { 1int } else { 0 }) + (if t[1] == x { 1int } else { 0 }) + (if t[2] == x {
        1int
    } else {
        0
    }) + (if t[3] == x { 1int } else { 0 })
}

/// Texture `x` ranks before `y`: more corners, or as many and a smaller index.
pub open spec fn ranks_before(t: Seq<u8>, x: int, y: int) -> bool {
    corner_count(t, x) > corner_count(t, y) || (corner_count(t, x) == corner_count(t, y) && x < y)
}

/// `x` occurs at a corner, is not excluded, and ranks before every other
/// corner texture that is not excluded.
pub open spec fn best_among(t: Seq<u8>, x: int, excluded: Set<int>) -> bool {
    &&& corner_count(t, x) > 0
    &&& !excluded.contains(x)
    &&& forall|y: int|
        corner_count(t, y) > 0 && !excluded.contains(y) && y != x ==> #[trigger] ranks_before(t, x, y)
}

/// Some corner texture is not excluded.
pub open spec fn any_left(t: Seq<u8>, excluded: Set<int>) -> bool {
    exists|k: int| 0 <= k < 4 && !excluded.contains(#[trigger] t[k] as int)
}

/// The texture triple of a cell with corner textures `t`.
pub open spec fn materials_of(t: Seq<u8>, m: CellMaterials) -> bool {
    let a = m.material_a.0 as int;
    let b = m.material_b.0 as int;
    let c = m.material_c.0 as int;
    &&& best_among(t, a, Set::empty())
    &&& if any_left(t, set![a]) {
        best_among(t, b, set![a])
    } else {
        b == a
    }
    &&& if any_left(t, set![a, b]) && b != a {
        best_among(t, c, set![a, b])
    } else {
        c == b
    }
}

/// Counts of each texture among the four corners.
fn texture_counts(t: [TextureIndex; 4]) -> (counts: Vec<u8>)
    requires
        forall|k: int| 0 <= k < 4 ==> (#[trigger] t@[k]).0 < 16,
    ensures
        counts@.len() == 16,
        forall|x: int|
            0 <= x < 16 ==> #[trigger] counts@[x] == corner_count(
                seq![t@[0].0, t@[1].0, t@[2].0, t@[3].0],
                x,
            ),
{
    let ghost ts = seq![t@[0].0, t@[1].0, t@[2].0, t@[3].0];
    let mut counts: Vec<u8> = vec![0u8; 16];
    let mut k: usize = 0;
    while k < 4
        invariant
            k <= 4,
            counts@.len() == 16,
            ts == seq![t@[0].0, t@[1].0, t@[2].0, t@[3].0],
            forall|j: int| 0 <= j < 4 ==> (#[trigger] t@[j]).0 < 16,
            forall|x: int|
                0 <= x < 16 ==> #[trigger] counts@[x] == (if k > 0 && ts[0] == x {
                    1int
                } else {
                    0
                }) + (if k > 1 && ts[1] == x {
                    1int
                } else {
                    0
                }) + (if k > 2 && ts[2] == x {
                    1int
                } else {
                    0
                }) + (if k > 3 && ts[3] == x {
                    1int
                } else {
                    0
                }),
        decreases 4 - k,
    {
        let i = t[k].0 as usize;
        let c = counts[i];
        counts.set(i, c + 1);
        k = k + 1;
    }
    counts
}

/// The three textures a cell blends, from the textures of its corners
/// A, B, C, D: the texture on most corners (the smaller index on a tie),
/// then the best of the rest, then the best after those two; a missing
/// second or third pick repeats the one before it.
pub fn calculate_cell_material_pair(corner_textures: [TextureIndex; 4]) -> (m: CellMaterials)
    requires
        forall|k: int| 0 <= k < 4 ==> (#[trigger] corner_textures@[k]).0 < 16,
    ensures
        materials_of(
            seq![
                corner_textures@[0].0,
                corner_textures@[1].0,
                corner_textures@[2].0,
                corner_textures@[3].0,
            ],
            m,
        ),
{
    let ghost ts = seq![
        corner_textures@[0].0,
        corner_textures@[1].0,
        corner_textures@[2].0,
        corner_textures@[3].0,
    ];
    let counts = texture_counts(corner_textures);
    // Top three as (index, count), by count and then by index.
    let mut first: (u8, u8) = (0, 0);
    let mut second: (u8, u8) = (0, 0);
    let mut third: (u8, u8) = (0, 0);
    let mut i: usize = 0;
    while i < 16
        invariant
            i <= 16,
            counts@.len() == 16,
            forall|x: int| 0 <= x < 16 ==> #[trigger] counts@[x] == corner_count(ts, x),
            forall|x: int| !(0 <= x < 16) ==> corner_count(ts, x) == 0,
            // The picks hold the best, second and third of indices below `i`
            // that occur at a corner; an unused slot has count zero.
            first.1 == 0 ==> second.1 == 0,
            second.1 == 0 ==> third.1 == 0,
            first.1 > 0 ==> first.0 < i && first.1 == corner_count(ts, first.0 as int),
            second.1 > 0 ==> second.0 < i && second.1 == corner_count(ts, second.0 as int)
                && second.0 != first.0 && ranks_before(ts, first.0 as int, second.0 as int),
            third.1 > 0 ==> third.0 < i && third.1 == corner_count(ts, third.0 as int) && third.0
                != first.0 && third.0 != second.0 && ranks_before(
                ts,
                second.0 as int,
                third.0 as int,
            ),
            forall|y: int|
                0 <= y < i && #[trigger] corner_count(ts, y) > 0 ==> (first.1 > 0 && (y == first.0
                    || ranks_before(ts, first.0 as int, y))),
            forall|y: int|
                0 <= y < i && #[trigger] corner_count(ts, y) > 0 && y != first.0 ==> (second.1 > 0 && (y
                    == second.0 || ranks_before(ts, second.0 as int, y))),
            forall|y: int|
                0 <= y < i && #[trigger] corner_count(ts, y) > 0 && y != first.0 && y != second.0 ==> (
                third.1 > 0 && (y == third.0 || ranks_before(ts, third.0 as int, y))),
        decreases 16 - i,
    {
        let count = counts[i];
        let idx = i as u8;
        assert(idx as int == i as int);
        assert(count == corner_count(ts, i as int));
        let ghost f0 = first;
        let ghost s0 = second;
        let ghost t0 = third;
        if count > first.1 {
            third = second;
            second = first;
            first = (idx, count);
        } else if count > second.1 {
            third = second;
            second = (idx, count);
        } else if count > third.1 {
            third = (idx, count);
        }
        proof {
            assert forall|y: int|
                0 <= y < i + 1 && #[trigger] corner_count(ts, y) > 0 implies (first.1 > 0 && (y == first.0
                || ranks_before(ts, first.0 as int, y))) by {
                if y < i {
                    assert(f0.1 > 0 && (y == f0.0 || ranks_before(ts, f0.0 as int, y)));
                }
            }
            assert forall|y: int|
                0 <= y < i + 1 && #[trigger] corner_count(ts, y) > 0 && y != first.0 implies (second.1 > 0
                && (y == second.0 || ranks_before(ts, second.0 as int, y))) by {
                if y < i {
                    assert(f0.1 > 0 && (y == f0.0 || ranks_before(ts, f0.0 as int, y)));
                    if y != f0.0 {
                        assert(s0.1 > 0 && (y == s0.0 || ranks_before(ts, s0.0 as int, y)));
                    }
                }
            }
            assert forall|y: int|
                0 <= y < i + 1 && #[trigger] corner_count(ts, y) > 0 && y != first.0 && y != second.0 implies (
            third.1 > 0 && (y == third.0 || ranks_before(ts, third.0 as int, y))) by {
                if y < i {
                    assert(f0.1 > 0 && (y == f0.0 || ranks_before(ts, f0.0 as int, y)));
                    if y != f0.0 {
                        assert(s0.1 > 0 && (y == s0.0 || ranks_before(ts, s0.0 as int, y)));
                        if y != s0.0 {
                            assert(t0.1 > 0 && (y == t0.0 || ranks_before(ts, t0.0 as int, y)));
                        }
                    }
                }
            }
        }
        i = i + 1;
    }
    let material_a = TextureIndex(first.0);
    let material_b = if second.1 > 0 {
        TextureIndex(second.0)
    } else {
        material_a
    };
    let material_c = if third.1 > 0 {
        TextureIndex(third.0)
    } else {
        material_b
    };
    let m = CellMaterials { material_a, material_b, material_c };
    proof {
        // Some corner texture exists, so the first pick is used.
        assert(corner_count(ts, ts[0] as int) > 0);
        let a = first.0 as int;
        let b = m.material_b.0 as int;
        assert forall|y: int| corner_count(ts, y) > 0 implies 0 <= y < 16 by {}
        assert(best_among(ts, a, Set::empty()));
        assert forall|k: int| 0 <= k < 4 implies corner_count(ts, #[trigger] ts[k] as int) > 0 by {}
        if any_left(ts, set![a]) {
            let k = choose|k: int| 0 <= k < 4 && !set![a].contains(#[trigger] ts[k] as int);
            assert(corner_count(ts, ts[k] as int) > 0);
            assert(best_among(ts, b, set![a]));
        } else {
            if second.1 > 0 {
                assert(ts[0] == second.0 || ts[1] == second.0 || ts[2] == second.0 || ts[3]
                    == second.0);
                assert(!set![a].contains(second.0 as int));
            }
        }
        if any_left(ts, set![a, b]) && b != a {
            let k = choose|k: int| 0 <= k < 4 && !set![a, b].contains(#[trigger] ts[k] as int);
            assert(corner_count(ts, ts[k] as int) > 0);
            assert(best_among(ts, m.material_c.0 as int, set![a, b]));
        } else {
            if third.1 > 0 {
                assert(second.1 > 0);
                assert(ts[0] == third.0 || ts[1] == third.0 || ts[2] == third.0 || ts[3]
                    == third.0);
                assert(!set![a, b].contains(third.0 as int));
            }
        }
    }
    m
}

/// Pairwise relations between the four corner heights of a cell, measured
/// against the merge threshold. Corners are numbered in circular order:
/// 0 = A, 1 = B, 2 = D, 3 = C.
#[derive(Clone, Copy, Debug)]
pub struct CornerRelations {
    /// `higher[i][j]`: corner `i` exceeds corner `j` by more than the threshold.
    pub higher: [[bool; 4]; 4],
    /// `lower[i][j]`: corner `i` is below corner `j` by more than the threshold.
    pub lower: [[bool; 4]; 4],
    /// `merged[i][j]`: corners `i` and `j` differ by less than the threshold.
    pub merged: [[bool; 4]; 4],
    /// Whether the edges AB, BD, CD, AC (in that order) are slopes rather than walls.
    pub edges: [bool; 4],
}

/// The relations come from one set of corner heights: corner `i` is above
/// `j` exactly when `j` is below `i`, merging is symmetric, at most one of
/// the three relations holds for a pair, and each edge is a slope exactly
/// when its two corners are merged.
pub open spec fn relations_consistent(r: CornerRelations) -> bool {
    &&& forall|i: int, j: int|
        0 <= i < 4 && 0 <= j < 4 ==> {
            &&& #[trigger] r.higher@[i]@[j] == r.lower@[j]@[i]
            &&& r.merged@[i]@[j] == r.merged@[j]@[i]
            &&& !(r.higher@[i]@[j] && r.lower@[i]@[j])
            &&& !(r.higher@[i]@[j] && r.merged@[i]@[j])
            &&& !(r.lower@[i]@[j] && r.merged@[i]@[j])
        }
    &&& r.edges@[0] == r.merged@[0]@[1]
    &&& r.edges@[1] == r.merged@[1]@[2]
    &&& r.edges@[2] == r.merged@[3]@[2]
    &&& r.edges@[3] == r.merged@[0]@[3]
}

/// The corner in slot `k` (0 = A, 1 = B, 2 = D, 3 = C) under `rotation`.
pub open spec fn slot(rotation: int, k: int) -> int {
    (rotation + k) % 4
}

/// Slot of corner A.
pub open spec fn sa() -> int {
    0
}

/// Slot of corner B.
pub open spec fn sb() -> int {
    1
}

/// Slot of corner D.
pub open spec fn sd() -> int {
    2
}

/// Slot of corner C.
pub open spec fn sc() -> int {
    3
}

/// Corner in slot `x` is above the corner in slot `y` under `rot`.
pub open spec fn hi(r: CornerRelations, rot: int, x: int, y: int) -> bool {
    r.higher@[slot(rot, x)]@[slot(rot, y)]
}

/// Corner in slot `x` is below the corner in slot `y` under `rot`.
pub open spec fn lo(r: CornerRelations, rot: int, x: int, y: int) -> bool {
    r.lower@[slot(rot, x)]@[slot(rot, y)]
}

/// Corners in slots `x` and `y` are merged under `rot`.
pub open spec fn mg(r: CornerRelations, rot: int, x: int, y: int) -> bool {
    r.merged@[slot(rot, x)]@[slot(rot, y)]
}

/// Edge `k` of the rotated cell (0 = AB, 1 = BD, 2 = CD, 3 = AC) is a slope.
pub open spec fn edge(r: CornerRelations, rot: int, k: int) -> bool {
    r.edges@[slot(rot, k)]
}

/// The geometry that fills a cell.
#[derive(Clone, Copy, Debug, PartialEq, Eq, Structural)]
pub enum CellCase {
    /// All corners level: one floor.
    FullFloor,
    /// One raised corner.
    OuterCorner,
    /// Raised edge.
    Edge,
    /// Half-width edge with an outer corner at A above it.
    EdgeAOuterCorner,
    /// Half-width edge with an outer corner at B above it.
    EdgeBOuterCorner,
    /// Inner corners at A and D bridged by a diagonal floor.
    DoubleInnerCorner,
    /// Inner corners at A and D, B above C, with an outer corner at B.
    DoubleInnerCornerOuter,
    /// One lowered corner.
    InnerCorner,
    /// A lowest, BD a slope, C above D.
    InnerAsymmetricBd,
    /// A lowest, CD a slope, B above D.
    InnerAsymmetricCd,
    /// A lowest, B and C merged above D.
    InnerDiagonalOuter,
    /// Inner corner at A with an edge along BD.
    InnerCornerEdgeBd,
    /// Inner corner at A with an edge along CD.
    InnerCornerEdgeCd,
    /// Rising spiral A < B < D < C.
    SpiralClockwise,
    /// Rising spiral A < C < D < B.
    SpiralCounter,
    /// Staircase A < B < C < D.
    StaircaseAbcd,
    /// Staircase A < C < B < D.
    StaircaseAcbd,
    /// A highest, D lowest, all corners different.
    OuterDiagonalInner,
    /// A highest, B and C merged above D.
    OuterDiagonalOuter,
    /// A highest, B above C, CD a wall.
    OuterPartialEdgeB,
    /// A highest, C above B, BD a wall.
    OuterPartialEdgeC,
    /// A highest, B and C merged, D lowest.
    OuterInnerComposite,
    /// Only AC is a wall, A above C.
    SingleWallAc,
    /// Only BD is a wall, B above D.
    SingleWallBd,
}

/// Whether rule `k` applies to the cell seen under rotation `rot`.
pub open spec fn rule_holds(r: CornerRelations, rot: int, k: int) -> bool {
    let (a, b, d, c) = (sa(), sb(), sd(), sc());
    if k == 0 {
        hi(r, rot, a, b) && hi(r, rot, a, c) && edge(r, rot, 1) && edge(r, rot, 2)
    } else if k == 1 {
        hi(r, rot, a, c) && hi(r, rot, b, d) && edge(r, rot, 1) && edge(r, rot, 2)
    } else if k == 2 {
        hi(r, rot, a, b) && hi(r, rot, a, c) && hi(r, rot, b, d) && edge(r, rot, 2)
    } else if k == 3 {
        hi(r, rot, b, a) && hi(r, rot, a, c) && hi(r, rot, b, d) && edge(r, rot, 2)
    } else if k == 4 {
        lo(r, rot, a, b) && lo(r, rot, a, c) && lo(r, rot, d, b) && lo(r, rot, d, c) && mg(
            r,
            rot,
            b,
            c,
        )
    } else if k == 5 {
        lo(r, rot, a, b) && lo(r, rot, a, c) && lo(r, rot, d, b) && lo(r, rot, d, c) && hi(
            r,
            rot,
            b,
            c,
        )
    } else if k == 6 {
        lo(r, rot, a, b) && lo(r, rot, a, c) && edge(r, rot, 1) && edge(r, rot, 2)
    } else if k == 7 {
        lo(r, rot, a, b) && lo(r, rot, a, c) && edge(r, rot, 1) && !edge(r, rot, 2) && hi(
            r,
            rot,
            c,
            d,
        )
    } else if k == 8 {
        lo(r, rot, a, b) && lo(r, rot, a, c) && !edge(r, rot, 1) && edge(r, rot, 2) && hi(
            r,
            rot,
            b,
            d,
        )
    } else if k == 9 {
        lo(r, rot, a, b) && lo(r, rot, a, c) && !edge(r, rot, 1) && !edge(r, rot, 2) && hi(
            r,
            rot,
            b,
            d,
        ) && hi(r, rot, c, d) && mg(r, rot, b, c)
    } else if k == 10 {
        lo(r, rot, a, b) && lo(r, rot, a, c) && hi(r, rot, d, c) && edge(r, rot, 1)
    } else if k == 11 {
        lo(r, rot, a, b) && lo(r, rot, a, c) && hi(r, rot, d, b) && edge(r, rot, 2)
    } else if k == 12 {
        lo(r, rot, a, b) && lo(r, rot, b, d) && lo(r, rot, d, c) && hi(r, rot, c, a)
    } else if k == 13 {
        lo(r, rot, a, c) && lo(r, rot, c, d) && lo(r, rot, d, b) && hi(r, rot, b, a)
    } else if k == 14 {
        lo(r, rot, a, b) && lo(r, rot, b, c) && lo(r, rot, c, d)
    } else if k == 15 {
        lo(r, rot, a, c) && lo(r, rot, c, b) && lo(r, rot, b, d)
    } else if k == 16 {
        hi(r, rot, a, c) && mg(r, rot, a, b) && mg(r, rot, c, d) && edge(r, rot, 0) && edge(
            r,
            rot,
            2,
        )
    } else if k == 17 {
        hi(r, rot, a, b) && hi(r, rot, a, c) && !edge(r, rot, 1) && !edge(r, rot, 2) && lo(
            r,
            rot,
            d,
            b,
        ) && lo(r, rot, d, c)
    } else if k == 18 {
        hi(r, rot, a, b) && hi(r, rot, a, c) && mg(r, rot, b, c) && hi(r, rot, b, d) && hi(
            r,
            rot,
            c,
            d,
        )
    } else if k == 19 {
        hi(r, rot, a, b) && hi(r, rot, a, c) && hi(r, rot, b, c) && !edge(r, rot, 2)
    } else if k == 20 {
        hi(r, rot, a, b) && hi(r, rot, a, c) && hi(r, rot, c, b) && !edge(r, rot, 1)
    } else if k == 21 {
        hi(r, rot, a, b) && mg(r, rot, b, c) && !edge(r, rot, 1) && lo(r, rot, d, b)
    } else if k == 22 {
        edge(r, rot, 0) && edge(r, rot, 1) && edge(r, rot, 2) && !edge(r, rot, 3) && hi(
            r,
            rot,
            a,
            c,
        )
    } else if k == 23 {
        edge(r, rot, 0) && edge(r, rot, 3) && edge(r, rot, 2) && !edge(r, rot, 1) && hi(
            r,
            rot,
            b,
            d,
        )
    } else {
        false
    }
}

/// The geometry rule `k` selects.
pub open spec fn rule_case(k: int) -> CellCase {
    if k == 0 {
        CellCase::OuterCorner
    } else if k == 1 {
        CellCase::Edge
    } else if k == 2 {
        CellCase::EdgeAOuterCorner
    } else if k == 3 {
        CellCase::EdgeBOuterCorner
    } else if k == 4 {
        CellCase::DoubleInnerCorner
    } else if k == 5 {
        CellCase::DoubleInnerCornerOuter
    } else if k == 6 {
        CellCase::InnerCorner
    } else if k == 7 {
        CellCase::InnerAsymmetricBd
    } else if k == 8 {
        CellCase::InnerAsymmetricCd
    } else if k == 9 {
        CellCase::InnerDiagonalOuter
    } else if k == 10 {
        CellCase::InnerCornerEdgeBd
    } else if k == 11 {
        CellCase::InnerCornerEdgeCd
    } else if k == 12 {
        CellCase::SpiralClockwise
    } else if k == 13 {
        CellCase::SpiralCounter
    } else if k == 14 {
        CellCase::StaircaseAbcd
    } else if k == 15 {
        CellCase::StaircaseAcbd
    } else if k == 16 {
        CellCase::Edge
    } else if k == 17 {
        CellCase::OuterDiagonalInner
    } else if k == 18 {
        CellCase::OuterDiagonalOuter
    } else if k == 19 {
        CellCase::OuterPartialEdgeB
    } else if k == 20 {
        CellCase::OuterPartialEdgeC
    } else if k == 21 {
        CellCase::OuterInnerComposite
    } else if k == 22 {
        CellCase::SingleWallAc
    } else {
        CellCase::SingleWallBd
    }
}

/// The case of the first rule from `k` on that applies under `rot`, if any.
pub open spec fn first_rule_from(r: CornerRelations, rot: int, k: int) -> Option<CellCase>
    decreases 24 - k,
{
    if k >= 24 || k < 0 {
        None
    } else if rule_holds(r, rot, k) {
        Some(rule_case(k))
    } else {
        first_rule_from(r, rot, k + 1)
    }
}

/// The case the cell matches under rotation `rot`: that of the first rule that applies.
pub open spec fn spec_match_case(r: CornerRelations, rot: int) -> Option<CellCase> {
    first_rule_from(r, rot, 0)
}

proof fn lemma_first_rule_from(r: CornerRelations, rot: int, k: int)
    requires
        0 <= k <= 24,
    ensures
        first_rule_from(r, rot, k) is Some <==> exists|j: int| k <= j < 24 && rule_holds(r, rot, j),
        first_rule_from(r, rot, k) is Some ==> exists|j: int|
            k <= j < 24 && rule_holds(r, rot, j) && first_rule_from(r, rot, k) == Some(
                rule_case(j),
            ) && forall|i: int| k <= i < j ==> !rule_holds(r, rot, i),
    decreases 24 - k,
{
    if k < 24 {
        lemma_first_rule_from(r, rot, k + 1);
    }
}

/// Whether rule `k` applies under `rot`.
fn rule_applies(r: &CornerRelations, rot: usize, k: usize) -> (b: bool)
    requires
        rot < 4,
        k < 24,
    ensures
        b == rule_holds(*r, rot as int, k as int),
{
    let ia = rot;
    let ib = (rot + 1) % 4;
    let id = (rot + 2) % 4;
    let ic = (rot + 3) % 4;
    let hi_ = |x: usize, y: usize| -> (v: bool)
        requires
            x < 4,
            y < 4,
        ensures
            v == r.higher@[x as int]@[y as int],
        { r.higher[x][y] };
    let lo_ = |x: usize, y: usize| -> (v: bool)
        requires
            x < 4,
            y < 4,
        ensures
            v == r.lower@[x as int]@[y as int],
        { r.lower[x][y] };
    let mg_ = |x: usize, y: usize| -> (v: bool)
        requires
            x < 4,
            y < 4,
        ensures
            v == r.merged@[x as int]@[y as int],
        { r.merged[x][y] };
    let ab = r.edges[rot];
    let bd = r.edges[(rot + 1) % 4];
    let cd = r.edges[(rot + 2) % 4];
    let ac = r.edges[(rot + 3) % 4];
    match k {
        0 => hi_(ia, ib) && hi_(ia, ic) && bd && cd,
        1 => hi_(ia, ic) && hi_(ib, id) && bd && cd,
        2 => hi_(ia, ib) && hi_(ia, ic) && hi_(ib, id) && cd,
        3 => hi_(ib, ia) && hi_(ia, ic) && hi_(ib, id) && cd,
        4 => lo_(ia, ib) && lo_(ia, ic) && lo_(id, ib) && lo_(id, ic) && mg_(ib, ic),
        5 => lo_(ia, ib) && lo_(ia, ic) && lo_(id, ib) && lo_(id, ic) && hi_(ib, ic),
        6 => lo_(ia, ib) && lo_(ia, ic) && bd && cd,
        7 => lo_(ia, ib) && lo_(ia, ic) && bd && !cd && hi_(ic, id),
        8 => lo_(ia, ib) && lo_(ia, ic) && !bd && cd && hi_(ib, id),
        9 => lo_(ia, ib) && lo_(ia, ic) && !bd && !cd && hi_(ib, id) && hi_(ic, id) && mg_(ib, ic),
        10 => lo_(ia, ib) && lo_(ia, ic) && hi_(id, ic) && bd,
        11 => lo_(ia, ib) && lo_(ia, ic) && hi_(id, ib) && cd,
        12 => lo_(ia, ib) && lo_(ib, id) && lo_(id, ic) && hi_(ic, ia),
        13 => lo_(ia, ic) && lo_(ic, id) && lo_(id, ib) && hi_(ib, ia),
        14 => lo_(ia, ib) && lo_(ib, ic) && lo_(ic, id),
        15 => lo_(ia, ic) && lo_(ic, ib) && lo_(ib, id),
        16 => hi_(ia, ic) && mg_(ia, ib) && mg_(ic, id) && ab && cd,
        17 => hi_(ia, ib) && hi_(ia, ic) && !bd && !cd && lo_(id, ib) && lo_(id, ic),
        18 => hi_(ia, ib) && hi_(ia, ic) && mg_(ib, ic) && hi_(ib, id) && hi_(ic, id),
        19 => hi_(ia, ib) && hi_(ia, ic) && hi_(ib, ic) && !cd,
        20 => hi_(ia, ib) && hi_(ia, ic) && hi_(ic, ib) && !bd,
        21 => hi_(ia, ib) && mg_(ib, ic) && !bd && lo_(id, ib),
        22 => ab && bd && cd && !ac && hi_(ia, ic),
        _ => ab && ac && cd && !bd && hi_(ib, id),
    }
}

/// The geometry rule `k` selects.
fn case_of_rule(k: usize) -> (c: CellCase)
    requires
        k < 24,
    ensures
        c == rule_case(k as int),
{
    match k {
        0 => CellCase::OuterCorner,
        1 => CellCase::Edge,
        2 => CellCase::EdgeAOuterCorner,
        3 => CellCase::EdgeBOuterCorner,
        4 => CellCase::DoubleInnerCorner,
        5 => CellCase::DoubleInnerCornerOuter,
        6 => CellCase::InnerCorner,
        7 => CellCase::InnerAsymmetricBd,
        8 => CellCase::InnerAsymmetricCd,
        9 => CellCase::InnerDiagonalOuter,
        10 => CellCase::InnerCornerEdgeBd,
        11 => CellCase::InnerCornerEdgeCd,
        12 => CellCase::SpiralClockwise,
        13 => CellCase::SpiralCounter,
        14 => CellCase::StaircaseAbcd,
        15 => CellCase::StaircaseAcbd,
        16 => CellCase::Edge,
        17 => CellCase::OuterDiagonalInner,
        18 => CellCase::OuterDiagonalOuter,
        19 => CellCase::OuterPartialEdgeB,
        20 => CellCase::OuterPartialEdgeC,
        21 => CellCase::OuterInnerComposite,
        22 => CellCase::SingleWallAc,
        _ => CellCase::SingleWallBd,
    }
}

/// The geometry case of the cell seen under rotation `rotation`: the case of
/// the first classification rule that applies, or `None` when none does.
pub fn match_case(r: &CornerRelations, rotation: usize) -> (c: Option<CellCase>)
    requires
        relations_consistent(*r),
        rotation < 4,
    ensures
        c == spec_match_case(*r, rotation as int),
{
    let mut k: usize = 0;
    while k < 24
        invariant
            k <= 24,
            rotation < 4,
            first_rule_from(*r, rotation as int, 0) == first_rule_from(*r, rotation as int, k as int),
        decreases 24 - k,
    {
        if rule_applies(r, rotation, k) {
            return Some(case_of_rule(k));
        }
        k = k + 1;
    }
    None
}

/// All four edges of the cell are slopes.
pub open spec fn all_edges_merged(r: CornerRelations) -> bool {
    r.edges@[0] && r.edges@[1] && r.edges@[2] && r.edges@[3]
}

/// The first rotation from `rot` on under which some rule applies, with its case.
pub open spec fn first_rotation_from(r: CornerRelations, rot: int) -> Option<(int, CellCase)>
    decreases 4 - rot,
{
    if rot >= 4 || rot < 0 {
        None
    } else {
        match spec_match_case(r, rot) {
            Some(c) => Some((rot, c)),
            None => first_rotation_from(r, rot + 1),
        }
    }
}

/// The rotation and geometry a cell is built with: a full floor when every
/// edge is a slope; otherwise the first rotation under which a rule applies
/// and that rule's case; a full floor in the unrotated frame when none does.
pub open spec fn spec_select_case(r: CornerRelations) -> (int, CellCase) {
    if all_edges_merged(r) {
        (0, CellCase::FullFloor)
    } else {
        match first_rotation_from(r, 0) {
            Some(p) => p,
            None => (0, CellCase::FullFloor),
        }
    }
}

/// Chooses the rotation and geometry case for a cell from its corner relations.
pub fn select_case(r: &CornerRelations) -> (res: (usize, CellCase))
    requires
        relations_consistent(*r),
    ensures
        (res.0 as int, res.1) == spec_select_case(*r),
        res.0 < 4,
{
    if r.edges[0] && r.edges[1] && r.edges[2] && r.edges[3] {
        return (0, CellCase::FullFloor);
    }
    let mut rot: usize = 0;
    while rot < 4
        invariant
            rot <= 4,
            relations_consistent(*r),
            !all_edges_merged(*r),
            first_rotation_from(*r, 0) == first_rotation_from(*r, rot as int),
        decreases 4 - rot,
    {
        match match_case(r, rot) {
            Some(c) => {
                return (rot, c);
            },
            None => {},
        }
        rot = rot + 1;
    }
    (0, CellCase::FullFloor)
}

/// The chosen geometry is justified: a case other than the full floor comes
/// from a rule that applies under the chosen rotation, no earlier rotation
/// has an applicable rule, and a full floor is chosen only when every edge is
/// a slope or no rule applies under any rotation.
pub proof fn lemma_select_case_justified(r: CornerRelations)
    requires
        relations_consistent(r),
    ensures
        ({
            let (rot, c) = spec_select_case(r);
            &&& 0 <= rot < 4
            &&& c != CellCase::FullFloor ==> (exists|k: int|
                0 <= k < 24 && rule_holds(r, rot, k) && rule_case(k) == c)
            &&& c != CellCase::FullFloor ==> forall|p: int, k: int|
                0 <= p < rot && 0 <= k < 24 ==> !rule_holds(r, p, k)
            &&& c == CellCase::FullFloor ==> (all_edges_merged(r) || forall|p: int, k: int|
                0 <= p < 4 && 0 <= k < 24 ==> !rule_holds(r, p, k))
        }),
{
    lemma_first_rule_from(r, 0, 0);
    lemma_first_rule_from(r, 1, 0);
    lemma_first_rule_from(r, 2, 0);
    lemma_first_rule_from(r, 3, 0);
    assert(first_rotation_from(r, 4) is None);
    reveal_with_fuel(first_rotation_from, 5);
    let (rot, c) = spec_select_case(r);
    assert forall|k: int| 0 <= k < 24 && rule_case(k) == CellCase::FullFloor implies false by {}
    if c == CellCase::FullFloor && !all_edges_merged(r) {
        assert forall|p: int, k: int| 0 <= p < 4 && 0 <= k < 24 implies !rule_holds(r, p, k) by {
            lemma_first_rule_from(r, p, 0);
            if rule_holds(r, p, k) {
                let j = choose|j: int|
                    0 <= j < 24 && rule_holds(r, p, j) && first_rule_from(r, p, 0) == Some(
                        rule_case(j),
                    ) && forall|i: int| 0 <= i < j ==> !rule_holds(r, p, i);
            }
        }
    }
}

/// The relations determined by consistency for the pairs of corners `i`, `j`.
proof fn lemma_pair_facts(r: CornerRelations, i: int, j: int)
    requires
        relations_consistent(r),
        0 <= i < 4,
        0 <= j < 4,
        r.lower@[i]@[j],
    ensures
        r.higher@[j]@[i],
        !r.higher@[i]@[j],
        !r.lower@[j]@[i],
        !r.merged@[i]@[j],
        !r.merged@[j]@[i],
{
    assert(r.higher@[j]@[i] == r.lower@[i]@[j]);
    assert(r.higher@[i]@[j] == r.lower@[j]@[i]);
}

/// A cell whose corners rise strictly, wall after wall, in the order
/// A < C < D < B (a counter-clockwise spiral) is built unrotated as
/// `SpiralCounter`.
pub proof fn lemma_counter_spiral_case(r: CornerRelations)
    requires
        relations_consistent(r),
        r.lower@[0]@[3],
        r.lower@[0]@[2],
        r.lower@[0]@[1],
        r.lower@[3]@[2],
        r.lower@[3]@[1],
        r.lower@[2]@[1],
    ensures
        spec_select_case(r) == (0int, CellCase::SpiralCounter),
{
    lemma_pair_facts(r, 0, 3);
    lemma_pair_facts(r, 0, 2);
    lemma_pair_facts(r, 0, 1);
    lemma_pair_facts(r, 3, 2);
    lemma_pair_facts(r, 3, 1);
    lemma_pair_facts(r, 2, 1);
    assert(slot(0, 0) == 0 && slot(0, 1) == 1 && slot(0, 2) == 2 && slot(0, 3) == 3);
    assert(!all_edges_merged(r));
    assert(!rule_holds(r, 0, 0));
    assert(!rule_holds(r, 0, 1));
    assert(!rule_holds(r, 0, 2));
    assert(!rule_holds(r, 0, 3));
    assert(!rule_holds(r, 0, 4));
    assert(!rule_holds(r, 0, 5));
    assert(!rule_holds(r, 0, 6));
    assert(!rule_holds(r, 0, 7));
    assert(!rule_holds(r, 0, 8));
    assert(!rule_holds(r, 0, 9));
    assert(!rule_holds(r, 0, 10));
    assert(!rule_holds(r, 0, 11));
    assert(!rule_holds(r, 0, 12));
    assert(rule_holds(r, 0, 13));
    assert(first_rule_from(r, 0, 13) == Some(rule_case(13)));
    assert(first_rule_from(r, 0, 12) == Some(rule_case(13)));
    assert(first_rule_from(r, 0, 11) == Some(rule_case(13)));
    assert(first_rule_from(r, 0, 10) == Some(rule_case(13)));
    assert(first_rule_from(r, 0, 9) == Some(rule_case(13)));
    assert(first_rule_from(r, 0, 8) == Some(rule_case(13)));
    assert(first_rule_from(r, 0, 7) == Some(rule_case(13)));
    assert(first_rule_from(r, 0, 6) == Some(rule_case(13)));
    assert(first_rule_from(r, 0, 5) == Some(rule_case(13)));
    assert(first_rule_from(r, 0, 4) == Some(rule_case(13)));
    assert(first_rule_from(r, 0, 3) == Some(rule_case(13)));
    assert(first_rule_from(r, 0, 2) == Some(rule_case(13)));
    assert(first_rule_from(r, 0, 1) == Some(rule_case(13)));
    assert(first_rule_from(r, 0, 0) == Some(rule_case(13)));
    assert(first_rotation_from(r, 0) == Some((0int, CellCase::SpiralCounter)));
}

/// A cell whose corners rise strictly, wall after wall, in the order
/// A < B < D < C (a clockwise spiral) is built unrotated as
/// `SpiralClockwise`, a different case from the counter-clockwise spiral.
pub proof fn lemma_clockwise_spiral_case(r: CornerRelations)
    requires
        relations_consistent(r),
        r.lower@[0]@[1],
        r.lower@[0]@[2],
        r.lower@[0]@[3],
        r.lower@[1]@[2],
        r.lower@[1]@[3],
        r.lower@[2]@[3],
    ensures
        spec_select_case(r) == (0int, CellCase::SpiralClockwise),
        CellCase::SpiralClockwise != CellCase::SpiralCounter,
{
    lemma_pair_facts(r, 0, 1);
    lemma_pair_facts(r, 0, 2);
    lemma_pair_facts(r, 0, 3);
    lemma_pair_facts(r, 1, 2);
    lemma_pair_facts(r, 1, 3);
    lemma_pair_facts(r, 2, 3);
    assert(slot(0, 0) == 0 && slot(0, 1) == 1 && slot(0, 2) == 2 && slot(0, 3) == 3);
    assert(!all_edges_merged(r));
    assert(!rule_holds(r, 0, 0));
    assert(!rule_holds(r, 0, 1));
    assert(!rule_holds(r, 0, 2));
    assert(!rule_holds(r, 0, 3));
    assert(!rule_holds(r, 0, 4));
    assert(!rule_holds(r, 0, 5));
    assert(!rule_holds(r, 0, 6));
    assert(!rule_holds(r, 0, 7));
    assert(!rule_holds(r, 0, 8));
    assert(!rule_holds(r, 0, 9));
    assert(!rule_holds(r, 0, 10));
    assert(!rule_holds(r, 0, 11));
    assert(rule_holds(r, 0, 12));
    assert(first_rule_from(r, 0, 12) == Some(rule_case(12)));
    assert(first_rule_from(r, 0, 11) == Some(rule_case(12)));
    assert(first_rule_from(r, 0, 10) == Some(rule_case(12)));
    assert(first_rule_from(r, 0, 9) == Some(rule_case(12)));
    assert(first_rule_from(r, 0, 8) == Some(rule_case(12)));
    assert(first_rule_from(r, 0, 7) == Some(rule_case(12)));
    assert(first_rule_from(r, 0, 6) == Some(rule_case(12)));
    assert(first_rule_from(r, 0, 5) == Some(rule_case(12)));
    assert(first_rule_from(r, 0, 4) == Some(rule_case(12)));
    assert(first_rule_from(r, 0, 3) == Some(rule_case(12)));
    assert(first_rule_from(r, 0, 2) == Some(rule_case(12)));
    assert(first_rule_from(r, 0, 1) == Some(rule_case(12)));
    assert(first_rule_from(r, 0, 0) == Some(rule_case(12)));
    assert(first_rotation_from(r, 0) == Some((0int, CellCase::SpiralClockwise)));
}

} // verus!
