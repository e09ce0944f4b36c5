//! Decisions of the terrain editor's viewport input: which surface a pointer
//! ray is cast against, how left-button presses, releases and drags move the
//! drawing tools through their painting and height-setting steps, and what a
//! click does in chunk management. The editor performs the actions; this
//! module decides them.
use vstd::prelude::*;

verus! {

/// Tool selected in the terrain editor.
#[derive(Clone, Copy, Debug, PartialEq, Eq, Structural)]
pub enum TerrainToolMode {
    Height,
    Level,
    Smooth,
    Bridge,
    GrassMask,
    VertexPaint,
    DebugBrush,
    ChunkManagement,
    TerrainSettings,
}

impl Default for TerrainToolMode {
    fn default() -> (m: Self)
        ensures
            m == TerrainToolMode::Height,
    {
        TerrainToolMode::Height
    }
}

/// The tools that draw on the terrain with a brush.
pub open spec fn spec_is_draw_mode(m: TerrainToolMode) -> bool {
    !(m == TerrainToolMode::ChunkManagement || m == TerrainToolMode::TerrainSettings)
}

impl TerrainToolMode {
    /// Whether the tool draws on the terrain with a brush.
    pub fn is_draw_mode(self) -> (b: bool)
        ensures
            b == spec_is_draw_mode(self),
    {
        !matches!(self, TerrainToolMode::ChunkManagement | TerrainToolMode::TerrainSettings)
    }
}

/// The tool of toolbar button `tool_index`: the tools in toolbar order,
/// `Height` for an unknown button.
pub open spec fn spec_tool_for_index(tool_index: int) -> TerrainToolMode {
    if tool_index == 1 {
        TerrainToolMode::Level
    } else if tool_index == 2 {
        TerrainToolMode::Smooth
    } else if tool_index == 3 {
        TerrainToolMode::Bridge
    } else if tool_index == 4 {
        TerrainToolMode::GrassMask
    } else if tool_index == 5 {
        TerrainToolMode::VertexPaint
    } else if tool_index == 6 {
        TerrainToolMode::DebugBrush
    } else if tool_index == 7 {
        TerrainToolMode::ChunkManagement
    } else if tool_index == 8 {
        TerrainToolMode::TerrainSettings
    } else {
        TerrainToolMode::Height
    }
}

/// The tool selected when toolbar button `tool_index` is toggled: none when
/// the button was released, else the button's tool.
pub fn on_tool_button_toggled(pressed: bool, tool_index: i32) -> (m: Option<TerrainToolMode>)
    ensures
        m == if pressed {
            Some(spec_tool_for_index(tool_index as int))
        } else {
            None
        },
{
    if !pressed {
        return None;
    }
    let mode = match tool_index {
        0 => TerrainToolMode::Height,
        1 => TerrainToolMode::Level,
        2 => TerrainToolMode::Smooth,
        3 => TerrainToolMode::Bridge,
        4 => TerrainToolMode::GrassMask,
        5 => TerrainToolMode::VertexPaint,
        6 => TerrainToolMode::DebugBrush,
        7 => TerrainToolMode::ChunkManagement,
        8 => TerrainToolMode::TerrainSettings,
        _ => TerrainToolMode::Height,
    };
    Some(mode)
}

/// Where a drawing tool stands in its workflow.
#[derive(Clone, Copy, Debug, PartialEq, Eq, Structural)]
pub struct DrawToolState {
    pub mode: TerrainToolMode,
    /// Painting the area of a two-click edit (first click held or released).
    pub is_setting: bool,
    /// The area is painted and the height is being set.
    pub draw_height_set: bool,
    /// Click-drag drawing in progress.
    pub is_drawing: bool,
    /// A bridge is being dragged.
    pub is_making_bridge: bool,
    /// Edits flatten to the draw height.
    pub flatten: bool,
    /// Edits fall off towards the brush edge.
    pub falloff: bool,
}

/// Surface the pointer ray is intersected with.
#[derive(Clone, Copy, Debug, PartialEq, Eq, Structural)]
pub enum RaycastStrategy {
    /// Vertical plane through the base position, facing the camera: setting a height.
    HeightPlane,
    /// Horizontal plane at the draw height: flattening a pattern.
    DrawHeightPlane,
    /// Horizontal plane at the level tool's target height.
    LevelPlane,
    /// The physics ray against the terrain's collision shapes.
    Physics,
}

/// The surface the pointer ray is cast against.
pub open spec fn spec_raycast_strategy(s: DrawToolState, pattern_empty: bool) -> RaycastStrategy {
    if s.is_setting && s.draw_height_set {
        RaycastStrategy::HeightPlane
    } else if !pattern_empty && s.flatten {
        RaycastStrategy::DrawHeightPlane
    } else if s.is_drawing && s.mode == TerrainToolMode::Level {
        RaycastStrategy::LevelPlane
    } else {
        RaycastStrategy::Physics
    }
}

/// Chooses the surface the pointer ray is cast against.
pub fn raycast_strategy(s: &DrawToolState, pattern_empty: bool) -> (r: RaycastStrategy)
    ensures
        r == spec_raycast_strategy(*s, pattern_empty),
{
    if s.is_setting && s.draw_height_set {
        RaycastStrategy::HeightPlane
    } else if !pattern_empty && s.flatten {
        RaycastStrategy::DrawHeightPlane
    } else if s.is_drawing && s.mode == TerrainToolMode::Level {
        RaycastStrategy::LevelPlane
    } else {
        RaycastStrategy::Physics
    }
}

/// Whether holding Alt clears the pattern: always, except while setting a height.
pub fn alt_clears_pattern(s: &DrawToolState, alt_held: bool) -> (b: bool)
    ensures
        b == (alt_held && !s.is_setting),
{
    alt_held && !s.is_setting
}

/// An effect the editor performs, in the order given.
#[derive(Clone, Copy, Debug, PartialEq, Eq, Structural)]
pub enum DrawAction {
    /// Apply the current pattern to the terrain.
    DrawPattern,
    /// Forget the current pattern.
    ClearPattern,
    /// Add the cells under the brush to the pattern.
    BuildDrawPattern,
    /// Record the terrain state a new stroke starts from.
    InitializeDrawState,
    /// Record the bridge's start position and chunk.
    StartBridge,
    /// Take the level tool's target height from the brush position.
    SetLevelHeight,
    /// Take the draw height from the brush position.
    SetDrawHeight,
}

/// Tools that paint with a simple press-drag-release.
pub open spec fn is_drag_tool(m: TerrainToolMode) -> bool {
    m == TerrainToolMode::Level || m == TerrainToolMode::Smooth || m == TerrainToolMode::GrassMask
        || m == TerrainToolMode::VertexPaint
}

/// Tools whose pattern is applied when the drag ends.
pub open spec fn applies_on_release(m: TerrainToolMode) -> bool {
    m == TerrainToolMode::GrassMask || m == TerrainToolMode::Level || m == TerrainToolMode::Bridge
        || m == TerrainToolMode::DebugBrush
}

/// Tools whose pattern is applied continuously while dragging.
pub open spec fn applies_while_dragging(m: TerrainToolMode) -> bool {
    m == TerrainToolMode::Smooth || m == TerrainToolMode::VertexPaint || m
        == TerrainToolMode::GrassMask
}

/// Tool settings adjusted when a stroke starts: a bridge starts (without
/// flattening), smoothing gets falloff, and masking, painting and debugging
/// lose falloff and flattening.
pub open spec fn press_settings(s: DrawToolState) -> DrawToolState {
    let m = s.mode;
    let bridge = m == TerrainToolMode::Bridge && !s.is_making_bridge;
    let s1 = if bridge {
        DrawToolState { flatten: false, is_making_bridge: true, ..s }
    } else {
        s
    };
    let s2 = if m == TerrainToolMode::Smooth && !s1.falloff {
        DrawToolState { falloff: true, ..s1 }
    } else {
        s1
    };
    let s3 = if (m == TerrainToolMode::GrassMask || m == TerrainToolMode::DebugBrush) && s2.falloff {
        DrawToolState { falloff: false, ..s2 }
    } else {
        s2
    };
    if (m == TerrainToolMode::GrassMask || m == TerrainToolMode::VertexPaint || m
        == TerrainToolMode::DebugBrush) && s3.flatten {
        DrawToolState { flatten: false, ..s3 }
    } else {
        s3
    }
}

/// Tool state and actions after a left-button press or release over a
/// drawing tool. `hovered` says whether the ray found a point to draw at.
pub open spec fn spec_left_button(
    s: DrawToolState,
    pressed: bool,
    hovered: bool,
    shift_held: bool,
    ctrl_held: bool,
) -> (DrawToolState, Seq<DrawAction>) {
    if pressed && s.is_setting && s.draw_height_set {
        // The second click of a two-click edit applies it.
        (
            DrawToolState { is_setting: false, draw_height_set: false, ..s },
            seq![DrawAction::DrawPattern, DrawAction::ClearPattern],
        )
    } else if pressed && hovered {
        let bridge = s.mode == TerrainToolMode::Bridge && !s.is_making_bridge;
        let t = press_settings(s);
        let start = if bridge {
            seq![DrawAction::StartBridge]
        } else {
            Seq::empty()
        };
        let (u, pick) = if s.mode == TerrainToolMode::Level && ctrl_held {
            (t, seq![DrawAction::SetLevelHeight])
        } else if shift_held || is_drag_tool(s.mode) {
            (DrawToolState { is_drawing: true, ..t }, Seq::empty())
        } else {
            (
                DrawToolState { is_setting: true, ..t },
                if !t.flatten {
                    seq![DrawAction::SetDrawHeight]
                } else {
                    Seq::empty()
                },
            )
        };
        let build = if u.is_drawing {
            seq![DrawAction::BuildDrawPattern]
        } else {
            Seq::empty()
        };
        (u, start + pick + seq![DrawAction::InitializeDrawState] + build)
    } else if !pressed {
        let s1 = DrawToolState { is_making_bridge: false, ..s };
        let (s2, acts) = if s.is_drawing {
            let a = if applies_on_release(s.mode) {
                seq![DrawAction::DrawPattern, DrawAction::ClearPattern]
            } else if s.mode == TerrainToolMode::Smooth || s.mode == TerrainToolMode::VertexPaint {
                seq![DrawAction::ClearPattern]
            } else {
                Seq::empty()
            };
            (DrawToolState { is_drawing: false, draw_height_set: false, ..s1 }, a)
        } else {
            (s1, Seq::empty())
        };
        // Releasing the first click of a two-click edit starts setting the height.
        if s2.is_setting && !s2.draw_height_set {
            (DrawToolState { draw_height_set: true, ..s2 }, acts)
        } else {
            (s2, acts)
        }
    } else {
        (s, Seq::empty())
    }
}

/// Handles a left-button press or release over a drawing tool: the new tool
/// state and the actions to perform, in order. The event is always consumed.
pub fn left_button(
    s: &DrawToolState,
    pressed: bool,
    hovered: bool,
    shift_held: bool,
    ctrl_held: bool,
) -> (r: (DrawToolState, Vec<DrawAction>))
    ensures
        (r.0, r.1@) == spec_left_button(*s, pressed, hovered, shift_held, ctrl_held),
{
    let mut t = *s;
    let mut acts: Vec<DrawAction> = Vec::new();
    if pressed && t.is_setting && t.draw_height_set {
        acts.push(DrawAction::DrawPattern);
        acts.push(DrawAction::ClearPattern);
        t.is_setting = false;
        t.draw_height_set = false;
        assert(acts@ =~= seq![DrawAction::DrawPattern, DrawAction::ClearPattern]);
        return (t, acts);
    }
    if pressed && hovered {
        let m = t.mode;
        if m == TerrainToolMode::Bridge && !t.is_making_bridge {
            t.flatten = false;
            t.is_making_bridge = true;
            acts.push(DrawAction::StartBridge);
        }
        if m == TerrainToolMode::Smooth && !t.falloff {
            t.falloff = true;
        }
        if (m == TerrainToolMode::GrassMask || m == TerrainToolMode::DebugBrush) && t.falloff {
            t.falloff = false;
        }
        if (m == TerrainToolMode::GrassMask || m == TerrainToolMode::VertexPaint || m
            == TerrainToolMode::DebugBrush) && t.flatten {
            t.flatten = false;
        }
        assert(t == press_settings(*s));
        let ghost start = acts@;
        if m == TerrainToolMode::Level && ctrl_held {
            acts.push(DrawAction::SetLevelHeight);
        } else if shift_held || m == TerrainToolMode::Level || m == TerrainToolMode::Smooth || m
            == TerrainToolMode::GrassMask || m == TerrainToolMode::VertexPaint {
            t.is_drawing = true;
        } else {
            t.is_setting = true;
            if !t.flatten {
                acts.push(DrawAction::SetDrawHeight);
            }
        }
        let ghost picked = acts@;
        acts.push(DrawAction::InitializeDrawState);
        if t.is_drawing {
            acts.push(DrawAction::BuildDrawPattern);
        }
        proof {
            let spec = spec_left_button(*s, pressed, hovered, shift_held, ctrl_held);
            assert(t == spec.0);
            assert(acts@ =~= spec.1);
        }
        return (t, acts);
    }
    if !pressed {
        t.is_making_bridge = false;
        if t.is_drawing {
            t.is_drawing = false;
            let m = t.mode;
            if m == TerrainToolMode::GrassMask || m == TerrainToolMode::Level || m
                == TerrainToolMode::Bridge || m == TerrainToolMode::DebugBrush {
                acts.push(DrawAction::DrawPattern);
                acts.push(DrawAction::ClearPattern);
            }
            if m == TerrainToolMode::Smooth || m == TerrainToolMode::VertexPaint {
                acts.push(DrawAction::ClearPattern);
            }
            t.draw_height_set = false;
        }
        if t.is_setting && !t.draw_height_set {
            t.draw_height_set = true;
        }
        proof {
            let spec = spec_left_button(*s, pressed, hovered, shift_held, ctrl_held);
            assert(t == spec.0);
            assert(acts@ =~= spec.1);
        }
        return (t, acts);
    }
    assert(acts@ =~= Seq::<DrawAction>::empty());
    (t, acts)
}

/// Actions for pointer motion over a drawing tool: painting the first click's
/// area adds to the pattern, and so does a drag, which tools that apply
/// continuously also apply at once.
pub open spec fn spec_mouse_motion(s: DrawToolState, hovered: bool) -> Seq<DrawAction> {
    let painting = if s.is_setting && !s.draw_height_set && hovered {
        seq![DrawAction::BuildDrawPattern]
    } else {
        Seq::empty()
    };
    let dragging = if hovered && s.is_drawing {
        if applies_while_dragging(s.mode) {
            seq![DrawAction::BuildDrawPattern, DrawAction::DrawPattern, DrawAction::ClearPattern]
        } else {
            seq![DrawAction::BuildDrawPattern]
        }
    } else {
        Seq::empty()
    };
    painting + dragging
}

/// The actions for pointer motion over a drawing tool, in order.
pub fn mouse_motion(s: &DrawToolState, hovered: bool) -> (acts: Vec<DrawAction>)
    ensures
        acts@ == spec_mouse_motion(*s, hovered),
{
    let mut acts: Vec<DrawAction> = Vec::new();
    if s.is_setting && !s.draw_height_set && hovered {
        acts.push(DrawAction::BuildDrawPattern);
    }
    if hovered && s.is_drawing {
        acts.push(DrawAction::BuildDrawPattern);
        let m = s.mode;
        if m == TerrainToolMode::Smooth || m == TerrainToolMode::VertexPaint || m
            == TerrainToolMode::GrassMask {
            acts.push(DrawAction::DrawPattern);
            acts.push(DrawAction::ClearPattern);
        }
    }
    assert(acts@ =~= spec_mouse_motion(*s, hovered));
    acts
}

/// A full two-click edit with a tool that is not a drag tool (height,
/// bridge, debug brush), without modifier keys: the first press starts
/// painting, its release starts setting the height, and the second press
/// applies the pattern and returns the tool to rest.
pub proof fn lemma_two_click_workflow(s: DrawToolState)
    requires
        spec_is_draw_mode(s.mode),
        !is_drag_tool(s.mode),
        !s.is_setting,
        !s.draw_height_set,
        !s.is_drawing,
    ensures
        ({
            let (s1, a1) = spec_left_button(s, true, true, false, false);
            let (s2, a2) = spec_left_button(s1, false, true, false, false);
            let (s3, a3) = spec_left_button(s2, true, true, false, false);
            &&& s1.is_setting && !s1.draw_height_set
            &&& a1.contains(DrawAction::InitializeDrawState)
            &&& s2.is_setting && s2.draw_height_set && a2.len() == 0
            &&& a3 == seq![DrawAction::DrawPattern, DrawAction::ClearPattern]
            &&& !s3.is_setting && !s3.draw_height_set && !s3.is_drawing
        }),
{
    let (s1, a1) = spec_left_button(s, true, true, false, false);
    let t = press_settings(s);
    assert(s1 == DrawToolState { is_setting: true, ..t });
    assert(a1.contains(DrawAction::InitializeDrawState)) by {
        let start = if s.mode == TerrainToolMode::Bridge && !s.is_making_bridge {
            seq![DrawAction::StartBridge]
        } else {
            Seq::<DrawAction>::empty()
        };
        let pick = if !t.flatten {
            seq![DrawAction::SetDrawHeight]
        } else {
            Seq::<DrawAction>::empty()
        };
        assert(a1 =~= start + pick + seq![DrawAction::InitializeDrawState]);
        assert(a1[(start.len() + pick.len()) as int] == DrawAction::InitializeDrawState);
    }
}

/// Dragging a continuous tool (smooth, vertex paint, grass mask) over the
/// terrain builds the pattern under the brush, applies it and clears it,
/// on every motion.
pub proof fn lemma_continuous_tools_apply_while_dragging(s: DrawToolState)
    requires
        s.mode == TerrainToolMode::Smooth || s.mode == TerrainToolMode::VertexPaint || s.mode
            == TerrainToolMode::GrassMask,
        s.is_drawing,
        !(s.is_setting && !s.draw_height_set),
    ensures
        spec_mouse_motion(s, true) == seq![
            DrawAction::BuildDrawPattern,
            DrawAction::DrawPattern,
            DrawAction::ClearPattern,
        ],
{
    assert(spec_mouse_motion(s, true) =~= seq![
        DrawAction::BuildDrawPattern,
        DrawAction::DrawPattern,
        DrawAction::ClearPattern,
    ]);
}

/// A drag with a drag tool, a bridge or the debug brush applies its
/// pattern: on each motion over the terrain, or when the button is released.
pub proof fn lemma_drag_pattern_applied(
    s: DrawToolState,
    hovered: bool,
    shift_held: bool,
    ctrl_held: bool,
)
    requires
        s.is_drawing,
        s.mode == TerrainToolMode::Level || s.mode == TerrainToolMode::Smooth || s.mode
            == TerrainToolMode::GrassMask || s.mode == TerrainToolMode::VertexPaint || s.mode
            == TerrainToolMode::Bridge || s.mode == TerrainToolMode::DebugBrush,
    ensures
        spec_mouse_motion(s, true).contains(DrawAction::DrawPattern) || spec_left_button(
            s,
            false,
            hovered,
            shift_held,
            ctrl_held,
        ).1.contains(DrawAction::DrawPattern),
{
    let m = spec_mouse_motion(s, true);
    let a = spec_left_button(s, false, hovered, shift_held, ctrl_held).1;
    if s.mode == TerrainToolMode::Smooth || s.mode == TerrainToolMode::VertexPaint || s.mode
        == TerrainToolMode::GrassMask {
        let painting = if s.is_setting && !s.draw_height_set {
            seq![DrawAction::BuildDrawPattern]
        } else {
            Seq::<DrawAction>::empty()
        };
        assert(m =~= painting + seq![
            DrawAction::BuildDrawPattern,
            DrawAction::DrawPattern,
            DrawAction::ClearPattern,
        ]);
        assert(m[painting.len() + 1int] == DrawAction::DrawPattern);
    } else {
        assert(a =~= seq![DrawAction::DrawPattern, DrawAction::ClearPattern]);
        assert(a[0] == DrawAction::DrawPattern);
    }
}

/// Releasing the button always ends a drag and a bridge.
pub proof fn lemma_release_ends_drag(s: DrawToolState, hovered: bool, shift_held: bool, ctrl_held: bool)
    ensures
        !spec_left_button(s, false, hovered, shift_held, ctrl_held).0.is_drawing,
        !spec_left_button(s, false, hovered, shift_held, ctrl_held).0.is_making_bridge,
{
}

/// The drag tools draw from a plain press, without a height step.
pub proof fn lemma_drag_tools_draw_on_press(s: DrawToolState)
    requires
        is_drag_tool(s.mode),
        !(s.is_setting && s.draw_height_set),
    ensures
        spec_left_button(s, true, true, false, false).0.is_drawing,
        spec_left_button(s, true, true, false, false).0.is_setting == s.is_setting,
{
}

/// What a left click does in chunk management.
#[derive(Clone, Copy, Debug, PartialEq, Eq, Structural)]
pub enum ChunkEdit {
    /// Remove the clicked chunk.
    Remove,
    /// Add a chunk at the clicked position.
    Add,
    /// Nothing: the position is neither a chunk nor next to one.
    Nothing,
}

/// Chunk `(x, z)` is among `keys`.
pub open spec fn has_chunk(keys: Seq<(i32, i32)>, x: int, z: int) -> bool {
    exists|k: int| 0 <= k < keys.len() && keys[k].0 == x && keys[k].1 == z
}

/// A click on an existing chunk removes it; a click elsewhere adds a chunk
/// when there are none yet or a chunk shares an edge with the spot.
pub open spec fn spec_chunk_click(keys: Seq<(i32, i32)>, x: int, z: int) -> ChunkEdit {
    if has_chunk(keys, x, z) {
        ChunkEdit::Remove
    } else if keys.len() == 0 || has_chunk(keys, x - 1, z) || has_chunk(keys, x + 1, z)
        || has_chunk(keys, x, z - 1) || has_chunk(keys, x, z + 1) {
        ChunkEdit::Add
    } else {
        ChunkEdit::Nothing
    }
}

fn contains_chunk(keys: &Vec<(i32, i32)>, x: i64, z: i64) -> (b: bool)
    ensures
        b == has_chunk(keys@, x as int, z as int),
{
    let mut k: usize = 0;
    while k < keys.len()
        invariant
            k <= keys@.len(),
            forall|j: int| 0 <= j < k ==> !(keys@[j].0 == x && keys@[j].1 == z),
        decreases keys@.len() - k,
    {
        let (kx, kz) = keys[k];
        if kx as i64 == x && kz as i64 == z {
            return true;
        }
        k = k + 1;
    }
    false
}

/// The chunk edit for a left click on chunk `(x, z)`, given the existing chunks.
pub fn chunk_click_action(keys: &Vec<(i32, i32)>, x: i32, z: i32) -> (e: ChunkEdit)
    ensures
        e == spec_chunk_click(keys@, x as int, z as int),
{
    let (x, z) = (x as i64, z as i64);
    if contains_chunk(keys, x, z) {
        ChunkEdit::Remove
    } else if keys.len() == 0 || contains_chunk(keys, x - 1, z) || contains_chunk(keys, x + 1, z)
        || contains_chunk(keys, x, z - 1) || contains_chunk(keys, x, z + 1) {
        ChunkEdit::Add
    } else {
        ChunkEdit::Nothing
    }
}

/// A chunk outline of the chunk-management overlay: an existing chunk, which
/// a click removes, or an empty spot next to one, which a click fills.
#[derive(Clone, Copy, Debug, PartialEq, Eq, Structural)]
pub struct ChunkOutline {
    pub x: i32,
    pub z: i32,
    pub removable: bool,
}

/// Chunk coordinates whose four edge neighbours are `i32` coordinates too.
pub open spec fn inner_keys(keys: Seq<(i32, i32)>) -> bool {
    forall|k: int|
        0 <= k < keys.len() ==> i32::MIN < #[trigger] keys[k].0 < i32::MAX && i32::MIN < keys[k].1
            < i32::MAX
}

/// The addable outline at `(x, z)`, when no chunk is there.
pub open spec fn outline_if_empty(keys: Seq<(i32, i32)>, x: int, z: int) -> Seq<ChunkOutline> {
    if has_chunk(keys, x, z) {
        Seq::empty()
    } else {
        seq![ChunkOutline { x: x as i32, z: z as i32, removable: false }]
    }
}

/// The outlines drawn for chunk `k`: the chunk itself, then its empty edge
/// neighbours in the order -x, +x, -z, +z.
pub open spec fn outlines_of(keys: Seq<(i32, i32)>, k: (i32, i32)) -> Seq<ChunkOutline> {
    seq![ChunkOutline { x: k.0, z: k.1, removable: true }] + outline_if_empty(keys, k.0 - 1, k.1 as int)
        + outline_if_empty(keys, k.0 + 1, k.1 as int) + outline_if_empty(keys, k.0 as int, k.1 - 1)
        + outline_if_empty(keys, k.0 as int, k.1 + 1)
}

/// The outlines drawn for the first `n` chunks of `keys`, in order.
pub open spec fn spec_chunk_outlines(keys: Seq<(i32, i32)>, n: int) -> Seq<ChunkOutline>
    decreases n,
{
    if n <= 0 {
        Seq::empty()
    } else {
        spec_chunk_outlines(keys, n - 1) + outlines_of(keys, keys[n - 1])
    }
}

fn push_if_empty(keys: &Vec<(i32, i32)>, x: i32, z: i32, out: &mut Vec<ChunkOutline>)
    ensures
        final(out)@ == old(out)@ + outline_if_empty(keys@, x as int, z as int),
{
    if !contains_chunk(keys, x as i64, z as i64) {
        out.push(ChunkOutline { x, z, removable: false });
    } else {
        assert(old(out)@ + Seq::<ChunkOutline>::empty() =~= old(out)@);
    }
}

/// The outlines of the chunk-management overlay, in drawing order: for each
/// chunk, the chunk itself and then its empty edge neighbours. An empty spot
/// next to several chunks is listed once per chunk.
pub fn chunk_outlines(keys: &Vec<(i32, i32)>) -> (v: Vec<ChunkOutline>)
    requires
        inner_keys(keys@),
    ensures
        v@ == spec_chunk_outlines(keys@, keys@.len() as int),
{
    let mut v: Vec<ChunkOutline> = Vec::new();
    let mut i: usize = 0;
    while i < keys.len()
        invariant
            i <= keys@.len(),
            inner_keys(keys@),
            v@ == spec_chunk_outlines(keys@, i as int),
        decreases keys@.len() - i,
    {
        let (x, z) = keys[i];
        assert(i32::MIN < keys@[i as int].0 < i32::MAX);
        let ghost before = v@;
        v.push(ChunkOutline { x, z, removable: true });
        push_if_empty(keys, x - 1, z, &mut v);
        push_if_empty(keys, x + 1, z, &mut v);
        push_if_empty(keys, x, z - 1, &mut v);
        push_if_empty(keys, x, z + 1, &mut v);
        assert(v@ =~= before + outlines_of(keys@, keys@[i as int]));
        i = i + 1;
    }
    v
}

/// Which borders of the outline at `(x, z)` are drawn, in the order -z, +x,
/// +z, -x: those not shared with an existing chunk.
pub fn open_borders(keys: &Vec<(i32, i32)>, x: i32, z: i32) -> (b: (bool, bool, bool, bool))
    ensures
        b == (
            !has_chunk(keys@, x as int, z - 1),
            !has_chunk(keys@, x + 1, z as int),
            !has_chunk(keys@, x as int, z + 1),
            !has_chunk(keys@, x - 1, z as int),
        ),
{
    let (x, z) = (x as i64, z as i64);
    (
        !contains_chunk(keys, x, z - 1),
        !contains_chunk(keys, x + 1, z),
        !contains_chunk(keys, x, z + 1),
        !contains_chunk(keys, x - 1, z),
    )
}

/// The overlay agrees with clicking: a click on an outline marked
/// removable removes that chunk, and a click on any other outline adds one.
pub proof fn lemma_outlines_match_clicks(keys: Seq<(i32, i32)>, n: int, j: int)
    requires
        inner_keys(keys),
        0 <= n <= keys.len(),
        0 <= j < spec_chunk_outlines(keys, n).len(),
    ensures
        ({
            let o = spec_chunk_outlines(keys, n)[j];
            spec_chunk_click(keys, o.x as int, o.z as int) == if o.removable {
                ChunkEdit::Remove
            } else {
                ChunkEdit::Add
            }
        }),
    decreases n,
{
    let prev = spec_chunk_outlines(keys, n - 1);
    if j < prev.len() {
        lemma_outlines_match_clicks(keys, n - 1, j);
        assert(spec_chunk_outlines(keys, n)[j] == prev[j]);
    } else {
        let k = keys[n - 1];
        assert(i32::MIN < keys[n - 1].0 < i32::MAX);
        let o = spec_chunk_outlines(keys, n)[j];
        assert(o == outlines_of(keys, k)[j - prev.len()]);
        assert(has_chunk(keys, k.0 as int, k.1 as int)) by {
            assert(keys[n - 1].0 == k.0 && keys[n - 1].1 == k.1);
        }
        let a = outline_if_empty(keys, k.0 - 1, k.1 as int);
        let b = outline_if_empty(keys, k.0 + 1, k.1 as int);
        let c = outline_if_empty(keys, k.0 as int, k.1 - 1);
        let d = outline_if_empty(keys, k.0 as int, k.1 + 1);
        let t = j - prev.len();
        if t >= 1 && !o.removable {
            // `o` is one of the empty neighbours; it lies next to chunk `k`.
            if t < 1 + a.len() {
                assert(o == a[t - 1]);
            } else if t < 1 + a.len() + b.len() {
                assert(o == b[t - 1 - a.len()]);
            } else if t < 1 + a.len() + b.len() + c.len() {
                assert(o == c[t - 1 - a.len() - b.len()]);
            } else {
                assert(o == d[t - 1 - a.len() - b.len() - c.len()]);
            }
        }
    }
}

} // verus!
