use pixy_terrain::editor_input::{
    alt_clears_pattern, chunk_click_action, chunk_outlines, left_button, mouse_motion,
    on_tool_button_toggled,
    open_borders, raycast_strategy, ChunkEdit, ChunkOutline, DrawAction, DrawToolState,
    RaycastStrategy, TerrainToolMode,
};

fn rest(mode: TerrainToolMode) -> DrawToolState {
    DrawToolState {
        mode,
        is_setting: false,
        draw_height_set: false,
        is_drawing: false,
        is_making_bridge: false,
        flatten: true,
        falloff: true,
    }
}

#[test]
fn default_tool_is_height() {
    assert_eq!(TerrainToolMode::default(), TerrainToolMode::Height);
}

#[test]
fn draw_modes_exclude_chunks_and_settings() {
    assert!(TerrainToolMode::Height.is_draw_mode());
    assert!(TerrainToolMode::DebugBrush.is_draw_mode());
    assert!(!TerrainToolMode::ChunkManagement.is_draw_mode());
    assert!(!TerrainToolMode::TerrainSettings.is_draw_mode());
}

#[test]
fn raycast_strategy_order() {
    let mut s = rest(TerrainToolMode::Level);
    assert_eq!(raycast_strategy(&s, true), RaycastStrategy::Physics);
    s.is_drawing = true;
    assert_eq!(raycast_strategy(&s, true), RaycastStrategy::LevelPlane);
    assert_eq!(raycast_strategy(&s, false), RaycastStrategy::DrawHeightPlane);
    s.is_setting = true;
    s.draw_height_set = true;
    assert_eq!(raycast_strategy(&s, false), RaycastStrategy::HeightPlane);
}

#[test]
fn alt_does_not_clear_while_setting() {
    let mut s = rest(TerrainToolMode::Height);
    assert!(alt_clears_pattern(&s, true));
    assert!(!alt_clears_pattern(&s, false));
    s.is_setting = true;
    assert!(!alt_clears_pattern(&s, true));
}

#[test]
fn two_click_height_edit() {
    let mut s0 = rest(TerrainToolMode::Height);
    s0.flatten = false;
    let (s1, a1) = left_button(&s0, true, true, false, false);
    assert!(s1.is_setting && !s1.draw_height_set && !s1.is_drawing);
    assert_eq!(a1, vec![DrawAction::SetDrawHeight, DrawAction::InitializeDrawState]);
    assert_eq!(mouse_motion(&s1, true), vec![DrawAction::BuildDrawPattern]);
    let (s2, a2) = left_button(&s1, false, true, false, false);
    assert!(s2.is_setting && s2.draw_height_set);
    assert!(a2.is_empty());
    assert!(mouse_motion(&s2, true).is_empty());
    let (s3, a3) = left_button(&s2, true, false, false, false);
    assert_eq!(a3, vec![DrawAction::DrawPattern, DrawAction::ClearPattern]);
    assert!(!s3.is_setting && !s3.draw_height_set);
}

#[test]
fn flatten_keeps_draw_height_on_press() {
    let s0 = rest(TerrainToolMode::Height);
    let (_, a1) = left_button(&s0, true, true, false, false);
    assert_eq!(a1, vec![DrawAction::InitializeDrawState]);
}

#[test]
fn shift_press_starts_drawing() {
    let s0 = rest(TerrainToolMode::Height);
    let (s1, a1) = left_button(&s0, true, true, true, false);
    assert!(s1.is_drawing && !s1.is_setting);
    assert_eq!(a1, vec![DrawAction::InitializeDrawState, DrawAction::BuildDrawPattern]);
}

#[test]
fn level_ctrl_click_picks_height() {
    let s0 = rest(TerrainToolMode::Level);
    let (s1, a1) = left_button(&s0, true, true, false, true);
    assert!(!s1.is_drawing && !s1.is_setting);
    assert_eq!(a1, vec![DrawAction::SetLevelHeight, DrawAction::InitializeDrawState]);
}

#[test]
fn level_drag_applies_on_release() {
    let s0 = rest(TerrainToolMode::Level);
    let (s1, _) = left_button(&s0, true, true, false, false);
    assert!(s1.is_drawing);
    assert_eq!(mouse_motion(&s1, true), vec![DrawAction::BuildDrawPattern]);
    let (s2, a2) = left_button(&s1, false, true, false, false);
    assert!(!s2.is_drawing);
    assert_eq!(a2, vec![DrawAction::DrawPattern, DrawAction::ClearPattern]);
}

#[test]
fn smooth_applies_while_dragging() {
    let mut s0 = rest(TerrainToolMode::Smooth);
    s0.falloff = false;
    let (s1, _) = left_button(&s0, true, true, false, false);
    assert!(s1.falloff && s1.is_drawing);
    assert_eq!(
        mouse_motion(&s1, true),
        vec![DrawAction::BuildDrawPattern, DrawAction::DrawPattern, DrawAction::ClearPattern]
    );
    assert!(mouse_motion(&s1, false).is_empty());
    let (_, a2) = left_button(&s1, false, true, false, false);
    assert_eq!(a2, vec![DrawAction::ClearPattern]);
}

#[test]
fn grass_mask_press_drops_falloff_and_flatten() {
    let s0 = rest(TerrainToolMode::GrassMask);
    let (s1, _) = left_button(&s0, true, true, false, false);
    assert!(!s1.falloff && !s1.flatten && s1.is_drawing);
}

#[test]
fn bridge_press_starts_bridge() {
    let s0 = rest(TerrainToolMode::Bridge);
    let (s1, a1) = left_button(&s0, true, true, true, false);
    assert!(s1.is_making_bridge && !s1.flatten && s1.is_drawing);
    assert_eq!(
        a1,
        vec![
            DrawAction::StartBridge,
            DrawAction::InitializeDrawState,
            DrawAction::BuildDrawPattern
        ]
    );
    let (s2, a2) = left_button(&s1, false, true, false, false);
    assert!(!s2.is_making_bridge && !s2.is_drawing);
    assert_eq!(a2, vec![DrawAction::DrawPattern, DrawAction::ClearPattern]);
}

#[test]
fn press_off_terrain_does_nothing() {
    let s0 = rest(TerrainToolMode::Height);
    let (s1, a1) = left_button(&s0, true, false, false, false);
    assert_eq!(s1, s0);
    assert!(a1.is_empty());
}

#[test]
fn chunk_click_remove_add_nothing() {
    let keys: Vec<(i32, i32)> = vec![(0, 0), (1, 0)];
    assert_eq!(chunk_click_action(&keys, 0, 0), ChunkEdit::Remove);
    assert_eq!(chunk_click_action(&keys, 2, 0), ChunkEdit::Add);
    assert_eq!(chunk_click_action(&keys, 0, -1), ChunkEdit::Add);
    assert_eq!(chunk_click_action(&keys, 3, 3), ChunkEdit::Nothing);
    assert_eq!(chunk_click_action(&Vec::new(), 5, -7), ChunkEdit::Add);
}

fn outline(x: i32, z: i32, removable: bool) -> ChunkOutline {
    ChunkOutline { x, z, removable }
}

#[test]
fn overlay_lists_chunks_and_free_neighbours() {
    let keys: Vec<(i32, i32)> = vec![(0, 0), (1, 0)];
    let v = chunk_outlines(&keys);
    assert_eq!(
        v,
        vec![
            outline(0, 0, true),
            outline(-1, 0, false),
            outline(0, -1, false),
            outline(0, 1, false),
            outline(1, 0, true),
            outline(2, 0, false),
            outline(1, -1, false),
            outline(1, 1, false),
        ]
    );
    for o in &v {
        let expected = if o.removable { ChunkEdit::Remove } else { ChunkEdit::Add };
        assert_eq!(chunk_click_action(&keys, o.x, o.z), expected);
    }
    assert!(chunk_outlines(&Vec::new()).is_empty());
}

#[test]
fn shared_borders_are_not_drawn() {
    let keys: Vec<(i32, i32)> = vec![(0, 0), (1, 0), (0, 1)];
    // Order: -z, +x, +z, -x.
    assert_eq!(open_borders(&keys, 0, 0), (true, false, false, true));
    assert_eq!(open_borders(&keys, 1, 1), (false, true, true, false));
    assert_eq!(open_borders(&keys, 5, 5), (true, true, true, true));
}

#[test]
fn toolbar_buttons_select_tools() {
    assert_eq!(on_tool_button_toggled(true, 0), Some(TerrainToolMode::Height));
    assert_eq!(on_tool_button_toggled(true, 3), Some(TerrainToolMode::Bridge));
    assert_eq!(on_tool_button_toggled(true, 7), Some(TerrainToolMode::ChunkManagement));
    assert_eq!(on_tool_button_toggled(true, 8), Some(TerrainToolMode::TerrainSettings));
    assert_eq!(on_tool_button_toggled(true, 42), Some(TerrainToolMode::Height));
    assert_eq!(on_tool_button_toggled(false, 2), None);
}
