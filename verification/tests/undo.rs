use std::sync::Arc;

use pixy_terrain::undo::UndoHistory;

fn make_layer() -> Arc<Vec<u32>> {
    Arc::new(vec![0; 4])
}

#[test]
fn test_new_history_empty() {
    let history: UndoHistory<Arc<Vec<u32>>> = UndoHistory::new(10);
    assert!(!history.can_undo());
    assert!(!history.can_redo());
    assert_eq!(history.undo_count(), 0);
    assert_eq!(history.redo_count(), 0);
}

#[test]
fn test_push_and_undo() {
    let mut history = UndoHistory::new(10);
    let state_a = make_layer();
    let state_b = make_layer();

    // Push state A (the state before modification)
    history.push(Arc::clone(&state_a));
    assert!(history.can_undo());
    assert!(!history.can_redo());

    // Undo: should return state A, current (state B) goes to future
    let restored = history.undo(Arc::clone(&state_b));
    assert!(restored.is_some());
    assert!(!history.can_undo());
    assert!(history.can_redo());
}

#[test]
fn test_undo_redo_cycle() {
    let mut history = UndoHistory::new(10);
    let state_a = make_layer();
    let state_b = make_layer();
    let state_c = make_layer();

    // state_a -> modify -> state_b -> modify -> state_c
    history.push(Arc::clone(&state_a));
    history.push(Arc::clone(&state_b));

    // Undo from state_c: get state_b
    let restored = history.undo(Arc::clone(&state_c)).unwrap();
    assert!(Arc::ptr_eq(&restored, &state_b));
    assert!(history.can_undo());
    assert!(history.can_redo());

    // Redo from state_b: get state_c
    let restored = history.redo(Arc::clone(&state_b)).unwrap();
    assert!(Arc::ptr_eq(&restored, &state_c));
    assert!(history.can_undo()); // state_a and state_b in past
    assert!(!history.can_redo());
}

#[test]
fn test_new_action_clears_redo() {
    let mut history = UndoHistory::new(10);
    let state_a = make_layer();
    let state_b = make_layer();
    let state_c = make_layer();

    history.push(Arc::clone(&state_a));
    history.push(Arc::clone(&state_b));

    // Undo once
    history.undo(Arc::clone(&state_c));
    assert!(history.can_redo());

    // New action should clear redo
    let state_d = make_layer();
    history.push(Arc::clone(&state_d));
    assert!(!history.can_redo());
}

#[test]
fn test_max_entries_trim() {
    let mut history = UndoHistory::new(3);

    for _ in 0..5 {
        history.push(make_layer());
    }

    assert_eq!(history.undo_count(), 3);
}

#[test]
fn test_clear() {
    let mut history = UndoHistory::new(10);
    history.push(make_layer());
    history.push(make_layer());

    history.clear();
    assert!(!history.can_undo());
    assert!(!history.can_redo());
}

#[test]
fn test_undo_empty_returns_none() {
    let mut history = UndoHistory::new(10);
    assert!(history.undo(make_layer()).is_none());
}

#[test]
fn test_redo_empty_returns_none() {
    let mut history = UndoHistory::new(10);
    assert!(history.redo(make_layer()).is_none());
}

#[test]
fn trim_drops_the_oldest_entries() {
    let mut history = UndoHistory::new(2);
    history.push(1u32);
    history.push(2);
    history.push(3);
    assert_eq!(history.undo_count(), 2);
    assert_eq!(history.undo(10), Some(3));
    assert_eq!(history.undo(3), Some(2));
    assert_eq!(history.undo(2), None);
    assert_eq!(history.redo_count(), 2);
}

#[test]
fn zero_capacity_keeps_one_entry() {
    let mut history = UndoHistory::new(0);
    history.push(1u32);
    history.push(2);
    assert_eq!(history.undo_count(), 1);
    assert_eq!(history.undo(5), Some(2));
}

#[test]
fn undo_then_redo_restores_current_state() {
    let mut history = UndoHistory::new(5);
    history.push(1u32);
    history.push(2);
    let restored = history.undo(3).unwrap();
    assert_eq!(restored, 2);
    assert_eq!(history.redo(restored), Some(3));
    assert_eq!(history.undo_count(), 2);
    assert_eq!(history.redo_count(), 0);
    assert_eq!(history.undo(3), Some(2));
}

#[test]
fn redo_then_undo_restores_current_state() {
    let mut history = UndoHistory::new(5);
    history.push(1u32);
    assert_eq!(history.undo(2), Some(1));
    let next = history.redo(1).unwrap();
    assert_eq!(next, 2);
    assert_eq!(history.undo(next), Some(1));
    assert_eq!(history.undo_count(), 0);
    assert_eq!(history.redo_count(), 1);
}
