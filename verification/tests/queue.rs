use musicum::queue::{PrevOutcome, QueueCursor};

#[test]
fn new_single_item_sets_index_zero() {
    let queue = QueueCursor::new(1).unwrap();
    assert_eq!(queue.current_index(), 0);
    assert_eq!(queue.total(), 1);
}

#[test]
fn new_empty_items_returns_error() {
    assert!(QueueCursor::new(0).is_none());
}

#[test]
fn next_advances_index() {
    let mut queue = QueueCursor::new(2).unwrap();
    let moved = queue.next();
    assert!(moved);
    assert_eq!(queue.current_index(), 1);
}

#[test]
fn next_at_last_returns_false() {
    let mut queue = QueueCursor::new(1).unwrap();
    assert!(!queue.next());
    assert_eq!(queue.current_index(), 0);
}

#[test]
fn prev_at_start_with_low_position_returns_false() {
    let mut queue = QueueCursor::new(1).unwrap();
    // position is 0, index is 0: no-op
    assert!(queue.prev(false) == PrevOutcome::AtStart);
    assert_eq!(queue.current_index(), 0);
}

#[test]
fn prev_at_index_1_moves_back() {
    let mut queue = QueueCursor::new(2).unwrap();
    queue.next();
    let moved = queue.prev(false);
    assert!(moved == PrevOutcome::MovedBack);
    assert_eq!(queue.current_index(), 0);
}

#[test]
fn prev_past_restart_point_restarts_in_place() {
    let mut queue = QueueCursor::new(3).unwrap();
    queue.next();
    assert!(queue.prev(true) == PrevOutcome::Restarted);
    assert_eq!(queue.current_index(), 1);
}

#[test]
fn advance_only_when_finished_and_not_last() {
    let mut queue = QueueCursor::new(2).unwrap();
    assert!(!queue.advance_if_finished(false));
    assert_eq!(queue.current_index(), 0);
    assert!(queue.advance_if_finished(true));
    assert_eq!(queue.current_index(), 1);
    assert!(!queue.advance_if_finished(true));
    assert_eq!(queue.current_index(), 1);
    assert!(queue.is_exhausted(true));
    assert!(!queue.is_exhausted(false));
}
