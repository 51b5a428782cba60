use musicum::edit::{EditKind, ProcessorEdit};
use musicum::editor::{EditorAction, EditorState, Key, Mode, Modifiers, Pane, SaveReason};

fn edit(uuid: u128, id: &str, params: &[(&str, u64)]) -> ProcessorEdit {
    ProcessorEdit {
        uuid,
        enabled: true,
        kind: EditKind::Processor {
            processor_id: id.to_string(),
            params: params.iter().map(|(k, v)| (k.to_string(), *v)).collect(),
        },
    }
}

fn ids(s: &EditorState) -> Vec<u128> {
    s.processors().iter().map(|e| e.uuid).collect()
}

fn three() -> EditorState {
    EditorState::new(vec![edit(1, "trim", &[("start", 0), ("end", 1)]), edit(2, "cut", &[]), edit(3, "crop", &[])], 4)
}

#[test]
fn new_selects_first_edit() {
    let s = three();
    assert_eq!(s.selected(), Some(0));
    assert!(s.pane() == Pane::Processors);
    assert!(s.mode() == Mode::Normal);
    let empty = EditorState::new(vec![], 0);
    assert_eq!(empty.selected(), None);
}

#[test]
fn selection_wraps_around() {
    let mut s = three();
    assert!(s.handle_key(Key::Up, Modifiers::Plain) == EditorAction::Nothing);
    assert_eq!(s.selected(), Some(2));
    s.handle_key(Key::Char('j'), Modifiers::Plain);
    assert_eq!(s.selected(), Some(0));
    s.handle_key(Key::Down, Modifiers::Plain);
    assert_eq!(s.selected(), Some(1));
}

#[test]
fn shift_moves_reorder_and_restore() {
    let mut s = three();
    s.handle_key(Key::Down, Modifiers::Plain);
    let a = s.handle_key(Key::Up, Modifiers::Shift);
    assert!(a == EditorAction::Save(SaveReason::MovedUp));
    assert_eq!(ids(&s), vec![2, 1, 3]);
    assert_eq!(s.selected(), Some(0));
    let b = s.handle_key(Key::Down, Modifiers::Shift);
    assert!(b == EditorAction::Save(SaveReason::MovedDown));
    assert_eq!(ids(&s), vec![1, 2, 3]);
    assert_eq!(s.selected(), Some(1));
}

#[test]
fn toggle_twice_restores() {
    let mut s = three();
    assert!(s.handle_key(Key::Char(' '), Modifiers::Plain) == EditorAction::Save(SaveReason::Toggled));
    assert!(!s.processors()[0].enabled);
    s.handle_key(Key::Char(' '), Modifiers::Plain);
    assert!(s.processors()[0].enabled);
}

#[test]
fn delete_keeps_position_or_moves_to_last() {
    let mut s = three();
    s.handle_key(Key::Up, Modifiers::Plain);
    assert!(s.handle_key(Key::Char('d'), Modifiers::Plain) == EditorAction::Save(SaveReason::Deleted));
    assert_eq!(ids(&s), vec![1, 2]);
    assert_eq!(s.selected(), Some(1));
    s.handle_key(Key::Char('d'), Modifiers::Plain);
    s.handle_key(Key::Char('d'), Modifiers::Plain);
    assert!(s.processors().is_empty());
    assert_eq!(s.selected(), None);
}

#[test]
fn picker_adds_after_selection() {
    let mut s = three();
    s.handle_key(Key::Char('a'), Modifiers::Plain);
    assert!(s.mode() == Mode::Picking);
    s.handle_key(Key::Down, Modifiers::Plain);
    s.handle_key(Key::Down, Modifiers::Plain);
    assert_eq!(s.picker_idx(), 2);
    assert!(s.handle_key(Key::Enter, Modifiers::Plain) == EditorAction::AddPicked(2));
    assert!(s.mode() == Mode::Normal);
    s.insert_processor(edit(9, "slice", &[]));
    assert_eq!(ids(&s), vec![1, 9, 2, 3]);
    assert_eq!(s.selected(), Some(1));
}

#[test]
fn parameter_editing_round() {
    let mut s = three();
    assert!(s.handle_key(Key::Tab, Modifiers::Plain) == EditorAction::ClearStatus);
    assert!(s.pane() == Pane::Params);
    assert_eq!(s.param_selected(), Some(0));
    s.handle_key(Key::Down, Modifiers::Plain);
    assert_eq!(s.param_selected(), Some(1));
    assert!(s.handle_key(Key::Enter, Modifiers::Plain) == EditorAction::EnterParam(1));
    s.begin_edit("1");
    assert!(s.mode() == Mode::Editing);
    s.handle_key(Key::Backspace, Modifiers::Plain);
    s.handle_key(Key::Char('4'), Modifiers::Plain);
    s.handle_key(Key::Char('2'), Modifiers::Plain);
    assert_eq!(s.edit_text(), "42");
    assert!(s.handle_key(Key::Enter, Modifiers::Plain) == EditorAction::CommitEdit(1));
    assert!(s.mode() == Mode::Normal);
    s.apply_param("end", 42, 0);
    match &s.processors()[0].kind {
        EditKind::Processor { params, .. } => {
            assert_eq!(params, &vec![("start".to_string(), 0), ("end".to_string(), 42)]);
        }
        _ => panic!("expected a processor edit"),
    }
}

#[test]
fn escape_leaves_editing_and_quit_quits() {
    let mut s = three();
    s.begin_edit("abc");
    s.handle_key(Key::Esc, Modifiers::Plain);
    assert!(s.mode() == Mode::Normal);
    assert_eq!(s.edit_text(), "");
    assert!(s.handle_key(Key::Char('q'), Modifiers::Plain) == EditorAction::Quit);
    assert!(s.handle_key(Key::Char('c'), Modifiers::Control) == EditorAction::Quit);
}
