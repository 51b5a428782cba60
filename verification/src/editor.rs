//! State machine of the interactive processor-chain editor.
//!
//! The editor shows the edits of a clip or preset in one pane and the
//! parameters of the selected edit in the other.  It reacts to key presses:
//! it moves selections (wrapping around), reorders, toggles and deletes
//! edits, opens a picker of processor types, and runs a one-line text
//! editor for parameter values.  Whatever needs the outside world (the
//! processor registry, number parsing, saving) is returned to the caller as an
//! action to perform.

use vstd::prelude::*;

use crate::edit::{
    copy_edit, edit_view, edits_view, edits_well_formed, insert_param, kind_view,
    kind_well_formed, param_map, EditKind, KindView, ProcessorEdit,
};
use crate::ids::{short_uuid, uuid_hyphenated};

verus! {

/// Which pane has the focus.
#[derive(PartialEq, Eq, Structural, Clone, Copy)]
pub enum Pane {
    /// The list of edits.
    Processors,
    /// The parameters of the selected edit.
    Params,
}

/// What key presses mean at the moment.
#[derive(PartialEq, Eq, Structural, Clone, Copy)]
pub enum Mode {
    /// Navigation and list commands.
    Normal,
    /// Choosing a processor type to add.
    Picking,
    /// Typing a parameter value.
    Editing,
}

/// The key of a key press.
#[derive(PartialEq, Eq, Structural, Clone, Copy)]
pub enum Key {
    Esc,
    Up,
    Down,
    Left,
    Right,
    Enter,
    Tab,
    Backspace,
    Char(char),
    Other,
}

/// The modifiers held with a key (exactly these, none else).
#[derive(PartialEq, Eq, Structural, Clone, Copy)]
pub enum Modifiers {
    Plain,
    Shift,
    Control,
    Other,
}

/// What the caller does after a key press.
#[derive(PartialEq, Eq, Structural, Clone, Copy)]
pub enum EditorAction {
    /// Nothing beyond redrawing.
    Nothing,
    /// Leave the editor.
    Quit,
    /// Clear the status line.
    ClearStatus,
    /// The edit list was moved up, moved down, deleted from or toggled: save
    /// it and report.
    Save(SaveReason),
    /// Add the processor type at this picker position, then save.
    AddPicked(usize),
    /// Enter was pressed on the parameter row at this position: toggle it when
    /// it is an on/off parameter, else begin editing its value.
    EnterParam(usize),
    /// Apply the typed text to the parameter row at this position, then save.
    CommitEdit(usize),
}

/// Why the edit list is saved.
#[derive(PartialEq, Eq, Structural, Clone, Copy)]
pub enum SaveReason {
    MovedUp,
    MovedDown,
    Deleted,
    Toggled,
}

/// The status line after a save for `reason`.
pub open spec fn save_status_text(reason: SaveReason) -> Seq<char> {
    match reason {
        SaveReason::MovedUp => "moved up"@,
        SaveReason::MovedDown => "moved down"@,
        SaveReason::Deleted => "deleted processor"@,
        SaveReason::Toggled => "toggled"@,
    }
}

/// The status line after a save (see `save_status_text`).
pub fn save_status(reason: SaveReason) -> (s: String)
    ensures
        s@ == save_status_text(reason),
{
    match reason {
        SaveReason::MovedUp => String::from_str("moved up"),
        SaveReason::MovedDown => String::from_str("moved down"),
        SaveReason::Deleted => String::from_str("deleted processor"),
        SaveReason::Toggled => String::from_str("toggled"),
    }
}

/// The key hints shown in normal mode for the focused pane.
pub open spec fn hint_text(pane: Pane) -> Seq<char> {
    match pane {
        Pane::Processors => "a: add  d: delete  Shift+↑/↓: reorder  Space: toggle  Tab: switch  q: quit"@,
        Pane::Params => "Enter: edit  Tab: switch pane  q: quit"@,
    }
}

/// The footer line: the keys of the current mode, with the last status
/// message in front of the normal-mode hints when there is one.
pub open spec fn footer_text(mode: Mode, pane: Pane, status: Option<Seq<char>>) -> Seq<char> {
    match mode {
        Mode::Editing => " Enter: confirm · Esc: cancel"@,
        Mode::Picking => " Enter: add · Esc: cancel"@,
        Mode::Normal => match status {
            Some(msg) => " ✓ "@ + msg + "  |  "@ + hint_text(pane),
            None => " "@ + hint_text(pane),
        },
    }
}

/// The footer line (see `footer_text`).
pub fn footer_line(mode: Mode, pane: Pane, status: Option<&str>) -> (s: String)
    ensures
        s@ == footer_text(
            mode,
            pane,
            match status {
                Some(m) => Some(m@),
                None => None,
            },
        ),
{
    match mode {
        Mode::Editing => String::from_str(" Enter: confirm · Esc: cancel"),
        Mode::Picking => String::from_str(" Enter: add · Esc: cancel"),
        Mode::Normal => {
            let hint = match pane {
                Pane::Processors => "a: add  d: delete  Shift+↑/↓: reorder  Space: toggle  Tab: switch  q: quit",
                Pane::Params => "Enter: edit  Tab: switch pane  q: quit",
            };
            match status {
                Some(msg) => {
                    let mut s = String::from_str(" ✓ ");
                    s.append(msg);
                    s.append("  |  ");
                    s.append(hint);
                    s
                },
                None => {
                    let mut s = String::from_str(" ");
                    s.append(hint);
                    s
                },
            }
        },
    }
}

/// The number of parameters an edit shows.
pub open spec fn param_count(k: KindView) -> nat {
    match k {
        KindView::Processor { params, .. } => params.len(),
        KindView::Plugin { params, .. } => params.len(),
    }
}

/// The line that lists an edit: its kind and id, ` [off]` when switched
/// off, and the first eight characters of its UUID in brackets.
pub open spec fn proc_label_text(e: (u128, bool, KindView)) -> Seq<char> {
    let flag = if e.1 {
        Seq::<char>::empty()
    } else {
        " [off]"@
    };
    let tail = flag + "  ("@ + uuid_hyphenated(e.0).take(8) + ")"@;
    match e.2 {
        KindView::Processor { processor_id, .. } => "[structural] "@ + processor_id + tail,
        KindView::Plugin { plugin_id, .. } => "[audio-plugin] "@ + plugin_id + tail,
    }
}

/// The list line of an edit (see `proc_label_text`).
pub fn proc_label(entry: &ProcessorEdit) -> (s: String)
    ensures
        s@ == proc_label_text(edit_view(*entry)),
{
    let mut s = match &entry.kind {
        EditKind::Processor { processor_id, .. } => {
            let mut t = String::from_str("[structural] ");
            t.append(processor_id.as_str());
            t
        },
        EditKind::Plugin { plugin_id, .. } => {
            let mut t = String::from_str("[audio-plugin] ");
            t.append(plugin_id.as_str());
            t
        },
    };
    if !entry.enabled {
        s.append(" [off]");
    }
    s.append("  (");
    let short = short_uuid(entry.uuid);
    s.append(short.as_str());
    s.append(")");
    proof {
        let ev = edit_view(*entry);
        let flag = if ev.1 {
            Seq::<char>::empty()
        } else {
            " [off]"@
        };
        match ev.2 {
            KindView::Processor { processor_id, .. } => {
                assert(s@ =~= "[structural] "@ + processor_id + (flag + "  ("@ + uuid_hyphenated(
                    ev.0,
                ).take(8) + ")"@));
            },
            KindView::Plugin { plugin_id, .. } => {
                assert(s@ =~= "[audio-plugin] "@ + plugin_id + (flag + "  ("@ + uuid_hyphenated(
                    ev.0,
                ).take(8) + ")"@));
            },
        }
    }
    s
}

/// Mathematical state of the editor.
pub struct EditorView {
    pub edits: Seq<(u128, bool, KindView)>,
    pub selected: Option<nat>,
    pub param_selected: Option<nat>,
    pub pane: Pane,
    pub mode: Mode,
    pub picker_idx: nat,
    pub picker_len: nat,
    pub buffer: Seq<char>,
}

/// Editor state.
pub struct EditorState {
    processors: Vec<ProcessorEdit>,
    selected: Option<usize>,
    param_selected: Option<usize>,
    pane: Pane,
    mode: Mode,
    picker_idx: usize,
    picker_len: usize,
    buffer: Vec<char>,
}

/// The view of an optional index.
pub open spec fn opt_nat(o: Option<usize>) -> Option<nat> {
    match o {
        Some(i) => Some(i as nat),
        None => None,
    }
}

/// The selection points into the list, and every parameter table is well
/// formed.
pub open spec fn editor_well_formed(v: EditorView) -> bool {
    &&& edits_well_formed(v.edits)
    &&& match v.selected {
        Some(i) => i < v.edits.len(),
        None => true,
    }
}

/// Selection after moving up in a list of `n` entries (wrapping to the end).
pub open spec fn step_up(cur: Option<nat>, n: nat) -> nat {
    let i = match cur {
        Some(i) => i,
        None => 0,
    };
    if i == 0 {
        (n - 1) as nat
    } else {
        (i - 1) as nat
    }
}

/// Selection after moving down in a list of `n` entries (wrapping to the
/// start).
pub open spec fn step_down(cur: Option<nat>, n: nat) -> nat {
    let i = match cur {
        Some(i) => i,
        None => 0,
    };
    (i + 1) % n
}

/// Number of parameters of the selected edit, 0 without a selection.
pub open spec fn selected_param_count(v: EditorView) -> nat {
    match v.selected {
        Some(i) => param_count(v.edits[i as int].2),
        None => 0,
    }
}

/// The state after moving up in the focused pane.
pub open spec fn after_move_up(v: EditorView) -> EditorView {
    match v.pane {
        Pane::Processors => if v.edits.len() == 0 {
            v
        } else {
            EditorView {
                selected: Some(step_up(v.selected, v.edits.len())),
                param_selected: None,
                ..v
            }
        },
        Pane::Params => if selected_param_count(v) == 0 {
            v
        } else {
            EditorView {
                param_selected: Some(step_up(v.param_selected, selected_param_count(v))),
                ..v
            }
        },
    }
}

/// The state after moving down in the focused pane.
pub open spec fn after_move_down(v: EditorView) -> EditorView {
    match v.pane {
        Pane::Processors => if v.edits.len() == 0 {
            v
        } else {
            EditorView {
                selected: Some(step_down(v.selected, v.edits.len())),
                param_selected: None,
                ..v
            }
        },
        Pane::Params => if selected_param_count(v) == 0 {
            v
        } else {
            EditorView {
                param_selected: Some(step_down(v.param_selected, selected_param_count(v))),
                ..v
            }
        },
    }
}

/// The state after deleting the selected edit: the selection stays at the
/// same position, or moves to the new last edit, or goes when none is left;
/// the parameter selection is cleared.
pub open spec fn after_delete(v: EditorView) -> EditorView {
    match v.selected {
        Some(i) => if v.edits.len() == 0 {
            v
        } else {
            let rest = v.edits.remove(i as int);
            EditorView {
                edits: rest,
                selected: if rest.len() == 0 {
                    None
                } else if i >= rest.len() {
                    Some((i - 1) as nat)
                } else {
                    Some(i)
                },
                param_selected: None,
                ..v
            }
        },
        None => v,
    }
}

/// The list with the entries at `i` and `j` exchanged.
pub open spec fn swapped<A>(s: Seq<A>, i: int, j: int) -> Seq<A> {
    s.update(i, s[j]).update(j, s[i])
}

/// The state after moving the selected edit one place up.
pub open spec fn after_move_edit_up(v: EditorView) -> EditorView {
    match v.selected {
        Some(i) => if i == 0 {
            v
        } else {
            EditorView {
                edits: swapped(v.edits, i as int, i - 1),
                selected: Some((i - 1) as nat),
                ..v
            }
        },
        None => v,
    }
}

/// The state after moving the selected edit one place down.
pub open spec fn after_move_edit_down(v: EditorView) -> EditorView {
    match v.selected {
        Some(i) => if i + 1 >= v.edits.len() {
            v
        } else {
            EditorView {
                edits: swapped(v.edits, i as int, (i + 1) as int),
                selected: Some(i + 1),
                ..v
            }
        },
        None => v,
    }
}

/// The state after flipping the switch of the selected edit.
pub open spec fn after_toggle(v: EditorView) -> EditorView {
    match v.selected {
        Some(i) => {
            let e = v.edits[i as int];
            EditorView { edits: v.edits.update(i as int, (e.0, !e.1, e.2)), ..v }
        },
        None => v,
    }
}

/// The state after a key press in picking mode, and the action.
pub open spec fn picking_step(v: EditorView, key: Key) -> (EditorView, EditorAction) {
    match key {
        Key::Esc => (EditorView { mode: Mode::Normal, ..v }, EditorAction::Nothing),
        Key::Up | Key::Char('k') => if v.picker_idx > 0 {
            (EditorView { picker_idx: (v.picker_idx - 1) as nat, ..v }, EditorAction::Nothing)
        } else {
            (v, EditorAction::Nothing)
        },
        Key::Down | Key::Char('j') => if v.picker_idx + 1 < v.picker_len {
            (EditorView { picker_idx: v.picker_idx + 1, ..v }, EditorAction::Nothing)
        } else {
            (v, EditorAction::Nothing)
        },
        Key::Enter => if v.picker_idx < v.picker_len {
            (
                EditorView { mode: Mode::Normal, ..v },
                EditorAction::AddPicked(v.picker_idx as usize),
            )
        } else {
            (v, EditorAction::Nothing)
        },
        _ => (v, EditorAction::Nothing),
    }
}

/// The state after a key press in editing mode, and the action.
pub open spec fn editing_step(v: EditorView, key: Key) -> (EditorView, EditorAction) {
    match key {
        Key::Esc => (
            EditorView { mode: Mode::Normal, buffer: Seq::empty(), ..v },
            EditorAction::Nothing,
        ),
        Key::Backspace => (
            EditorView {
                buffer: if v.buffer.len() == 0 {
                    v.buffer
                } else {
                    v.buffer.drop_last()
                },
                ..v
            },
            EditorAction::Nothing,
        ),
        Key::Char(c) => (EditorView { buffer: v.buffer.push(c), ..v }, EditorAction::Nothing),
        Key::Enter => match v.param_selected {
            Some(p) => if p < selected_param_count(v) {
                (
                    EditorView { mode: Mode::Normal, buffer: Seq::empty(), ..v },
                    EditorAction::CommitEdit(p as usize),
                )
            } else {
                (v, EditorAction::Nothing)
            },
            None => (v, EditorAction::Nothing),
        },
        _ => (v, EditorAction::Nothing),
    }
}

/// The state after a key press in normal mode, and the action.
pub open spec fn normal_step(v: EditorView, key: Key, mods: Modifiers) -> (EditorView, EditorAction) {
    let on_list = v.pane == Pane::Processors;
    if key == Key::Char('q') || (key == Key::Char('c') && mods == Modifiers::Control) {
        (v, EditorAction::Quit)
    } else if key == Key::Tab {
        match v.pane {
            Pane::Processors => (
                EditorView {
                    pane: Pane::Params,
                    param_selected: if selected_param_count(v) > 0 {
                        Some(0)
                    } else {
                        v.param_selected
                    },
                    ..v
                },
                EditorAction::ClearStatus,
            ),
            Pane::Params => (EditorView { pane: Pane::Processors, ..v }, EditorAction::ClearStatus),
        }
    } else if key == Key::Up && mods == Modifiers::Shift && on_list {
        (after_move_edit_up(v), EditorAction::Save(SaveReason::MovedUp))
    } else if key == Key::Down && mods == Modifiers::Shift && on_list {
        (after_move_edit_down(v), EditorAction::Save(SaveReason::MovedDown))
    } else if key == Key::Up || key == Key::Char('k') {
        (after_move_up(v), EditorAction::Nothing)
    } else if key == Key::Down || key == Key::Char('j') {
        (after_move_down(v), EditorAction::Nothing)
    } else if key == Key::Enter {
        match v.param_selected {
            Some(p) => if v.pane == Pane::Params && p < selected_param_count(v) {
                (v, EditorAction::EnterParam(p as usize))
            } else {
                (v, EditorAction::Nothing)
            },
            None => (v, EditorAction::Nothing),
        }
    } else if key == Key::Char('a') && on_list {
        (EditorView { picker_idx: 0, mode: Mode::Picking, ..v }, EditorAction::Nothing)
    } else if key == Key::Char('d') && on_list {
        (after_delete(v), EditorAction::Save(SaveReason::Deleted))
    } else if key == Key::Char(' ') && on_list {
        (after_toggle(v), EditorAction::Save(SaveReason::Toggled))
    } else {
        (v, EditorAction::Nothing)
    }
}

/// The state after a key press, and the action.
pub open spec fn key_step(v: EditorView, key: Key, mods: Modifiers) -> (EditorView, EditorAction) {
    match v.mode {
        Mode::Picking => picking_step(v, key),
        Mode::Editing => editing_step(v, key),
        Mode::Normal => normal_step(v, key, mods),
    }
}

// ── Laws ─────────────────────────────────────────────────────────────────────

/// Moving the selected edit up and then down again restores the list and the
/// selection.
pub proof fn law_move_edit_up_then_down(v: EditorView)
    requires
        editor_well_formed(v),
        v.selected matches Some(i) && i > 0,
    ensures
        after_move_edit_down(after_move_edit_up(v)) == v,
{
    let i = v.selected->0;
    let w = after_move_edit_up(v);
    assert(w.edits.len() == v.edits.len());
    assert(swapped(w.edits, (i - 1) as int, i as int) =~= v.edits);
}

/// Moving the selected edit down and then up again restores the list and the
/// selection.
pub proof fn law_move_edit_down_then_up(v: EditorView)
    requires
        editor_well_formed(v),
        v.selected matches Some(i) && i + 1 < v.edits.len(),
    ensures
        after_move_edit_up(after_move_edit_down(v)) == v,
{
    let i = v.selected->0;
    let w = after_move_edit_down(v);
    assert(swapped(w.edits, (i + 1) as int, i as int) =~= v.edits);
}

/// Flipping the switch of the selected edit twice restores the state.
pub proof fn law_toggle_twice(v: EditorView)
    requires
        editor_well_formed(v),
    ensures
        after_toggle(after_toggle(v)) == v,
{
    if let Some(i) = v.selected {
        assert(after_toggle(after_toggle(v)).edits =~= v.edits);
    }
}

/// In the list of edits, moving up undoes moving down (around the end of the
/// list too); the parameter selection is cleared.
pub proof fn law_list_up_undoes_down(v: EditorView)
    requires
        editor_well_formed(v),
        v.pane == Pane::Processors,
        v.selected is Some,
    ensures
        after_move_up(after_move_down(v)) == (EditorView { param_selected: None, ..v }),
{
    let n = v.edits.len();
    let i = v.selected->0;
    assert(n > 0);
    if i + 1 == n {
        assert((i + 1) % n == 0) by (nonlinear_arith)
            requires i + 1 == n, n > 0;
    } else {
        assert((i + 1) % n == i + 1) by (nonlinear_arith)
            requires i + 1 < n;
    }
}

/// In the list of edits, moving down undoes moving up (around the start of
/// the list too); the parameter selection is cleared.
pub proof fn law_list_down_undoes_up(v: EditorView)
    requires
        editor_well_formed(v),
        v.pane == Pane::Processors,
        v.selected is Some,
    ensures
        after_move_down(after_move_up(v)) == (EditorView { param_selected: None, ..v }),
{
    let n = v.edits.len();
    let i = v.selected->0;
    let j = step_up(v.selected, n);
    assert(j < n);
    if i == 0 {
        assert((j + 1) % n == 0) by (nonlinear_arith)
            requires j + 1 == n, n > 0;
    } else {
        assert((j + 1) % n == i) by (nonlinear_arith)
            requires j + 1 == i, i < n;
    }
}

/// Quitting works in normal mode from any state, and changes nothing.
pub proof fn law_normal_mode_quits(v: EditorView, mods: Modifiers)
    requires
        v.mode == Mode::Normal,
    ensures
        key_step(v, Key::Char('q'), mods) == (v, EditorAction::Quit),
{
}

/// In the processor picker, Up (or `k`) moves the highlight one entry up
/// and Down (or `j`) one entry down, staying on the list; each undoes the
/// other; Enter adds the highlighted entry and leaves the picker; Esc leaves
/// it without adding.
pub proof fn law_picker_navigation(v: EditorView, mods: Modifiers)
    requires
        v.mode == Mode::Picking,
        v.picker_idx < v.picker_len,
    ensures
        v.picker_idx > 0 ==> key_step(v, Key::Up, mods) == (
            EditorView { picker_idx: (v.picker_idx - 1) as nat, ..v },
            EditorAction::Nothing,
        ),
        v.picker_idx > 0 ==> key_step(v, Key::Char('k'), mods) == key_step(v, Key::Up, mods),
        v.picker_idx + 1 < v.picker_len ==> key_step(v, Key::Down, mods) == (
            EditorView { picker_idx: v.picker_idx + 1, ..v },
            EditorAction::Nothing,
        ),
        v.picker_idx + 1 < v.picker_len ==> key_step(v, Key::Char('j'), mods) == key_step(
            v,
            Key::Down,
            mods,
        ),
        key_step(v, Key::Up, mods).0.picker_idx < v.picker_len,
        key_step(v, Key::Down, mods).0.picker_idx < v.picker_len,
        v.picker_idx + 1 < v.picker_len ==> key_step(key_step(v, Key::Down, mods).0, Key::Up, mods).0
            == v,
        v.picker_idx > 0 ==> key_step(key_step(v, Key::Up, mods).0, Key::Down, mods).0 == v,
        key_step(v, Key::Enter, mods) == (
            EditorView { mode: Mode::Normal, ..v },
            EditorAction::AddPicked(v.picker_idx as usize),
        ),
        key_step(v, Key::Esc, mods) == (EditorView { mode: Mode::Normal, ..v }, EditorAction::Nothing),
{
}

/// The other editor keys: in the list of edits, `a` opens the processor
/// picker at its first entry, `d` deletes and Space flips the selected edit's
/// switch (each then saved), and Tab switches to the other pane; while a
/// value is typed, a character is appended to it, Backspace takes the last
/// one off again, and Esc drops the text and returns to normal mode.
pub proof fn law_editor_keys(v: EditorView, mods: Modifiers, c: char)
    requires
        editor_well_formed(v),
    ensures
        v.mode == Mode::Normal && v.pane == Pane::Processors ==> key_step(v, Key::Char('a'), mods)
            == (EditorView { picker_idx: 0, mode: Mode::Picking, ..v }, EditorAction::Nothing),
        v.mode == Mode::Normal && v.pane == Pane::Processors ==> key_step(v, Key::Char('d'), mods)
            == (after_delete(v), EditorAction::Save(SaveReason::Deleted)),
        v.mode == Mode::Normal && v.pane == Pane::Processors ==> key_step(v, Key::Char(' '), mods)
            == (after_toggle(v), EditorAction::Save(SaveReason::Toggled)),
        v.mode == Mode::Normal ==> key_step(v, Key::Tab, mods).0.pane != v.pane,
        v.mode == Mode::Editing ==> key_step(v, Key::Char(c), mods).0 == (EditorView {
            buffer: v.buffer.push(c),
            ..v
        }),
        v.mode == Mode::Editing ==> key_step(key_step(v, Key::Char(c), mods).0, Key::Backspace, mods).0
            == v,
        v.mode == Mode::Editing ==> key_step(v, Key::Esc, mods) == (
            EditorView { mode: Mode::Normal, buffer: Seq::empty(), ..v },
            EditorAction::Nothing,
        ),
{
    if v.mode == Mode::Editing {
        assert(v.buffer.push(c).drop_last() =~= v.buffer);
    }
}

impl View for EditorState {
    type V = EditorView;

    closed spec fn view(&self) -> EditorView {
        EditorView {
            edits: edits_view(self.processors@),
            selected: opt_nat(self.selected),
            param_selected: opt_nat(self.param_selected),
            pane: self.pane,
            mode: self.mode,
            picker_idx: self.picker_idx as nat,
            picker_len: self.picker_len as nat,
            buffer: self.buffer@,
        }
    }
}

impl EditorState {
    /// A new editor over `processors`, with `picker_len` processor types to
    /// pick from: the first edit selected (if any), the list focused, normal
    /// mode, an empty text buffer.
    pub fn new(processors: Vec<ProcessorEdit>, picker_len: usize) -> (s: Self)
        requires
            edits_well_formed(edits_view(processors@)),
        ensures
            s@ == (EditorView {
                edits: edits_view(processors@),
                selected: if processors@.len() > 0 {
                    Some(0)
                } else {
                    None
                },
                param_selected: None,
                pane: Pane::Processors,
                mode: Mode::Normal,
                picker_idx: 0,
                picker_len: picker_len as nat,
                buffer: Seq::empty(),
            }),
            editor_well_formed(s@),
    {
        let selected = if processors.len() > 0 {
            Some(0)
        } else {
            None
        };
        EditorState {
            processors,
            selected,
            param_selected: None,
            pane: Pane::Processors,
            mode: Mode::Normal,
            picker_idx: 0,
            picker_len,
            buffer: Vec::new(),
        }
    }

    /// The edits, in order.
    pub fn processors(&self) -> (p: &Vec<ProcessorEdit>)
        ensures
            edits_view(p@) == self@.edits,
    {
        &self.processors
    }

    /// A copy of the edits, for saving.
    pub fn processors_copy(&self) -> (p: Vec<ProcessorEdit>)
        ensures
            edits_view(p@) == self@.edits,
    {
        let mut p: Vec<ProcessorEdit> = Vec::new();
        let mut i: usize = 0;
        while i < self.processors.len()
            invariant
                i <= self.processors@.len(),
                edits_view(p@) == edits_view(self.processors@).take(i as int),
            decreases self.processors@.len() - i,
        {
            let e = copy_edit(&self.processors[i]);
            let ghost before = p@;
            p.push(e);
            proof {
                assert(edits_view(p@) =~= edits_view(before).push(edit_view(e)));
                assert(edits_view(p@) =~= edits_view(self.processors@).take(i as int + 1));
            }
            i = i + 1;
        }
        proof {
            assert(edits_view(self.processors@).take(self.processors@.len() as int) =~= edits_view(
                self.processors@,
            ));
        }
        p
    }

    /// Index of the selected edit.
    pub fn selected(&self) -> (s: Option<usize>)
        ensures
            opt_nat(s) == self@.selected,
    {
        self.selected
    }

    /// Index of the selected parameter row.
    pub fn param_selected(&self) -> (s: Option<usize>)
        ensures
            opt_nat(s) == self@.param_selected,
    {
        self.param_selected
    }

    /// The focused pane.
    pub fn pane(&self) -> (p: Pane)
        ensures
            p == self@.pane,
    {
        self.pane
    }

    /// The current mode.
    pub fn mode(&self) -> (m: Mode)
        ensures
            m == self@.mode,
    {
        self.mode
    }

    /// Position in the processor-type picker.
    pub fn picker_idx(&self) -> (i: usize)
        ensures
            i as nat == self@.picker_idx,
    {
        self.picker_idx
    }

    /// The text typed so far.
    pub fn edit_text(&self) -> (t: String)
        ensures
            t@ == self@.buffer,
    {
        let mut t = String::new();
        let mut i: usize = 0;
        while i < self.buffer.len()
            invariant
                i <= self.buffer@.len(),
                t@ == self.buffer@.take(i as int),
            decreases self.buffer@.len() - i,
        {
            crate::text::push_char(&mut t, self.buffer[i]);
            proof {
                assert(t@ =~= self.buffer@.take(i as int + 1));
            }
            i = i + 1;
        }
        proof {
            assert(self.buffer@.take(self.buffer@.len() as int) =~= self.buffer@);
        }
        t
    }

    fn param_count_of_selected(&self) -> (n: usize)
        requires
            editor_well_formed(self@),
        ensures
            n as nat == selected_param_count(self@),
    {
        match self.selected {
            Some(i) => {
                proof {
                    assert(edits_view(self.processors@)[i as int] == edit_view(
                        self.processors@[i as int],
                    ));
                }
                match &self.processors[i].kind {
                    EditKind::Processor { params, .. } => params.len(),
                    EditKind::Plugin { params, .. } => params.len(),
                }
            },
            None => 0,
        }
    }

    /// Moves the selection of the focused pane up, wrapping around.
    pub fn move_up(&mut self)
        requires
            editor_well_formed(old(self)@),
        ensures
            final(self)@ == after_move_up(old(self)@),
            editor_well_formed(final(self)@),
    {
        match self.pane {
            Pane::Processors => {
                if self.processors.len() == 0 {
                    return;
                }
                let i = match self.selected {
                    Some(i) => i,
                    None => 0,
                };
                let next = if i == 0 {
                    self.processors.len() - 1
                } else {
                    i - 1
                };
                self.selected = Some(next);
                self.param_selected = None;
            },
            Pane::Params => {
                let n = self.param_count_of_selected();
                if n == 0 {
                    return;
                }
                let i = match self.param_selected {
                    Some(i) => i,
                    None => 0,
                };
                let next = if i == 0 {
                    n - 1
                } else {
                    i - 1
                };
                self.param_selected = Some(next);
            },
        }
    }

    /// Moves the selection of the focused pane down, wrapping around.
    pub fn move_down(&mut self)
        requires
            editor_well_formed(old(self)@),
        ensures
            final(self)@ == after_move_down(old(self)@),
            editor_well_formed(final(self)@),
    {
        match self.pane {
            Pane::Processors => {
                let n = self.processors.len();
                if n == 0 {
                    return;
                }
                let i = match self.selected {
                    Some(i) => i,
                    None => 0,
                };
                proof {
                    assert(i < n);
                }
                let next = (i + 1) % n;
                self.selected = Some(next);
                self.param_selected = None;
            },
            Pane::Params => {
                let n = self.param_count_of_selected();
                if n == 0 {
                    return;
                }
                let i = match self.param_selected {
                    Some(i) => i,
                    None => 0,
                };
                let next = if i < n {
                    (i + 1) % n
                } else {
                    ((i % n) + 1) % n
                };
                proof {
                    if i >= n {
                        vstd::arithmetic::div_mod::lemma_add_mod_noop(i as int, 1, n as int);
                        vstd::arithmetic::div_mod::lemma_mod_twice(1, n as int);
                        vstd::arithmetic::div_mod::lemma_mod_add_multiples_vanish(0, n as int);
                        if n == 1 {
                            assert(1int % 1 == 0);
                        } else {
                            vstd::arithmetic::div_mod::lemma_small_mod(1, n as nat);
                        }
                    }
                }
                self.param_selected = Some(next);
            },
        }
    }

    /// Deletes the selected edit (see `after_delete`).
    pub fn delete_selected(&mut self)
        requires
            editor_well_formed(old(self)@),
        ensures
            final(self)@ == after_delete(old(self)@),
            editor_well_formed(final(self)@),
    {
        let idx = match self.selected {
            Some(i) => i,
            None => {
                return;
            },
        };
        if self.processors.len() == 0 {
            return;
        }
        let ghost before = self.processors@;
        let _gone = self.processors.remove(idx);
        proof {
            assert(edits_view(self.processors@) =~= edits_view(before).remove(idx as int));
        }
        let new_sel = if self.processors.len() == 0 {
            None
        } else if idx >= self.processors.len() {
            Some(idx - 1)
        } else {
            Some(idx)
        };
        self.selected = new_sel;
        self.param_selected = None;
    }

    /// Moves the selected edit one place up, keeping it selected.
    pub fn move_proc_up(&mut self)
        requires
            editor_well_formed(old(self)@),
        ensures
            final(self)@ == after_move_edit_up(old(self)@),
            editor_well_formed(final(self)@),
    {
        let idx = match self.selected {
            Some(i) => i,
            None => {
                return;
            },
        };
        if idx == 0 {
            return;
        }
        let ghost before = self.processors@;
        let e = self.processors.remove(idx);
        self.processors.insert(idx - 1, e);
        proof {
            assert(self.processors@ =~= swapped(before, idx as int, idx - 1));
            assert(edits_view(self.processors@) =~= swapped(
                edits_view(before),
                idx as int,
                idx - 1,
            ));
        }
        self.selected = Some(idx - 1);
    }

    /// Moves the selected edit one place down, keeping it selected.
    pub fn move_proc_down(&mut self)
        requires
            editor_well_formed(old(self)@),
        ensures
            final(self)@ == after_move_edit_down(old(self)@),
            editor_well_formed(final(self)@),
    {
        let idx = match self.selected {
            Some(i) => i,
            None => {
                return;
            },
        };
        proof {
            assert(old(self)@.selected == Some(idx as nat));
            assert(idx < self.processors@.len());
        }
        if idx >= self.processors.len() - 1 {
            return;
        }
        let ghost before = self.processors@;
        let e = self.processors.remove(idx);
        self.processors.insert(idx + 1, e);
        proof {
            assert(self.processors@ =~= swapped(before, idx as int, idx + 1));
            assert(edits_view(self.processors@) =~= swapped(
                edits_view(before),
                idx as int,
                idx + 1,
            ));
        }
        self.selected = Some(idx + 1);
    }

    /// Flips the switch of the selected edit.
    pub fn toggle_selected(&mut self)
        requires
            editor_well_formed(old(self)@),
        ensures
            final(self)@ == after_toggle(old(self)@),
            editor_well_formed(final(self)@),
    {
        let idx = match self.selected {
            Some(i) => i,
            None => {
                return;
            },
        };
        let old_edit = copy_edit(&self.processors[idx]);
        let e = ProcessorEdit {
            uuid: old_edit.uuid,
            enabled: !old_edit.enabled,
            kind: old_edit.kind,
        };
        let ghost before = self.processors@;
        self.processors.set(idx, e);
        proof {
            assert(edits_view(before)[idx as int] == edit_view(before[idx as int]));
            assert(edits_view(self.processors@) =~= edits_view(before).update(
                idx as int,
                edit_view(e),
            ));
        }
    }

    /// Inserts a new edit just after the selected one (at the top when none is
    /// selected) and selects it.
    pub fn insert_processor(&mut self, edit: ProcessorEdit)
        requires
            editor_well_formed(old(self)@),
            kind_well_formed(kind_view(edit.kind)),
        ensures
            ({
                let at: nat = match old(self)@.selected {
                    Some(i) => i + 1,
                    None => 0,
                };
                final(self)@ == EditorView {
                    edits: old(self)@.edits.insert(at as int, edit_view(edit)),
                    selected: Some(at),
                    ..old(self)@
                }
            }),
            editor_well_formed(final(self)@),
    {
        let n = self.processors.len();
        let at = match self.selected {
            Some(i) => {
                proof {
                    assert(old(self)@.selected == Some(i as nat));
                    assert(i < self.processors@.len());
                }
                i + 1
            },
            None => 0,
        };
        let ghost before = self.processors@;
        self.processors.insert(at, edit);
        proof {
            assert(edits_view(self.processors@) =~= edits_view(before).insert(
                at as int,
                edit_view(edit),
            ));
        }
        self.selected = Some(at);
    }

    /// Sets parameter `key` of the selected edit: to the `f64` number
    /// `f64_bits` for a structural processor, to the `f32` number `f32_bits`
    /// for a plugin.  Nothing changes without a selection.
    pub fn apply_param(&mut self, key: &str, f64_bits: u64, f32_bits: u32)
        requires
            editor_well_formed(old(self)@),
        ensures
            editor_well_formed(final(self)@),
            final(self)@.edits.len() == old(self)@.edits.len(),
            final(self)@.selected == old(self)@.selected,
            final(self)@.param_selected == old(self)@.param_selected,
            final(self)@.pane == old(self)@.pane,
            final(self)@.mode == old(self)@.mode,
            final(self)@.buffer == old(self)@.buffer,
            final(self)@.picker_idx == old(self)@.picker_idx,
            final(self)@.picker_len == old(self)@.picker_len,
            match old(self)@.selected {
                Some(i) => {
                    &&& forall|j: int|
                        0 <= j < old(self)@.edits.len() && j != i ==> final(self)@.edits[j]
                            == old(self)@.edits[j]
                    &&& final(self)@.edits[i as int].0 == old(self)@.edits[i as int].0
                    &&& final(self)@.edits[i as int].1 == old(self)@.edits[i as int].1
                    &&& match old(self)@.edits[i as int].2 {
                        KindView::Processor { processor_id, params } => {
                            let now = final(self)@.edits[i as int].2;
                            &&& now matches KindView::Processor { processor_id: p2, params: q2 }
                            &&& p2 == processor_id
                            &&& param_map(q2) == param_map(params).insert(key@, f64_bits)
                        },
                        KindView::Plugin { plugin_id, params } => {
                            let now = final(self)@.edits[i as int].2;
                            &&& now matches KindView::Plugin { plugin_id: p2, params: q2 }
                            &&& p2 == plugin_id
                            &&& param_map(q2) == param_map(params).insert(key@, f32_bits)
                        },
                    }
                },
                None => final(self)@ == old(self)@,
            },
    {
        let idx = match self.selected {
            Some(i) => i,
            None => {
                return;
            },
        };
        let ghost before = self.processors@;
        proof {
            assert(edits_view(before)[idx as int] == edit_view(before[idx as int]));
            assert(kind_well_formed(edits_view(before)[idx as int].2));
        }
        let old_edit = copy_edit(&self.processors[idx]);
        let kind = match old_edit.kind {
            EditKind::Processor { processor_id, params } => {
                let mut params = params;
                insert_param(&mut params, key, f64_bits);
                EditKind::Processor { processor_id, params }
            },
            EditKind::Plugin { plugin_id, params } => {
                let mut params = params;
                insert_param(&mut params, key, f32_bits);
                EditKind::Plugin { plugin_id, params }
            },
        };
        let e = ProcessorEdit { uuid: old_edit.uuid, enabled: old_edit.enabled, kind };
        self.processors.set(idx, e);
        proof {
            assert(edits_view(self.processors@) =~= edits_view(before).update(
                idx as int,
                edit_view(e),
            ));
        }
    }

    /// Begins editing a parameter value: the text buffer is set to `text`
    /// and the editor enters editing mode.
    pub fn begin_edit(&mut self, text: &str)
        requires
            editor_well_formed(old(self)@),
        ensures
            final(self)@ == (EditorView { buffer: text@, mode: Mode::Editing, ..old(self)@ }),
            editor_well_formed(final(self)@),
    {
        let n = text.unicode_len();
        let mut buf: Vec<char> = Vec::new();
        let mut i: usize = 0;
        while i < n
            invariant
                i <= n,
                n == text@.len(),
                buf@ == text@.take(i as int),
            decreases n - i,
        {
            buf.push(text.get_char(i));
            proof {
                assert(buf@ =~= text@.take(i as int + 1));
            }
            i = i + 1;
        }
        proof {
            assert(text@.take(n as int) =~= text@);
        }
        self.buffer = buf;
        self.mode = Mode::Editing;
    }

    /// Reacts to a key press (see `key_step`) and tells the caller what to do
    /// next.
    pub fn handle_key(&mut self, key: Key, mods: Modifiers) -> (action: EditorAction)
        requires
            editor_well_formed(old(self)@),
        ensures
            (final(self)@, action) == key_step(old(self)@, key, mods),
            editor_well_formed(final(self)@),
    {
        match self.mode {
            Mode::Picking => self.picking_key(key),
            Mode::Editing => self.editing_key(key),
            Mode::Normal => self.normal_key(key, mods),
        }
    }

    fn picking_key(&mut self, key: Key) -> (action: EditorAction)
        requires
            editor_well_formed(old(self)@),
            old(self)@.mode == Mode::Picking,
        ensures
            (final(self)@, action) == picking_step(old(self)@, key),
            editor_well_formed(final(self)@),
    {
        match key {
            Key::Esc => {
                self.mode = Mode::Normal;
                EditorAction::Nothing
            },
            Key::Up | Key::Char('k') => {
                if self.picker_idx > 0 {
                    self.picker_idx = self.picker_idx - 1;
                }
                EditorAction::Nothing
            },
            Key::Down | Key::Char('j') => {
                if self.picker_len > 0 && self.picker_idx < self.picker_len - 1 {
                    self.picker_idx = self.picker_idx + 1;
                }
                EditorAction::Nothing
            },
            Key::Enter => {
                if self.picker_idx < self.picker_len {
                    self.mode = Mode::Normal;
                    EditorAction::AddPicked(self.picker_idx)
                } else {
                    EditorAction::Nothing
                }
            },
            _ => EditorAction::Nothing,
        }
    }

    fn editing_key(&mut self, key: Key) -> (action: EditorAction)
        requires
            editor_well_formed(old(self)@),
            old(self)@.mode == Mode::Editing,
        ensures
            (final(self)@, action) == editing_step(old(self)@, key),
            editor_well_formed(final(self)@),
    {
        match key {
            Key::Esc => {
                self.mode = Mode::Normal;
                self.buffer = Vec::new();
                EditorAction::Nothing
            },
            Key::Backspace => {
                if self.buffer.len() > 0 {
                    let _ = self.buffer.pop();
                }
                EditorAction::Nothing
            },
            Key::Char(c) => {
                self.buffer.push(c);
                EditorAction::Nothing
            },
            Key::Enter => {
                match self.param_selected {
                    Some(p) => {
                        let n = self.param_count_of_selected();
                        if p < n {
                            self.mode = Mode::Normal;
                            self.buffer = Vec::new();
                            EditorAction::CommitEdit(p)
                        } else {
                            EditorAction::Nothing
                        }
                    },
                    None => EditorAction::Nothing,
                }
            },
            _ => EditorAction::Nothing,
        }
    }

    fn normal_key(&mut self, key: Key, mods: Modifiers) -> (action: EditorAction)
        requires
            editor_well_formed(old(self)@),
            old(self)@.mode == Mode::Normal,
        ensures
            (final(self)@, action) == normal_step(old(self)@, key, mods),
            editor_well_formed(final(self)@),
    {
        let on_list = self.pane == Pane::Processors;
        if key == Key::Char('q') || (key == Key::Char('c') && mods == Modifiers::Control) {
            EditorAction::Quit
        } else if key == Key::Tab {
            match self.pane {
                Pane::Processors => {
                    let n = self.param_count_of_selected();
                    if n > 0 {
                        self.param_selected = Some(0);
                    }
                    self.pane = Pane::Params;
                },
                Pane::Params => {
                    self.pane = Pane::Processors;
                },
            }
            EditorAction::ClearStatus
        } else if key == Key::Up && mods == Modifiers::Shift && on_list {
            self.move_proc_up();
            EditorAction::Save(SaveReason::MovedUp)
        } else if key == Key::Down && mods == Modifiers::Shift && on_list {
            self.move_proc_down();
            EditorAction::Save(SaveReason::MovedDown)
        } else if key == Key::Up || key == Key::Char('k') {
            self.move_up();
            EditorAction::Nothing
        } else if key == Key::Down || key == Key::Char('j') {
            self.move_down();
            EditorAction::Nothing
        } else if key == Key::Enter {
            match self.param_selected {
                Some(p) => {
                    let n = self.param_count_of_selected();
                    if self.pane == Pane::Params && p < n {
                        EditorAction::EnterParam(p)
                    } else {
                        EditorAction::Nothing
                    }
                },
                None => EditorAction::Nothing,
            }
        } else if key == Key::Char('a') && on_list {
            self.picker_idx = 0;
            self.mode = Mode::Picking;
            EditorAction::Nothing
        } else if key == Key::Char('d') && on_list {
            self.delete_selected();
            EditorAction::Save(SaveReason::Deleted)
        } else if key == Key::Char(' ') && on_list {
            self.toggle_selected();
            EditorAction::Save(SaveReason::Toggled)
        } else {
            EditorAction::Nothing
        }
    }
}

} // verus!
