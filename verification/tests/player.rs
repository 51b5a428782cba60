use musicum::editor::{Key, Modifiers};
use musicum::player::{
    fmt_duration, processor_display, resolve_error, resolve_step, Lookup, Player, PlayerAction,
    ResolveStep, StepSummary, TargetOutcome,
};

fn step(force_file: bool, force_clip: bool, answers: &[bool]) -> ResolveStep {
    resolve_step(force_file, force_clip, true, &answers.to_vec())
}

fn export_step(answers: &[bool]) -> ResolveStep {
    resolve_step(false, false, false, &answers.to_vec())
}

#[test]
fn resolve_prefers_file_then_clip_then_path() {
    assert!(step(false, false, &[]) == ResolveStep::Ask(Lookup::FileBySlug));
    assert!(step(false, false, &[true]) == ResolveStep::Done(TargetOutcome::File));
    assert!(step(false, false, &[false]) == ResolveStep::Ask(Lookup::ClipBySlug));
    assert!(step(false, false, &[false, true]) == ResolveStep::Ask(Lookup::FileOfClip));
    assert!(step(false, false, &[false, true, true]) == ResolveStep::Done(TargetOutcome::Clip));
    assert!(step(false, false, &[false, true, false]) == ResolveStep::Ask(Lookup::PathExists));
    assert!(step(false, false, &[false, true, false, true]) == ResolveStep::Done(TargetOutcome::Path));
    assert!(step(false, false, &[false, false]) == ResolveStep::Ask(Lookup::PathExists));
    assert!(step(false, false, &[false, false, true]) == ResolveStep::Done(TargetOutcome::Path));
    assert!(step(false, false, &[false, false, false]) == ResolveStep::Done(TargetOutcome::Unknown));
}

#[test]
fn resolve_without_path_fallback() {
    assert!(export_step(&[false, false]) == ResolveStep::Done(TargetOutcome::NotSlug));
    assert!(export_step(&[false, true, false]) == ResolveStep::Done(TargetOutcome::NotSlug));
    assert!(export_step(&[false, true, true]) == ResolveStep::Done(TargetOutcome::Clip));
    assert_eq!(
        resolve_error(TargetOutcome::NotSlug, "x").unwrap(),
        "'x' is not a known file or clip slug"
    );
}

#[test]
fn resolve_forced_kinds_look_only_there() {
    assert!(step(true, false, &[]) == ResolveStep::Ask(Lookup::FileBySlug));
    assert!(step(true, false, &[false]) == ResolveStep::Done(TargetOutcome::NoFile));
    assert!(step(false, true, &[]) == ResolveStep::Ask(Lookup::ClipBySlug));
    assert!(step(false, true, &[false]) == ResolveStep::Done(TargetOutcome::NoClip));
    assert!(step(false, true, &[true, false]) == ResolveStep::Done(TargetOutcome::ClipParentMissing));
    assert!(step(false, true, &[true, true]) == ResolveStep::Done(TargetOutcome::Clip));
}

#[test]
fn resolve_error_messages() {
    assert_eq!(resolve_error(TargetOutcome::NoFile, "x").unwrap(), "no file with slug 'x'");
    assert_eq!(resolve_error(TargetOutcome::NoClip, "x").unwrap(), "no clip with slug 'x'");
    assert_eq!(
        resolve_error(TargetOutcome::ClipParentMissing, "x").unwrap(),
        "parent file for clip 'x' not found"
    );
    assert_eq!(
        resolve_error(TargetOutcome::Unknown, "x").unwrap(),
        "'x' is not a known slug or an existing file path"
    );
    assert!(resolve_error(TargetOutcome::File, "x").is_none());
}

#[test]
fn durations_show_minutes_and_seconds() {
    assert_eq!(fmt_duration(0), "00:00");
    assert_eq!(fmt_duration(59), "00:59");
    assert_eq!(fmt_duration(61), "01:01");
    assert_eq!(fmt_duration(600), "10:00");
    assert_eq!(fmt_duration(6000), "100:00");
}

#[test]
fn player_quits_from_any_state() {
    let mut p = Player::new(1).unwrap();
    p.settle(true);
    assert!(p.is_exhausted());
    assert!(p.handle_key(Key::Char('q'), Modifiers::Plain, false) == PlayerAction::Quit);
    assert!(p.handle_key(Key::Esc, Modifiers::Shift, false) == PlayerAction::Quit);
    assert!(p.handle_key(Key::Char('c'), Modifiers::Control, false) == PlayerAction::Quit);
    assert!(p.handle_key(Key::Char('p'), Modifiers::Plain, false) == PlayerAction::Nothing);
}

#[test]
fn player_keys_in_a_queue() {
    let mut p = Player::new(2).unwrap();
    assert!(p.handle_key(Key::Char('p'), Modifiers::Plain, false) == PlayerAction::TogglePause);
    assert!(p.handle_key(Key::Char('l'), Modifiers::Plain, false) == PlayerAction::ToggleLoop);
    assert!(p.handle_key(Key::Right, Modifiers::Plain, false) == PlayerAction::SeekForward);
    assert!(p.handle_key(Key::Left, Modifiers::Plain, false) == PlayerAction::SeekBack);
    assert!(p.handle_key(Key::Right, Modifiers::Shift, false) == PlayerAction::Load);
    assert_eq!(p.current_index(), 1);
    assert!(p.handle_key(Key::Right, Modifiers::Shift, false) == PlayerAction::Nothing);
    assert!(p.handle_key(Key::Left, Modifiers::Shift, true) == PlayerAction::Restart);
    assert_eq!(p.current_index(), 1);
    assert!(p.handle_key(Key::Left, Modifiers::Shift, false) == PlayerAction::Load);
    assert_eq!(p.current_index(), 0);
    assert!(p.handle_key(Key::Left, Modifiers::Shift, false) == PlayerAction::Nothing);
    assert!(p.handle_key(Key::Char('x'), Modifiers::Plain, false) == PlayerAction::Nothing);
}

#[test]
fn player_runs_out_after_last_clip() {
    let mut p = Player::new(2).unwrap();
    assert!(!p.tick(false));
    p.settle(false);
    assert!(!p.is_exhausted());
    assert!(p.tick(true));
    assert_eq!(p.current_index(), 1);
    p.settle(false);
    assert!(!p.is_exhausted());
    assert!(!p.tick(true));
    p.settle(true);
    assert!(p.is_exhausted());
    assert!(!p.tick(true));
    assert!(Player::new(0).is_none());
}

#[test]
fn processor_line_lists_enabled_steps_with_sorted_params() {
    let steps = vec![
        StepSummary {
            processor_id: "trim".into(),
            enabled: true,
            params: vec!["start=1.00s".into(), "end=2.50s".into()],
        },
        StepSummary { processor_id: "cut".into(), enabled: false, params: vec![] },
        StepSummary { processor_id: "crop".into(), enabled: true, params: vec!["at=0.00s".into()] },
    ];
    assert_eq!(processor_display(&steps), "trim end=2.50s start=1.00s  crop at=0.00s");
    assert_eq!(processor_display(&vec![]), "");
}
