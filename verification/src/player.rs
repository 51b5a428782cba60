//! Decisions of the command-line player: which source a target names, what a
//! key press does, and when a queue of clips has run out.
//!
//! The player loop itself (terminal, audio engine, clock) stays with the
//! caller, who asks the lookups that `resolve_step` names, performs the
//! actions that `Player::handle_key` returns and reports each tick.

use vstd::prelude::*;

use crate::editor::{Key, Modifiers};
use crate::queue::{PrevOutcome, QueueCursor};
use crate::schema::{all_digits, digits_value, lemma_decimal_digits};
use crate::text::{
    decimal, join_with, joined_with, push_char, push_decimal, sort_texts, sorted_version,
    strings_view,
};

verus! {

// ── Resolving a play target ─────────────────────────────────────────────────

/// A lookup the caller performs; its answer is whether it found something.
#[derive(PartialEq, Eq, Structural, Clone, Copy)]
pub enum Lookup {
    /// A catalogued file with the target as slug.
    FileBySlug,
    /// A clip with the target as slug.
    ClipBySlug,
    /// The file that the clip found belongs to.
    FileOfClip,
    /// A file on disk at the target as path.
    PathExists,
}

/// What the target turned out to name.
#[derive(PartialEq, Eq, Structural, Clone, Copy)]
pub enum TargetOutcome {
    /// The catalogued file: play it without edits.
    File,
    /// The clip: play its file with the clip's edits.
    Clip,
    /// The file at the target path: play it without edits.
    Path,
    /// A file was asked for and there is none with that slug.
    NoFile,
    /// A clip was asked for and there is none with that slug.
    NoClip,
    /// A clip was asked for and its file is gone.
    ClipParentMissing,
    /// Neither a slug nor an existing path.
    Unknown,
    /// No file or clip slug, where paths are not considered.
    NotSlug,
}

/// The next step of resolving a target.
#[derive(PartialEq, Eq, Structural, Clone, Copy)]
pub enum ResolveStep {
    Ask(Lookup),
    Done(TargetOutcome),
}

/// How a target resolves, given the answers to the lookups asked so far, in
/// order.  With `force_file` only the file slug counts; with `force_clip`
/// only the clip slug (and then its file).  Otherwise a file slug wins, then
/// a clip slug whose file exists, then (with `path_fallback`) an existing
/// path.
pub open spec fn resolve_plan(
    force_file: bool,
    force_clip: bool,
    path_fallback: bool,
    a: Seq<bool>,
) -> ResolveStep {
    if force_file {
        if a.len() == 0 {
            ResolveStep::Ask(Lookup::FileBySlug)
        } else if a[0] {
            ResolveStep::Done(TargetOutcome::File)
        } else {
            ResolveStep::Done(TargetOutcome::NoFile)
        }
    } else if force_clip {
        if a.len() == 0 {
            ResolveStep::Ask(Lookup::ClipBySlug)
        } else if !a[0] {
            ResolveStep::Done(TargetOutcome::NoClip)
        } else if a.len() == 1 {
            ResolveStep::Ask(Lookup::FileOfClip)
        } else if a[1] {
            ResolveStep::Done(TargetOutcome::Clip)
        } else {
            ResolveStep::Done(TargetOutcome::ClipParentMissing)
        }
    } else if a.len() == 0 {
        ResolveStep::Ask(Lookup::FileBySlug)
    } else if a[0] {
        ResolveStep::Done(TargetOutcome::File)
    } else if a.len() == 1 {
        ResolveStep::Ask(Lookup::ClipBySlug)
    } else if a[1] {
        if a.len() == 2 {
            ResolveStep::Ask(Lookup::FileOfClip)
        } else if a[2] {
            ResolveStep::Done(TargetOutcome::Clip)
        } else if !path_fallback {
            ResolveStep::Done(TargetOutcome::NotSlug)
        } else if a.len() == 3 {
            ResolveStep::Ask(Lookup::PathExists)
        } else if a[3] {
            ResolveStep::Done(TargetOutcome::Path)
        } else {
            ResolveStep::Done(TargetOutcome::Unknown)
        }
    } else if !path_fallback {
        ResolveStep::Done(TargetOutcome::NotSlug)
    } else if a.len() == 2 {
        ResolveStep::Ask(Lookup::PathExists)
    } else if a[2] {
        ResolveStep::Done(TargetOutcome::Path)
    } else {
        ResolveStep::Done(TargetOutcome::Unknown)
    }
}

/// The next step of resolving a target (see `resolve_plan`).
pub fn resolve_step(force_file: bool, force_clip: bool, path_fallback: bool, answers: &Vec<bool>) -> (s:
    ResolveStep)
    ensures
        s == resolve_plan(force_file, force_clip, path_fallback, answers@),
{
    let n = answers.len();
    if force_file {
        if n == 0 {
            ResolveStep::Ask(Lookup::FileBySlug)
        } else if answers[0] {
            ResolveStep::Done(TargetOutcome::File)
        } else {
            ResolveStep::Done(TargetOutcome::NoFile)
        }
    } else if force_clip {
        if n == 0 {
            ResolveStep::Ask(Lookup::ClipBySlug)
        } else if !answers[0] {
            ResolveStep::Done(TargetOutcome::NoClip)
        } else if n == 1 {
            ResolveStep::Ask(Lookup::FileOfClip)
        } else if answers[1] {
            ResolveStep::Done(TargetOutcome::Clip)
        } else {
            ResolveStep::Done(TargetOutcome::ClipParentMissing)
        }
    } else if n == 0 {
        ResolveStep::Ask(Lookup::FileBySlug)
    } else if answers[0] {
        ResolveStep::Done(TargetOutcome::File)
    } else if n == 1 {
        ResolveStep::Ask(Lookup::ClipBySlug)
    } else if answers[1] {
        if n == 2 {
            ResolveStep::Ask(Lookup::FileOfClip)
        } else if answers[2] {
            ResolveStep::Done(TargetOutcome::Clip)
        } else if !path_fallback {
            ResolveStep::Done(TargetOutcome::NotSlug)
        } else if n == 3 {
            ResolveStep::Ask(Lookup::PathExists)
        } else if answers[3] {
            ResolveStep::Done(TargetOutcome::Path)
        } else {
            ResolveStep::Done(TargetOutcome::Unknown)
        }
    } else if !path_fallback {
        ResolveStep::Done(TargetOutcome::NotSlug)
    } else if n == 2 {
        ResolveStep::Ask(Lookup::PathExists)
    } else if answers[2] {
        ResolveStep::Done(TargetOutcome::Path)
    } else {
        ResolveStep::Done(TargetOutcome::Unknown)
    }
}

/// The message for a target that does not resolve; none for one that does.
pub open spec fn resolve_error_text(o: TargetOutcome, target: Seq<char>) -> Option<Seq<char>> {
    match o {
        TargetOutcome::NoFile => Some("no file with slug '"@ + target + "'"@),
        TargetOutcome::NoClip => Some("no clip with slug '"@ + target + "'"@),
        TargetOutcome::ClipParentMissing => Some(
            "parent file for clip '"@ + target + "' not found"@,
        ),
        TargetOutcome::Unknown => Some(
            "'"@ + target + "' is not a known slug or an existing file path"@,
        ),
        TargetOutcome::NotSlug => Some("'"@ + target + "' is not a known file or clip slug"@),
        _ => None,
    }
}

/// The message for a target that does not resolve (see `resolve_error_text`).
pub fn resolve_error(o: TargetOutcome, target: &str) -> (m: Option<String>)
    ensures
        match m {
            Some(t) => resolve_error_text(o, target@) == Some(t@),
            None => resolve_error_text(o, target@) is None,
        },
{
    let (head, tail) = match o {
        TargetOutcome::NoFile => ("no file with slug '", "'"),
        TargetOutcome::NoClip => ("no clip with slug '", "'"),
        TargetOutcome::ClipParentMissing => ("parent file for clip '", "' not found"),
        TargetOutcome::Unknown => ("'", "' is not a known slug or an existing file path"),
        TargetOutcome::NotSlug => ("'", "' is not a known file or clip slug"),
        _ => {
            return None;
        },
    };
    let mut s = String::from_str(head);
    s.append(target);
    s.append(tail);
    Some(s)
}

// ── Time display ────────────────────────────────────────────────────────────

/// At least two decimal digits, zero-padded.
pub open spec fn two_digits(n: nat) -> Seq<char> {
    if n < 10 {
        seq!['0'] + decimal(n)
    } else {
        decimal(n)
    }
}

/// A duration in whole seconds as `MM:SS` (minutes may take more digits).
pub open spec fn duration_text(secs: nat) -> Seq<char> {
    two_digits(secs / 60) + seq![':'] + two_digits(secs % 60)
}

fn push_two_digits(out: &mut String, n: u64)
    ensures
        final(out)@ == old(out)@ + two_digits(n as nat),
{
    if n < 10 {
        push_char(out, '0');
    }
    push_decimal(out, n);
}

/// A duration in whole seconds as `MM:SS` (see `duration_text`).
pub fn fmt_duration(secs: u64) -> (s: String)
    ensures
        s@ == duration_text(secs as nat),
{
    let mut s = String::new();
    push_two_digits(&mut s, secs / 60);
    push_char(&mut s, ':');
    push_two_digits(&mut s, secs % 60);
    s
}

// ── Player state ────────────────────────────────────────────────────────────

/// What the caller does after a key press.
#[derive(PartialEq, Eq, Structural, Clone, Copy)]
pub enum PlayerAction {
    /// Leave the player.
    Quit,
    /// Nothing.
    Nothing,
    TogglePause,
    ToggleLoop,
    /// Seek five seconds ahead.
    SeekForward,
    /// Seek five seconds back, not before the start.
    SeekBack,
    /// Start the current clip over.
    Restart,
    /// Load the clip at the (new) current position.
    Load,
}

/// Position in the queue and whether the queue has run out.
pub struct Player {
    cursor: QueueCursor,
    exhausted: bool,
}

impl View for Player {
    /// (current position, number of clips, exhausted)
    type V = (nat, nat, bool);

    closed spec fn view(&self) -> (nat, nat, bool) {
        (self.cursor@.0, self.cursor@.1, self.exhausted)
    }
}

/// The position points at a clip of a non-empty queue.
pub open spec fn player_ok(v: (nat, nat, bool)) -> bool {
    v.0 < v.1
}

/// What a key press does (see `Player::handle_key`): the new state and the
/// action.  Quitting always works; once the queue has run out every other
/// key does nothing.
pub open spec fn player_key_step(
    v: (nat, nat, bool),
    key: Key,
    mods: Modifiers,
    past_restart_point: bool,
) -> ((nat, nat, bool), PlayerAction) {
    if key == Key::Char('q') || key == Key::Esc || (key == Key::Char('c') && mods
        == Modifiers::Control) {
        (v, PlayerAction::Quit)
    } else if v.2 {
        (v, PlayerAction::Nothing)
    } else if key == Key::Char('p') {
        (v, PlayerAction::TogglePause)
    } else if key == Key::Char('l') {
        (v, PlayerAction::ToggleLoop)
    } else if key == Key::Right && mods == Modifiers::Plain {
        (v, PlayerAction::SeekForward)
    } else if key == Key::Left && mods == Modifiers::Plain {
        (v, PlayerAction::SeekBack)
    } else if key == Key::Right && mods == Modifiers::Shift {
        if v.0 + 1 < v.1 {
            ((v.0 + 1, v.1, v.2), PlayerAction::Load)
        } else {
            (v, PlayerAction::Nothing)
        }
    } else if key == Key::Left && mods == Modifiers::Shift {
        if past_restart_point {
            (v, PlayerAction::Restart)
        } else if v.0 > 0 {
            (((v.0 - 1) as nat, v.1, v.2), PlayerAction::Load)
        } else {
            (v, PlayerAction::Nothing)
        }
    } else {
        (v, PlayerAction::Nothing)
    }
}

impl Player {
    /// A player at the first of `total` clips; none for an empty queue.
    pub fn new(total: usize) -> (p: Option<Player>)
        ensures
            total == 0 ==> p is None,
            total > 0 ==> (p matches Some(q) && q@ == (0nat, total as nat, false)),
    {
        match QueueCursor::new(total) {
            Some(cursor) => Some(Player { cursor, exhausted: false }),
            None => None,
        }
    }

    /// Position of the current clip.
    pub fn current_index(&self) -> (i: usize)
        ensures
            i as nat == self@.0,
    {
        self.cursor.current_index()
    }

    /// Number of clips.
    pub fn total(&self) -> (n: usize)
        ensures
            n as nat == self@.1,
    {
        self.cursor.total()
    }

    /// Whether the queue has run out.
    pub fn is_exhausted(&self) -> (b: bool)
        ensures
            b == self@.2,
    {
        self.exhausted
    }

    /// First half of a tick: when the current clip has finished, move on to
    /// the next one (the caller loads it when this returns true).  Nothing
    /// moves once the queue has run out.
    pub fn tick(&mut self, finished: bool) -> (moved: bool)
        requires
            player_ok(old(self)@),
        ensures
            player_ok(final(self)@),
            moved == (!old(self)@.2 && finished && old(self)@.0 + 1 < old(self)@.1),
            final(self)@ == if moved {
                (old(self)@.0 + 1, old(self)@.1, old(self)@.2)
            } else {
                old(self)@
            },
    {
        if self.exhausted {
            return false;
        }
        self.cursor.advance_if_finished(finished)
    }

    /// Second half of a tick: the queue runs out when the last clip has
    /// finished.
    pub fn settle(&mut self, finished: bool)
        requires
            player_ok(old(self)@),
        ensures
            player_ok(final(self)@),
            final(self)@ == (
                old(self)@.0,
                old(self)@.1,
                old(self)@.2 || (finished && old(self)@.0 + 1 >= old(self)@.1),
            ),
    {
        if !self.exhausted && self.cursor.is_exhausted(finished) {
            self.exhausted = true;
        }
    }

    /// A key press (see `player_key_step`); `past_restart_point` tells
    /// whether playback is more than three seconds into the clip.
    pub fn handle_key(&mut self, key: Key, mods: Modifiers, past_restart_point: bool) -> (a:
        PlayerAction)
        requires
            player_ok(old(self)@),
        ensures
            player_ok(final(self)@),
            (final(self)@, a) == player_key_step(old(self)@, key, mods, past_restart_point),
    {
        if key == Key::Char('q') || key == Key::Esc || (key == Key::Char('c') && mods
            == Modifiers::Control) {
            return PlayerAction::Quit;
        }
        if self.exhausted {
            return PlayerAction::Nothing;
        }
        if key == Key::Char('p') {
            PlayerAction::TogglePause
        } else if key == Key::Char('l') {
            PlayerAction::ToggleLoop
        } else if key == Key::Right && mods == Modifiers::Plain {
            PlayerAction::SeekForward
        } else if key == Key::Left && mods == Modifiers::Plain {
            PlayerAction::SeekBack
        } else if key == Key::Right && mods == Modifiers::Shift {
            if self.cursor.next() {
                PlayerAction::Load
            } else {
                PlayerAction::Nothing
            }
        } else if key == Key::Left && mods == Modifiers::Shift {
            match self.cursor.prev(past_restart_point) {
                PrevOutcome::Restarted => PlayerAction::Restart,
                PrevOutcome::MovedBack => PlayerAction::Load,
                PrevOutcome::AtStart => PlayerAction::Nothing,
            }
        } else {
            PlayerAction::Nothing
        }
    }
}

// ── Laws ─────────────────────────────────────────────────────────────────────

/// Resolving a target asks at most four questions: with four answers it is
/// always settled.
pub proof fn law_resolve_settles(
    force_file: bool,
    force_clip: bool,
    path_fallback: bool,
    answers: Seq<bool>,
)
    requires
        answers.len() >= 4,
    ensures
        resolve_plan(force_file, force_clip, path_fallback, answers) is Done,
{
}

/// A file slug wins over a clip slug and a path, unless a clip was asked for.
pub proof fn law_file_slug_wins(force_file: bool, path_fallback: bool, answers: Seq<bool>)
    requires
        answers.len() > 0,
        answers[0],
    ensures
        resolve_plan(force_file, false, path_fallback, answers) == ResolveStep::Done(
            TargetOutcome::File,
        ),
{
}

/// With `force_file`, only the file slug is looked up.
pub proof fn law_forced_file_asks_only_for_files(
    force_clip: bool,
    path_fallback: bool,
    answers: Seq<bool>,
)
    ensures
        ({
            let r = resolve_plan(true, force_clip, path_fallback, answers);
            r == ResolveStep::Ask(Lookup::FileBySlug) || r == ResolveStep::Done(TargetOutcome::File)
                || r == ResolveStep::Done(TargetOutcome::NoFile)
        }),
{
}

/// Every outcome that plays nothing has a message, and every outcome that
/// plays something has none.
pub proof fn law_failures_have_messages(o: TargetOutcome, target: Seq<char>)
    ensures
        resolve_error_text(o, target) is None <==> (o == TargetOutcome::File || o
            == TargetOutcome::Clip || o == TargetOutcome::Path),
{
}

/// Quitting works from every state and changes nothing.
pub proof fn law_quit_always_works(v: (nat, nat, bool), mods: Modifiers, past: bool)
    ensures
        player_key_step(v, Key::Char('q'), mods, past) == (v, PlayerAction::Quit),
        player_key_step(v, Key::Esc, mods, past) == (v, PlayerAction::Quit),
        player_key_step(v, Key::Char('c'), Modifiers::Control, past) == (v, PlayerAction::Quit),
{
}

/// Once the queue has run out, every key but quitting does nothing.
pub proof fn law_exhausted_queue_is_inert(v: (nat, nat, bool), key: Key, mods: Modifiers, past: bool)
    requires
        v.2,
        player_key_step(v, key, mods, past).1 != PlayerAction::Quit,
    ensures
        player_key_step(v, key, mods, past) == (v, PlayerAction::Nothing),
{
}

/// Skipping to the next clip and then back (near the start of that clip)
/// returns to where playback was.
pub proof fn law_next_then_back(v: (nat, nat, bool), past: bool)
    requires
        player_ok(v),
        !v.2,
        v.0 + 1 < v.1,
    ensures
        ({
            let (w, a) = player_key_step(v, Key::Right, Modifiers::Shift, past);
            &&& a == PlayerAction::Load
            &&& player_key_step(w, Key::Left, Modifiers::Shift, false) == (v, PlayerAction::Load)
        }),
{
}

/// No key press takes the position out of the queue.
pub proof fn law_position_stays_in_queue(
    v: (nat, nat, bool),
    key: Key,
    mods: Modifiers,
    past: bool,
)
    requires
        player_ok(v),
    ensures
        player_ok(player_key_step(v, key, mods, past).0),
        player_key_step(v, key, mods, past).0.1 == v.1,
{
}

// ── Processor line ──────────────────────────────────────────────────────────

/// A structural step as summarised under the player: its processor, its
/// switch, and its parameters already written as `key=value` texts.
pub struct StepSummary {
    pub processor_id: String,
    pub enabled: bool,
    pub params: Vec<String>,
}

/// The view of a step summary.
pub open spec fn summary_view(s: StepSummary) -> (Seq<char>, bool, Seq<Seq<char>>) {
    (s.processor_id@, s.enabled, strings_view(s.params@))
}

/// A step as shown: its processor, a space, and its parameters in increasing
/// order separated by spaces.
pub open spec fn step_text(processor_id: Seq<char>, params: Seq<Seq<char>>) -> Seq<char> {
    processor_id + " "@ + joined_with(sorted_version(params), " "@)
}

/// The texts of the switched-on steps, in order.
pub open spec fn shown_steps(s: Seq<(Seq<char>, bool, Seq<Seq<char>>)>) -> Seq<Seq<char>>
    decreases s.len(),
{
    if s.len() == 0 {
        Seq::empty()
    } else if s.last().1 {
        shown_steps(s.drop_last()).push(step_text(s.last().0, s.last().2))
    } else {
        shown_steps(s.drop_last())
    }
}

/// The line of switched-on steps shown under the player, separated by two
/// spaces; steps that are switched off are left out.
pub fn processor_display(steps: &Vec<StepSummary>) -> (line: String)
    ensures
        line@ == joined_with(
            shown_steps(steps@.map_values(|s: StepSummary| summary_view(s))),
            "  "@,
        ),
{
    let ghost sv = steps@.map_values(|s: StepSummary| summary_view(s));
    let mut parts: Vec<String> = Vec::new();
    let mut i: usize = 0;
    while i < steps.len()
        invariant
            i <= steps@.len(),
            sv == steps@.map_values(|s: StepSummary| summary_view(s)),
            strings_view(parts@) == shown_steps(sv.take(i as int)),
        decreases steps@.len() - i,
    {
        proof {
            assert(sv.take(i as int + 1).drop_last() =~= sv.take(i as int));
            assert(sv.take(i as int + 1).last() == summary_view(steps@[i as int]));
        }
        if steps[i].enabled {
            let sorted = sort_texts(&steps[i].params);
            let joined = join_with(&sorted, " ");
            let mut t = steps[i].processor_id.clone();
            t.append(" ");
            t.append(joined.as_str());
            let ghost before = parts@;
            parts.push(t);
            proof {
                assert(strings_view(parts@) =~= strings_view(before).push(t@));
            }
        }
        i = i + 1;
    }
    proof {
        assert(sv.take(steps@.len() as int) =~= sv);
    }
    join_with(&parts, "  ")
}

proof fn lemma_decimal_shape(n: nat)
    ensures
        (decimal(n).len() == 1) <==> n < 10,
        n < 100 ==> decimal(n).len() <= 2,
        n >= 1 ==> decimal(n)[0] != '0',
    decreases n,
{
    lemma_decimal_digits(n);
    if n >= 10 {
        lemma_decimal_shape(n / 10);
        lemma_decimal_digits(n / 10);
        assert(decimal(n)[0] == decimal(n / 10)[0]);
    }
}

proof fn lemma_two_digits(n: nat)
    ensures
        all_digits(two_digits(n)),
        digits_value(two_digits(n)) == n,
        two_digits(n).len() >= 2,
        n < 100 ==> two_digits(n).len() == 2,
        two_digits(n).len() > 2 ==> two_digits(n)[0] != '0',
{
    lemma_decimal_digits(n);
    lemma_decimal_shape(n);
    if n < 10 {
        let t = seq!['0'] + decimal(n);
        assert(t.drop_last() =~= seq!['0']);
        assert(seq!['0'].drop_last() =~= Seq::<char>::empty());
        assert(seq!['0'].last() == '0');
        assert(digits_value(Seq::<char>::empty()) == 0);
        assert(digits_value(seq!['0']) == 0);
        assert(t.last() == decimal(n)[0]);
        assert(decimal(n).drop_last() =~= Seq::<char>::empty());
        assert(digits_value(decimal(n)) == (decimal(n).last() as nat - '0' as nat) as nat);
        assert forall|i: int| 0 <= i < t.len() implies '0' <= #[trigger] t[i] <= '9' by {
            if i == 1 {
                assert(t[1] == decimal(n)[0]);
            }
        }
    }
}

/// A shown duration reads back as the duration: minutes (at least two
/// digits, no extra leading zero), a colon, and exactly two digits of
/// seconds below sixty, with minutes times sixty plus seconds giving the
/// number of seconds.
pub proof fn law_duration_reads_back(secs: nat)
    ensures
        ({
            let t = duration_text(secs);
            let minutes = t.subrange(0, t.len() - 3);
            let seconds = t.subrange(t.len() - 2, t.len() as int);
            &&& t.len() >= 5
            &&& t[t.len() - 3] == ':'
            &&& all_digits(minutes) && all_digits(seconds)
            &&& minutes.len() >= 2
            &&& (minutes.len() == 2 || minutes[0] != '0')
            &&& digits_value(seconds) < 60
            &&& digits_value(minutes) * 60 + digits_value(seconds) == secs
        }),
{
    let m = two_digits(secs / 60);
    let sp = two_digits(secs % 60);
    lemma_two_digits(secs / 60);
    lemma_two_digits(secs % 60);
    let t = duration_text(secs);
    assert(t == m + seq![':'] + sp);
    assert(t.subrange(0, t.len() - 3) =~= m);
    assert(t.subrange(t.len() - 2, t.len() as int) =~= sp);
    assert(t[t.len() - 3] == ':');
    assert(secs == (secs / 60) * 60 + secs % 60);
}

/// While the queue plays, `p` pauses or resumes and `l` loops, whatever the
/// modifiers; plain Right and Left seek forward and back; shifted Left starts
/// the clip over once past the restart point, else goes back one clip (at
/// the first clip it does nothing); shifted Right at the last clip does
/// nothing.  None of these moves the position except going back or forth
/// one clip.
pub proof fn law_player_controls(v: (nat, nat, bool), mods: Modifiers, past: bool)
    requires
        player_ok(v),
        !v.2,
    ensures
        player_key_step(v, Key::Char('p'), mods, past) == (v, PlayerAction::TogglePause),
        player_key_step(v, Key::Char('l'), mods, past) == (v, PlayerAction::ToggleLoop),
        player_key_step(v, Key::Right, Modifiers::Plain, past) == (v, PlayerAction::SeekForward),
        player_key_step(v, Key::Left, Modifiers::Plain, past) == (v, PlayerAction::SeekBack),
        past ==> player_key_step(v, Key::Left, Modifiers::Shift, past) == (v, PlayerAction::Restart),
        !past && v.0 > 0 ==> player_key_step(v, Key::Left, Modifiers::Shift, past) == (
            ((v.0 - 1) as nat, v.1, v.2),
            PlayerAction::Load,
        ),
        !past && v.0 == 0 ==> player_key_step(v, Key::Left, Modifiers::Shift, past) == (
            v,
            PlayerAction::Nothing,
        ),
        v.0 + 1 == v.1 ==> player_key_step(v, Key::Right, Modifiers::Shift, past) == (
            v,
            PlayerAction::Nothing,
        ),
{
}

} // verus!
