//! Position in a playback queue of clips.
//!
//! The queue itself (the clips and the playback engine of the current one)
//! lives with the audio backend; this cursor decides where playback moves on
//! "next", "previous" and when a clip finishes.  Whenever a step reports a
//! move, the caller loads the clip at the new position.

use vstd::prelude::*;

verus! {

/// Position in a non-empty queue.
pub struct QueueCursor {
    current: usize,
    total: usize,
}

/// What "previous" did.
#[derive(PartialEq, Eq, Structural, Clone, Copy)]
pub enum PrevOutcome {
    /// Playback was past the restart point: the current clip starts over.
    Restarted,
    /// Moved to the previous clip.
    MovedBack,
    /// Already at the first clip near its start: nothing happens.
    AtStart,
}

impl View for QueueCursor {
    /// (current position, number of clips)
    type V = (nat, nat);

    closed spec fn view(&self) -> (nat, nat) {
        (self.current as nat, self.total as nat)
    }
}

/// The cursor points at a clip of a non-empty queue.
pub open spec fn cursor_ok(v: (nat, nat)) -> bool {
    v.0 < v.1
}

impl QueueCursor {
    /// A cursor at the first of `total` clips; none for an empty queue (a
    /// queue needs at least one clip).
    pub fn new(total: usize) -> (c: Option<QueueCursor>)
        ensures
            total == 0 ==> c is None,
            total > 0 ==> (c matches Some(q) && q@ == (0nat, total as nat)),
    {
        if total == 0 {
            None
        } else {
            Some(QueueCursor { current: 0, total })
        }
    }

    /// Position of the current clip.
    pub fn current_index(&self) -> (i: usize)
        ensures
            i as nat == self@.0,
    {
        self.current
    }

    /// Number of clips.
    pub fn total(&self) -> (n: usize)
        ensures
            n as nat == self@.1,
    {
        self.total
    }

    /// Moves to the next clip unless at the last one; tells whether it moved.
    pub fn next(&mut self) -> (moved: bool)
        requires
            cursor_ok(old(self)@),
        ensures
            moved == (old(self)@.0 + 1 < old(self)@.1),
            final(self)@ == if moved {
                (old(self)@.0 + 1, old(self)@.1)
            } else {
                old(self)@
            },
            cursor_ok(final(self)@),
    {
        if self.current >= self.total - 1 {
            return false;
        }
        self.current = self.current + 1;
        true
    }

    /// "Previous": past the restart point (three seconds into the clip) the
    /// current clip starts over; otherwise moves to the previous clip, unless
    /// at the first one.
    pub fn prev(&mut self, past_restart_point: bool) -> (o: PrevOutcome)
        requires
            cursor_ok(old(self)@),
        ensures
            o == if past_restart_point {
                PrevOutcome::Restarted
            } else if old(self)@.0 == 0 {
                PrevOutcome::AtStart
            } else {
                PrevOutcome::MovedBack
            },
            final(self)@ == if o == PrevOutcome::MovedBack {
                ((old(self)@.0 - 1) as nat, old(self)@.1)
            } else {
                old(self)@
            },
            cursor_ok(final(self)@),
    {
        if past_restart_point {
            return PrevOutcome::Restarted;
        }
        if self.current == 0 {
            return PrevOutcome::AtStart;
        }
        self.current = self.current - 1;
        PrevOutcome::MovedBack
    }

    /// Called on every tick: when the current clip has finished, moves to the
    /// next clip unless at the last one; tells whether it moved.
    pub fn advance_if_finished(&mut self, finished: bool) -> (moved: bool)
        requires
            cursor_ok(old(self)@),
        ensures
            moved == (finished && old(self)@.0 + 1 < old(self)@.1),
            final(self)@ == if moved {
                (old(self)@.0 + 1, old(self)@.1)
            } else {
                old(self)@
            },
            cursor_ok(final(self)@),
    {
        if !finished {
            return false;
        }
        self.next()
    }

    /// Whether the queue is exhausted: the last clip has finished.
    pub fn is_exhausted(&self, finished: bool) -> (b: bool)
        requires
            cursor_ok(self@),
        ensures
            b == (finished && self@.0 + 1 >= self@.1),
    {
        finished && self.current >= self.total - 1
    }
}

} // verus!
