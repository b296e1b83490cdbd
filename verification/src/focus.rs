//! Tab navigation under a focus trap: focus moves through the tab order until it
//! lands inside the trap, and goes back where it was if it cannot.
use vstd::prelude::*;

verus! {

/// How many further moves the traversal makes at most after the first.
pub const MAX_EXTRA_MOVES: u32 = 100;

/// What the window does next.
#[derive(Clone, Copy, Debug, PartialEq, Eq, Structural)]
pub enum FocusStep {
    /// Move focus to the next (or previous) element of the tab order.
    Advance,
    /// Leave focus where it is.
    Stop,
    /// Give focus back to the element that had it before.
    Restore,
}

/// A tab or shift-tab in progress.
pub struct FocusTraversal {
    /// A focus trap is active.
    pub trapped: bool,
    /// Some element had focus before the move.
    pub had_focus: bool,
    /// Moves made after the first one.
    pub moves: u32,
}

/// What follows once focus has moved, given whether it is inside the trap and
/// whether it is back on the element that had it before.
pub open spec fn step_spec(t: FocusTraversal, inside_trap: bool, at_previous: bool) -> FocusStep {
    if !t.trapped {
        FocusStep::Stop
    } else if t.moves < MAX_EXTRA_MOVES {
        if inside_trap {
            FocusStep::Stop
        } else if at_previous {
            if t.had_focus {
                FocusStep::Restore
            } else {
                FocusStep::Stop
            }
        } else {
            FocusStep::Advance
        }
    } else if inside_trap {
        FocusStep::Stop
    } else if t.had_focus {
        FocusStep::Restore
    } else {
        FocusStep::Stop
    }
}

impl FocusTraversal {
    /// Starts a move; focus always advances once first.
    pub fn start(trapped: bool, had_focus: bool) -> (r: (FocusTraversal, FocusStep))
        ensures
            r.0.trapped == trapped,
            r.0.had_focus == had_focus,
            r.0.moves == 0,
            r.1 == FocusStep::Advance,
    {
        (FocusTraversal { trapped, had_focus, moves: 0 }, FocusStep::Advance)
    }

    /// Decides what follows a move.
    pub fn step(&mut self, inside_trap: bool, at_previous: bool) -> (r: FocusStep)
        requires
            old(self).moves <= MAX_EXTRA_MOVES,
        ensures
            r == step_spec(*old(self), inside_trap, at_previous),
            final(self).trapped == old(self).trapped,
            final(self).had_focus == old(self).had_focus,
            final(self).moves == if r == FocusStep::Advance {
                old(self).moves + 1
            } else {
                old(self).moves as int
            },
            final(self).moves <= MAX_EXTRA_MOVES,
    {
        let r = if !self.trapped {
            FocusStep::Stop
        } else if self.moves < MAX_EXTRA_MOVES {
            if inside_trap {
                FocusStep::Stop
            } else if at_previous {
                if self.had_focus {
                    FocusStep::Restore
                } else {
                    FocusStep::Stop
                }
            } else {
                FocusStep::Advance
            }
        } else if inside_trap {
            FocusStep::Stop
        } else if self.had_focus {
            FocusStep::Restore
        } else {
            FocusStep::Stop
        };
        if r == FocusStep::Advance {
            self.moves = self.moves + 1;
        }
        r
    }
}

/// A traversal ends: it moves focus at most `MAX_EXTRA_MOVES` times after the
/// first move, then stops or restores focus.
pub proof fn lemma_traversal_is_bounded(t: FocusTraversal, inside_trap: bool, at_previous: bool)
    requires
        t.moves == MAX_EXTRA_MOVES,
    ensures
        step_spec(t, inside_trap, at_previous) != FocusStep::Advance,
{
}

/// Focus is given back only when it did not land inside the trap, and stays
/// where it landed whenever that is inside the trap.
pub proof fn lemma_trap_keeps_focus_inside(t: FocusTraversal, inside_trap: bool, at_previous: bool)
    ensures
        step_spec(t, inside_trap, at_previous) == FocusStep::Restore ==> t.trapped && !inside_trap && t.had_focus,
        t.trapped && inside_trap ==> step_spec(t, inside_trap, at_previous) == FocusStep::Stop,
{
}

} // verus!
