//! Dragging files out of a list, and what dropping them somewhere does.

use vstd::prelude::*;

verus! {

/// How a drag goes on.
#[derive(Clone, Copy, Debug, PartialEq, Eq, Structural)]
pub enum DragStep {
    /// It is given up.
    Cancel,
    /// What is dragged is dropped.
    Drop,
    /// It goes on.
    Continue,
}

/// How a drag goes on: the escape key gives it up, and it ends where the left button is let go.
pub fn query_continue_drag(escape: bool, left_button: bool) -> (step: DragStep)
    ensures
        step == (if escape {
            DragStep::Cancel
        } else if !left_button {
            DragStep::Drop
        } else {
            DragStep::Continue
        }),
{
    if escape {
        DragStep::Cancel
    } else if !left_button {
        DragStep::Drop
    } else {
        DragStep::Continue
    }
}

/// What is done with what is dropped.
#[derive(Clone, Copy, Debug, PartialEq, Eq, Structural)]
pub enum DropEffect {
    NoEffect,
    Copy,
    Move,
    Link,
}

/// Whether a drag is begun: there is something to drag, and the shell knows some of it.
pub fn can_begin_drag(paths: usize, known: usize) -> (yes: bool)
    ensures
        yes == (paths > 0 && known > 0),
{
    paths > 0 && known > 0
}

/// What a drag came to; nothing where it was not dropped, was dropped without effect, or failed.
pub fn drag_result(failed: bool, dropped: bool, effect: DropEffect) -> (result: Option<DropEffect>)
    ensures
        result == (if failed || !dropped || effect == DropEffect::NoEffect {
            None
        } else {
            Some(effect)
        }),
{
    if failed || !dropped || effect == DropEffect::NoEffect {
        None
    } else {
        Some(effect)
    }
}

} // verus!
