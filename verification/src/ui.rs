//! What a key binding can ask of the window.

use vstd::prelude::*;

verus! {

/// The functions of the window that a key can be bound to.
#[derive(Hash, Debug, Clone, Copy, PartialEq, Eq, Structural)]
pub enum UIFunction {
    Exit,
    ItemDown,
    ItemUp,
    ItemLeft,
    ItemRight,
    ArgNext,
    ArgPrev,
    Exec,
    ExecInplace,
    MultiSelect,
    ToggleContext,
    CloseContext,
    ClearBar,
    Backspace,
    ErrorPage,
    Shortcut,
}

/// The position of the cursor after a step down a list of `count` items:
/// one further, unless it is at the end.
pub open spec fn stepped_down(selected: usize, count: usize) -> usize {
    if count > 0 && selected < count - 1 {
        (selected + 1) as usize
    } else {
        selected
    }
}

/// The position of the cursor after a step up: one back, unless it is at
/// the start.
pub open spec fn stepped_up(selected: usize) -> usize {
    if selected > 0 {
        (selected - 1) as usize
    } else {
        selected
    }
}

/// Moves the cursor one item down a list of `count` items.
pub fn focus_next(selected: usize, count: usize) -> (next: usize)
    ensures
        next == stepped_down(selected, count),
        selected < count ==> next < count,
{
    if count > 0 && selected < count - 1 {
        selected + 1
    } else {
        selected
    }
}

/// Moves the cursor one item up.
pub fn focus_prev(selected: usize) -> (prev: usize)
    ensures
        prev == stepped_up(selected),
        prev <= selected,
{
    if selected > 0 {
        selected - 1
    } else {
        selected
    }
}

/// The input that has the focus after a step to the next: one further,
/// unless it is the last. Input 0 is the search bar, the inputs for the
/// variables follow.
pub open spec fn next_input(active_bar: usize, variable_inputs: usize) -> usize {
    if active_bar < variable_inputs {
        (active_bar + 1) as usize
    } else {
        active_bar
    }
}

/// Moves the focus to the next input.
pub fn next_var(active_bar: usize, variable_inputs: usize) -> (next: usize)
    ensures
        next == next_input(active_bar, variable_inputs),
        active_bar <= variable_inputs ==> next <= variable_inputs,
{
    if active_bar < variable_inputs {
        active_bar + 1
    } else {
        active_bar
    }
}

/// Moves the focus to the input before.
pub fn prev_var(active_bar: usize) -> (prev: usize)
    ensures
        prev == stepped_up(active_bar),
{
    focus_prev(active_bar)
}

} // verus!
