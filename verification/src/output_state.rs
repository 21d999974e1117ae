//! Whether the last thing written to standard output left the line open, so that a
//! message written next knows to start a new line first.
use vstd::prelude::*;

verus! {

/// The state of the output: whether a `print` left the current line unfinished.
#[derive(Debug)]
pub struct OutputState {
    newline_needed: bool,
}

impl View for OutputState {
    type V = bool;

    /// Whether a newline is owed.
    closed spec fn view(&self) -> bool {
        self.newline_needed
    }
}

impl OutputState {
    /// A fresh output: nothing written, no newline owed.
    pub fn new() -> (r: Self)
        ensures
            r@ == false,
    {
        OutputState { newline_needed: false }
    }
}

/// Records a `print`: the line is left open.
pub fn used_print(state: &mut OutputState)
    ensures
        final(state)@ == true,
{
    state.newline_needed = true;
}

/// Records a `println`: the line is closed.
pub fn used_println(state: &mut OutputState)
    ensures
        final(state)@ == false,
{
    state.newline_needed = false;
}

/// Whether a newline is owed; the debt is cleared by asking.
pub fn take_newline_needed(state: &mut OutputState) -> (r: bool)
    ensures
        r == old(state)@,
        final(state)@ == false,
{
    let r = state.newline_needed;
    state.newline_needed = false;
    r
}

} // verus!
