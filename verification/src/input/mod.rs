//! Single-line text input: text offsets and the editing state machine.
use vstd::prelude::*;

pub mod editing;
pub mod laws;
pub mod state;
pub mod text;

verus! {

/// What an input reports to its observers.
#[derive(Clone, Copy, Debug, PartialEq, Eq, Structural)]
pub enum InputEvent {
    Change,
    PressEnter { secondary: bool, shift: bool },
    Focus,
    Blur,
}

/// What kind of content an input holds; password contents are never copied and
/// keep no edit history.
#[derive(Clone, Copy, Debug, PartialEq, Eq, Structural)]
pub enum InputContentType {
    Text,
    Password,
    NewPassword,
}

} // verus!
