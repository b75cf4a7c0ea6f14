//! The abstract commands that the engine reacts to.

use crate::model::{Screen, State};
use vstd::prelude::*;

verus! {

/// Up or down a list.
#[derive(Clone, Copy, Debug, PartialEq, Eq, Structural)]
pub enum Vertical {
    Up,
    Down,
}

/// Towards the left or the right pane.
#[derive(Clone, Copy, Debug, PartialEq, Eq, Structural)]
pub enum Horizontal {
    Left,
    Right,
}

/// A direction of movement.
#[derive(Clone, Copy, Debug, PartialEq, Eq, Structural)]
pub enum Dirs {
    Vert(Vertical),
    Horiz(Horizontal),
}

/// Entering or leaving a search.
#[derive(Clone, Copy, Debug, PartialEq, Eq, Structural)]
pub enum SearchMsg {
    Start,
    End,
}

/// A playback mode that can be switched on and off.
#[derive(Clone, Copy, Debug, PartialEq, Eq, Structural)]
pub enum Toggle {
    Repeat,
    Single,
    Consume,
    Random,
}

/// One command, as the keybinding layer hands it over.
#[derive(Clone, Copy, Debug, PartialEq, Eq, Structural)]
pub enum Message {
    Direction(Dirs),
    PlayPause,
    Select,
    SwitchState(State),
    SwitchScreen(Screen),
    ToggleScreen,
    Fold,
    Clear,
    LocalSearch(SearchMsg),
    GlobalSearch(SearchMsg),
    Escape,
    Delete,
    Toggle(Toggle),
}

} // verus!
