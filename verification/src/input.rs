//! What the player can ask for, after keys and mouse have been decoded.

use crate::utils::Vec2;
use vstd::prelude::*;

verus! {

#[derive(Debug, Copy, Clone, PartialEq, Eq, Structural)]
pub enum MouseButton {
    Left,
    Right,
    Unknown,
}

#[derive(Debug, Copy, Clone, PartialEq, Eq, Structural)]
pub enum MouseEvent {
    Press(MouseButton),
    Release(MouseButton),
    Hold(MouseButton),
    WheelUp,
    WheelDown,
}

#[derive(Debug, Copy, Clone, PartialEq, Eq, Structural)]
pub enum Input {
    Left,
    Right,
    Up,
    Down,
    Key(char),
    Mouse { offset: Vec2<usize>, position: Vec2<usize>, event: MouseEvent },
    Unknown,
}

} // verus!
