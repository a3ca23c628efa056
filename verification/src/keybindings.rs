//! A key binding: a key with the modifier keys that must be held with it.
use vstd::prelude::*;

use crate::keys::KeyCode;

verus! {

/// No modifier key held.
pub const NO_MODIFIERS: u8 = 0;

/// The Shift bit of a modifier set.
pub const SHIFT: u8 = 1;

/// The Control bit of a modifier set.
pub const CONTROL: u8 = 2;

/// The Alt bit of a modifier set.
pub const ALT: u8 = 4;

/// A key and the exact set of modifier keys (a bit set of `SHIFT`,
/// `CONTROL`, `ALT`, ...) that trigger an action.
#[derive(Debug, Clone, Copy, PartialEq, Eq, Structural)]
pub struct KeyBinding {
    pub code: KeyCode,
    pub modifiers: u8,
}

impl KeyBinding {
    /// Whether a key press is this binding: the same key with exactly the
    /// same modifiers.
    pub fn matches(&self, code: KeyCode, modifiers: u8) -> (r: bool)
        ensures
            r == (self.code == code && self.modifiers == modifiers),
    {
        self.code == code && self.modifiers == modifiers
    }
}

/// The binding that quits: Ctrl+Q.
pub fn quit_binding() -> (b: KeyBinding)
    ensures
        b.code == KeyCode::Char('q'),
        b.modifiers == CONTROL,
{
    KeyBinding { code: KeyCode::Char('q'), modifiers: CONTROL }
}

} // verus!
