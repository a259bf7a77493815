//! Key codes the screens react to.
use vstd::prelude::*;

verus! {

/// The code `getch` returns when no key was pressed.
pub const NO_KEY: i32 = -1;
/// Tab.
pub const TAB: i32 = 9;
/// Line feed, which the Enter key sends on most terminals.
pub const NEWLINE: i32 = 10;
/// Escape.
pub const ESCAPE: i32 = 27;
/// Space.
pub const SPACE: i32 = 32;
/// Lower-case `q`.
pub const QUIT: i32 = 113;
/// Lower-case `y`.
pub const YES: i32 = 121;

/// The codes the terminal library assigns to its special keys.
#[derive(Debug, Clone, Copy, PartialEq, Eq, Structural)]
pub struct KeyCodes {
    pub up: i32,
    pub down: i32,
    pub left: i32,
    pub right: i32,
    pub enter: i32,
    pub backspace: i32,
}

impl KeyCodes {
    /// The special keys have distinct codes beyond the range of single bytes,
    /// as the terminal library assigns them.
    pub open spec fn well_formed(self) -> bool {
        &&& self.up >= 256 && self.down >= 256 && self.left >= 256
        &&& self.right >= 256 && self.enter >= 256 && self.backspace >= 256
        &&& self.up != self.down && self.up != self.left && self.up != self.right
        &&& self.up != self.enter && self.up != self.backspace
        &&& self.down != self.left && self.down != self.right
        &&& self.down != self.enter && self.down != self.backspace
        &&& self.left != self.right && self.left != self.enter && self.left != self.backspace
        &&& self.right != self.enter && self.right != self.backspace
        &&& self.enter != self.backspace
    }
}

} // verus!
