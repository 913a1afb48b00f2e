//! Key events, as the terminal layer hands them over.

use vstd::prelude::*;

verus! {

/// One key event.
#[derive(Debug, Clone, Copy, PartialEq, Eq, Structural)]
pub enum Input {
    /// A character key.
    Char(char),
    /// A character key pressed together with Control.
    Ctrl(char),
    /// A digit key, as the number that it stands for.
    Num(u32),
    /// Any other key.
    Other,
}

} // verus!
