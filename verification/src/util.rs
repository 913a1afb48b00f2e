//! The size of the screen, in character cells.

use vstd::prelude::*;

verus! {

/// The width and height of the terminal at the time of a call.
#[derive(Debug, Clone, Copy, PartialEq, Eq, Structural)]
pub struct ScreenGeometry {
    pub width: u32,
    pub height: u32,
}

/// The most bytes that one code point takes in UTF-8.
pub const MAX_CHAR_BYTES: usize = 4;

impl ScreenGeometry {
    /// The number of bytes that surely cover one screen of wrapped text:
    /// four for each cell.
    pub open spec fn page_bytes(self) -> nat {
        (self.width as nat) * (self.height as nat) * 4
    }

    /// Half the height of the screen, rounded down.
    pub fn screen_height_half(&self) -> (half: u32)
        ensures
            half == self.height / 2,
    {
        self.height / 2
    }

    /// The number of bytes of one page, as far as a `usize` can hold it.
    pub fn page_size(&self) -> (size: usize)
        ensures
            size == if self.page_bytes() <= usize::MAX {
                self.page_bytes()
            } else {
                usize::MAX as nat
            },
    {
        assert(self.width * self.height <= 0xFFFF_FFFF * 0xFFFF_FFFF) by (nonlinear_arith)
            requires
                0 <= self.width <= 0xFFFF_FFFF,
                0 <= self.height <= 0xFFFF_FFFF,
        ;
        let cells: u64 = (self.width as u64) * (self.height as u64);
        let wide: u128 = (cells as u128) * (MAX_CHAR_BYTES as u128);
        if wide <= usize::MAX as u128 {
            wide as usize
        } else {
            usize::MAX
        }
    }
}

} // verus!
