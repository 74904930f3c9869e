use vstd::prelude::*;

verus! {

/// The Dracula palette, as `0xRRGGBBAA`.
pub struct Dracula;

impl Dracula {
    pub const BG: u32 = 0x282a36ff;
    pub const CURRENT_LINE: u32 = 0x44475aff;
    pub const SELECTION: u32 = 0x44475aff;
    pub const FG: u32 = 0xf8f8f2ff;
    pub const COMMENT: u32 = 0x6272a4ff;
    pub const CYAN: u32 = 0x8be9fdff;
    pub const GREEN: u32 = 0x50fa7bff;
    pub const ORANGE: u32 = 0xffb86cff;
    pub const PINK: u32 = 0xff79c6ff;
    pub const PURPLE: u32 = 0xbd93f9ff;
    pub const RED: u32 = 0xff5555ff;
    pub const YELLOW: u32 = 0xf1fa8cff;
}

} // verus!
