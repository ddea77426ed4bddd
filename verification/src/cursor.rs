//! The cursor shapes a program can ask for with DECSCUSR (`CSI Ps SP q`).
use vstd::prelude::*;

verus! {

/// A cursor shape.
#[derive(Debug, Clone, Copy, PartialEq, Eq)]
pub enum CursorStyle {
    Default,
    BlinkingBlock,
    SteadyBlock,
    BlinkingUnderline,
    SteadyUnderline,
    BlinkingBar,
    SteadyBar,
}

/// The shape that DECSCUSR parameter `ps` selects: 1–6 name the six shapes, and 0 or
/// anything unknown asks for the terminal's default.
pub open spec fn decscusr_style(ps: u16) -> CursorStyle {
    if ps == 1 {
        CursorStyle::BlinkingBlock
    } else if ps == 2 {
        CursorStyle::SteadyBlock
    } else if ps == 3 {
        CursorStyle::BlinkingUnderline
    } else if ps == 4 {
        CursorStyle::SteadyUnderline
    } else if ps == 5 {
        CursorStyle::BlinkingBar
    } else if ps == 6 {
        CursorStyle::SteadyBar
    } else {
        CursorStyle::Default
    }
}

impl CursorStyle {
    /// The shape selected by DECSCUSR parameter `ps`.
    pub fn from_decscusr(ps: u16) -> (r: CursorStyle)
        ensures
            r == decscusr_style(ps),
    {
        match ps {
            1 => CursorStyle::BlinkingBlock,
            2 => CursorStyle::SteadyBlock,
            3 => CursorStyle::BlinkingUnderline,
            4 => CursorStyle::SteadyUnderline,
            5 => CursorStyle::BlinkingBar,
            6 => CursorStyle::SteadyBar,
            _ => CursorStyle::Default,
        }
    }
}

impl Default for CursorStyle {
    fn default() -> (r: Self)
        ensures
            r == CursorStyle::Default,
    {
        CursorStyle::Default
    }
}

} // verus!
