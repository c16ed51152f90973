use vstd::prelude::*;

verus! {

/// A terminal color, as `ratatui` names them.
#[derive(Clone, Copy, Debug, PartialEq, Eq, Structural)]
pub enum TermColor {
    Reset,
    Black,
    Red,
    Green,
    Yellow,
    Blue,
    Magenta,
    Cyan,
    Gray,
    DarkGray,
    LightRed,
    LightGreen,
    LightYellow,
    LightBlue,
    LightMagenta,
    LightCyan,
    White,
    Rgb(u8, u8, u8),
    Indexed(u8),
}

/// A text style, as `ratatui` holds it: colors that are set, and the bits of
/// the modifiers (bold, italic, ...) that are added and removed.
#[derive(Clone, Copy, Debug, PartialEq, Eq, Structural)]
pub struct TextStyle {
    pub fg: Option<TermColor>,
    pub bg: Option<TermColor>,
    pub underline_color: Option<TermColor>,
    pub add_modifier: u16,
    pub sub_modifier: u16,
}

} // verus!
