//! Colours and styles for drawing the editor.

use vstd::prelude::*;

verus! {

/// A terminal colour.
#[derive(Clone, Copy, Debug, PartialEq, Eq, Structural)]
pub enum Color {
    Reset,
    Black,
    Red,
    Green,
    Yellow,
    Blue,
    White,
    // A true RGB colour (not one of the basic terminal eight), for tones
    // such as the grey background or the salmon of the help bar.
    Rgb(u8, u8, u8),
}

/// Foreground, background and weight of drawn text.
#[derive(Clone, Copy, Debug)]
pub struct Style {
    pub fg: Color,
    pub bg: Color,
    pub bold: bool,
}

impl Style {
    /// The terminal's own colours, not bold.
    pub fn default() -> (res: Self)
        ensures
            res == (Style { fg: Color::Reset, bg: Color::Reset, bold: false }),
    {
        Style { fg: Color::Reset, bg: Color::Reset, bold: false }
    }
}

/// The styles of each part of the screen.
pub struct Theme {
    pub normal: Style,
    pub cursor: Style,
    pub status_bar: Style,
    pub help_bar: Style,
}

/// The editor's default theme.
pub open spec fn default_theme() -> Theme {
    Theme {
        normal: Style { fg: Color::Rgb(220, 220, 215), bg: Color::Rgb(38, 38, 36), bold: false },
        cursor: Style { fg: Color::Black, bg: Color::White, bold: false },
        status_bar: Style { fg: Color::White, bg: Color::Blue, bold: true },
        help_bar: Style { fg: Color::Rgb(250, 128, 114), bg: Color::Rgb(70, 70, 68), bold: true },
    }
}

impl Theme {
    /// Light text on a dark grey editing area, a bold white-on-blue status
    /// bar, and salmon text on ash grey for the key hints.
    pub fn default() -> (res: Self)
        ensures
            res == default_theme(),
    {
        Theme {
            normal: Style { fg: Color::Rgb(220, 220, 215), bg: Color::Rgb(38, 38, 36), bold: false },
            cursor: Style { fg: Color::Black, bg: Color::White, bold: false },
            status_bar: Style { fg: Color::White, bg: Color::Blue, bold: true },
            help_bar: Style { fg: Color::Rgb(250, 128, 114), bg: Color::Rgb(70, 70, 68), bold: true },
        }
    }
}

} // verus!
