//! Colours.

use vstd::prelude::*;

verus! {

/// A colour by its red, green and blue parts.
#[derive(Clone, Copy, Debug, PartialEq, Eq, Structural)]
pub struct Rgb {
    pub r: u8,
    pub g: u8,
    pub b: u8,
}

/// The colour made of three parts.
pub open spec fn rgb_of(r: u8, g: u8, b: u8) -> Rgb {
    Rgb { r, g, b }
}

/// The colours of the window, by what they are used for.
#[derive(Clone, Copy, Debug, PartialEq, Eq, Structural)]
pub enum Color {
    /// Toolbar and status bar.
    Bg0,
    /// Central panel.
    Bg1,
    /// Card background.
    Bg2,
    Border,
    Text,
    Dim,
    Info,
    Good,
    Warn,
    Bad,
    Accent,
}

impl Color {
    /// The parts of each colour.
    pub open spec fn parts(self) -> Rgb {
        match self {
            Color::Bg0 => rgb_of(240, 240, 240),
            Color::Bg1 => rgb_of(243, 243, 243),
            Color::Bg2 => rgb_of(255, 255, 255),
            Color::Border => rgb_of(200, 200, 200),
            Color::Text => rgb_of(32, 32, 32),
            Color::Dim => rgb_of(110, 110, 110),
            Color::Info => rgb_of(0, 102, 204),
            Color::Good => rgb_of(16, 124, 16),
            Color::Warn => rgb_of(202, 80, 16),
            Color::Bad => rgb_of(196, 43, 28),
            Color::Accent => rgb_of(0, 102, 204),
        }
    }

    /// The red, green and blue parts of the colour.
    pub fn rgb(self) -> (c: Rgb)
        ensures
            c == self.parts(),
    {
        match self {
            Color::Bg0 => Rgb { r: 240, g: 240, b: 240 },
            Color::Bg1 => Rgb { r: 243, g: 243, b: 243 },
            Color::Bg2 => Rgb { r: 255, g: 255, b: 255 },
            Color::Border => Rgb { r: 200, g: 200, b: 200 },
            Color::Text => Rgb { r: 32, g: 32, b: 32 },
            Color::Dim => Rgb { r: 110, g: 110, b: 110 },
            Color::Info => Rgb { r: 0, g: 102, b: 204 },
            Color::Good => Rgb { r: 16, g: 124, b: 16 },
            Color::Warn => Rgb { r: 202, g: 80, b: 16 },
            Color::Bad => Rgb { r: 196, g: 43, b: 28 },
            Color::Accent => Rgb { r: 0, g: 102, b: 204 },
        }
    }
}

/// The chart colours: red, blue, green, amber, purple, cyan, orange, magenta,
/// olive green, slate blue.
pub open spec fn chart_palette() -> Seq<Rgb> {
    seq![
        rgb_of(220, 50, 50),
        rgb_of(30, 130, 210),
        rgb_of(40, 170, 80),
        rgb_of(210, 140, 0),
        rgb_of(150, 60, 200),
        rgb_of(0, 180, 180),
        rgb_of(230, 100, 0),
        rgb_of(180, 30, 120),
        rgb_of(80, 160, 80),
        rgb_of(100, 100, 210),
    ]
}

/// The chart colour of a palette slot; the palette repeats.
pub fn host_color(color_idx: usize) -> (c: Rgb)
    ensures
        c == chart_palette()[color_idx as int % 10],
{
    let palette: [Rgb; 10] = [
        Rgb { r: 220, g: 50, b: 50 },
        Rgb { r: 30, g: 130, b: 210 },
        Rgb { r: 40, g: 170, b: 80 },
        Rgb { r: 210, g: 140, b: 0 },
        Rgb { r: 150, g: 60, b: 200 },
        Rgb { r: 0, g: 180, b: 180 },
        Rgb { r: 230, g: 100, b: 0 },
        Rgb { r: 180, g: 30, b: 120 },
        Rgb { r: 80, g: 160, b: 80 },
        Rgb { r: 100, g: 100, b: 210 },
    ];
    palette[color_idx % 10]
}

/// Hosts in different slots are drawn in different colours, as long as no slot
/// lies beyond the palette.
pub proof fn law_chart_colours_distinct(i: int, j: int)
    requires
        0 <= i < 10,
        0 <= j < 10,
        i != j,
    ensures
        chart_palette()[i] != chart_palette()[j],
{
}

} // verus!
