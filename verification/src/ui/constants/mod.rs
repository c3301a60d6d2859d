//! The colour themes of the display, and the bounds of its random
//! sequences.

use vstd::prelude::*;

verus! {

/// A colour by its red, green and blue parts.
#[derive(Debug, Copy, Clone, PartialEq, Eq, Structural)]
pub struct Rgb {
    pub r: u8,
    pub g: u8,
    pub b: u8,
}

/// The colour themes of the display.
#[derive(Debug, Copy, Clone, PartialEq, Eq, Structural)]
pub enum Theme {
    Dark,
    Light,
    Summer,
    Autumn,
    Winter,
    Spring,
}

/// Black.
pub open spec fn black() -> Rgb {
    Rgb { r: 0, g: 0, b: 0 }
}

/// White.
pub open spec fn white() -> Rgb {
    Rgb { r: 255, g: 255, b: 255 }
}

/// Grey.
pub open spec fn gray() -> Rgb {
    Rgb { r: 160, g: 160, b: 160 }
}

/// Gold.
pub open spec fn gold() -> Rgb {
    Rgb { r: 255, g: 215, b: 0 }
}

/// Red.
pub open spec fn red() -> Rgb {
    Rgb { r: 255, g: 0, b: 0 }
}

/// Light yellow: the colour of a bar that was compared.
pub open spec fn light_yellow() -> Rgb {
    Rgb { r: 255, g: 255, b: 224 }
}

/// Light green: the colour of a bar that was moved.
pub open spec fn light_green() -> Rgb {
    Rgb { r: 144, g: 238, b: 144 }
}

/// The colour that the theme gives to a bar that is not highlighted.
pub open spec fn bar_color_of(theme: Theme) -> Rgb {
    match theme {
        Theme::Dark => gray(),
        Theme::Light => gold(),
        Theme::Winter => (Rgb { r: 0, g: 0, b: 139 }),
        Theme::Spring => (Rgb { r: 0, g: 100, b: 0 }),
        Theme::Summer => red(),
        Theme::Autumn => black(),
    }
}

impl Theme {
    /// The colour behind the bars: black and white for the dark and the
    /// light theme, and a colour of the season for the others.
    pub fn background_color(&self) -> (c: Rgb)
        ensures
            c == match *self {
                Theme::Dark => black(),
                Theme::Light => white(),
                Theme::Summer => (Rgb { r: 255, g: 165, b: 0 }),
                Theme::Autumn => (Rgb { r: 139, g: 69, b: 19 }),
                Theme::Winter => (Rgb { r: 173, g: 216, b: 230 }),
                Theme::Spring => (Rgb { r: 0, g: 209, b: 35 }),
            },
    {
        match self {
            Theme::Dark => Rgb { r: 0, g: 0, b: 0 },
            Theme::Light => Rgb { r: 255, g: 255, b: 255 },
            Theme::Summer => Rgb { r: 255, g: 165, b: 0 },
            Theme::Autumn => Rgb { r: 139, g: 69, b: 19 },
            Theme::Winter => Rgb { r: 173, g: 216, b: 230 },
            Theme::Spring => Rgb { r: 0, g: 209, b: 35 },
        }
    }

    /// The colour of text: white on the dark theme, black on all others.
    pub fn text_color(&self) -> (c: Rgb)
        ensures
            c == if *self == Theme::Dark {
                white()
            } else {
                black()
            },
    {
        match self {
            Theme::Dark => Rgb { r: 255, g: 255, b: 255 },
            Theme::Light => Rgb { r: 0, g: 0, b: 0 },
            _ => Rgb { r: 0, g: 0, b: 0 },
        }
    }

    /// The colour of a bar that is not highlighted.
    pub fn bar_color(&self) -> (c: Rgb)
        ensures
            c == bar_color_of(*self),
    {
        match self {
            Theme::Dark => Rgb { r: 160, g: 160, b: 160 },
            Theme::Light => Rgb { r: 255, g: 215, b: 0 },
            Theme::Winter => Rgb { r: 0, g: 0, b: 139 },
            Theme::Spring => Rgb { r: 0, g: 100, b: 0 },
            Theme::Summer => Rgb { r: 255, g: 0, b: 0 },
            Theme::Autumn => Rgb { r: 0, g: 0, b: 0 },
        }
    }
}

/// The least value of a random sequence.
pub const FLOOR: usize = 1;

/// The bound below which the values of a random sequence stay.
pub const CEIL: usize = 21;

/// The length of a random sequence.
pub const VECTOR_SIZE: usize = 100;

} // verus!
