//! The record that the application keeps: the selected colour, the hue that
//! was last picked, and two settings of the window.

use vstd::prelude::*;
use crate::color::{hue_of, Color, Rgb};
use crate::hex::{parse_hex, rgb_of_bytes, ParseError};

verus! {

/// The palette of the window.
#[derive(Clone, Copy, Debug, PartialEq, Eq, Structural)]
pub enum Theme {
    Light,
    Dark,
}

impl Theme {
    /// The name of the icon on the button that changes the theme: the sun
    /// by day, the moon by night.
    pub fn icon(self) -> (res: &'static str)
        ensures
            res@ == match self {
                Theme::Light => "sun"@,
                Theme::Dark => "moon"@,
            },
    {
        match self {
            Theme::Light => "sun",
            Theme::Dark => "moon",
        }
    }

    /// The other theme.
    pub fn swap(self) -> (res: Theme)
        ensures
            res == match self {
                Theme::Light => Theme::Dark,
                Theme::Dark => Theme::Light,
            },
    {
        match self {
            Theme::Light => Theme::Dark,
            Theme::Dark => Theme::Light,
        }
    }
}

/// The notation in which the colour is shown and copied.
#[derive(Clone, Copy, Debug, PartialEq, Eq, Structural)]
pub enum Output {
    Css,
    Ori,
}

impl Output {
    /// The text on the button that selects this notation.
    pub fn label(self) -> (res: &'static str)
        ensures
            res@ == match self {
                Output::Css => "css"@,
                Output::Ori => "ori"@,
            },
    {
        match self {
            Output::Css => "css",
            Output::Ori => "ori",
        }
    }

    /// The other notation.
    pub open spec fn toggled(self) -> Output {
        match self {
            Output::Css => Output::Ori,
            Output::Ori => Output::Css,
        }
    }

    /// The other notation.
    pub fn toggle(self) -> (res: Output)
        ensures
            res == self.toggled(),
    {
        match self {
            Output::Css => Output::Ori,
            Output::Ori => Output::Css,
        }
    }
}

/// What the application holds. The colour is the one source of truth; the hue
/// is kept beside it because a grey has none of its own.
#[derive(Clone, Copy, Debug, PartialEq, Eq, Structural)]
pub struct Data {
    pub hue: u32,
    pub color: Color,
    pub theme: Theme,
    pub output: Output,
}

/// A key of the keyboard, as far as the window reacts to it.
#[derive(Clone, Copy, Debug, PartialEq, Eq, Structural)]
pub enum Key {
    Escape,
    Tab,
    Other,
}

impl Data {
    /// Replaces the colour from outside the pickers. The stored hue follows
    /// the colour, so that the pickers show it where it now lies; a grey has
    /// no hue and leaves the stored one as it is.
    pub fn set_color(&mut self, color: Color)
        ensures
            final(self).color == color,
            final(self).hue == if color@.chroma() == 0 {
                old(self).hue as int
            } else {
                hue_of(color@)
            },
            final(self).theme == old(self).theme,
            final(self).output == old(self).output,
    {
        if !color.is_grey() {
            let (h, _, _) = color.to_hsv();
            self.hue = h;
        }
        self.color = color;
    }

    /// Takes a colour written as `#rrggbb`. A text that is no colour is
    /// refused and changes nothing.
    pub fn paste(&mut self, text: &str) -> (res: Result<(), ParseError>)
        ensures
            match parse_hex(text@) {
                Some(bytes) => {
                    &&& res is Ok
                    &&& final(self).color@ == rgb_of_bytes(bytes)
                    &&& final(self).hue == if rgb_of_bytes(bytes).chroma() == 0 {
                        old(self).hue as int
                    } else {
                        hue_of(rgb_of_bytes(bytes))
                    }
                    &&& final(self).theme == old(self).theme
                    &&& final(self).output == old(self).output
                },
                None => res == Err::<(), ParseError>(ParseError::InvalidFormat) && *final(self) == *old(
                    self,
                ),
            },
    {
        match Color::from_hex(text) {
            Ok(color) => {
                self.set_color(color);
                Ok(())
            },
            Err(e) => Err(e),
        }
    }

    /// Handles a key press: the tab key changes the notation, and the escape
    /// key asks the window to close, which the result reports. No other key
    /// does anything.
    pub fn key_pressed(&mut self, key: Key) -> (quit: bool)
        ensures
            quit == (key is Escape),
            final(self).hue == old(self).hue,
            final(self).color == old(self).color,
            final(self).theme == old(self).theme,
            final(self).output == if key is Tab {
                old(self).output.toggled()
            } else {
                old(self).output
            },
    {
        match key {
            Key::Escape => true,
            Key::Tab => {
                self.output = self.output.toggle();
                false
            },
            Key::Other => false,
        }
    }
}

impl Default for Data {
    /// Black, hue 0, the dark theme and the CSS notation.
    fn default() -> (res: Data)
        ensures
            res.hue == 0,
            res.color@ == (Rgb { r: 0, g: 0, b: 0 }),
            res.theme == Theme::Dark,
            res.output == Output::Css,
    {
        Data { hue: 0, color: Color::black(), theme: Theme::Dark, output: Output::Css }
    }
}

} // verus!
