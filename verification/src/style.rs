//! Visual style of terminal cells, independent of any emulator: colors and
//! the attributes that segmentation groups cells by.

use vstd::prelude::*;

verus! {

/// Terminal color: the default, a 256-color palette index, or 24-bit RGB.
#[derive(Debug, Clone, Copy, PartialEq, Eq, Hash, Structural)]
pub enum Color {
    /// Terminal default color.
    Default,
    /// 256-color palette index.
    Indexed { index: u8 },
    /// 24-bit RGB color.
    Rgb { r: u8, g: u8, b: u8 },
}

impl Default for Color {
    fn default() -> (r: Self)
        ensures
            r == Color::Default,
    {
        Color::Default
    }
}

impl Color {
    /// An indexed color.
    pub fn indexed(index: u8) -> (r: Self)
        ensures
            r == (Color::Indexed { index }),
    {
        Color::Indexed { index }
    }

    /// An RGB color.
    pub fn rgb(r: u8, g: u8, b: u8) -> (c: Self)
        ensures
            c == (Color::Rgb { r, g, b }),
    {
        Color::Rgb { r, g, b }
    }
}

/// Visual style attributes of one terminal cell. Adjacent cells with
/// identical styles are grouped into clusters.
#[derive(Debug, Clone, Copy, PartialEq, Eq, Hash, Structural)]
pub struct CellStyle {
    /// Bold text.
    pub bold: bool,
    /// Underlined text.
    pub underline: bool,
    /// Inverse video (swapped foreground and background).
    pub inverse: bool,
    /// Foreground color.
    pub fg_color: Color,
    /// Background color.
    pub bg_color: Color,
}

/// The style of an unstyled cell.
pub open spec fn spec_default_style() -> CellStyle {
    CellStyle {
        bold: false,
        underline: false,
        inverse: false,
        fg_color: Color::Default,
        bg_color: Color::Default,
    }
}

impl Default for CellStyle {
    fn default() -> (r: Self)
        ensures
            r == spec_default_style(),
    {
        CellStyle {
            bold: false,
            underline: false,
            inverse: false,
            fg_color: Color::Default,
            bg_color: Color::Default,
        }
    }
}

impl CellStyle {
    /// The style with every attribute off and default colors.
    pub fn new() -> (r: Self)
        ensures
            r == spec_default_style(),
    {
        CellStyle {
            bold: false,
            underline: false,
            inverse: false,
            fg_color: Color::Default,
            bg_color: Color::Default,
        }
    }

    /// The same style with `bold` replaced.
    pub fn with_bold(self, bold: bool) -> (r: Self)
        ensures
            r == (CellStyle { bold, ..self }),
    {
        CellStyle { bold, ..self }
    }

    /// The same style with `underline` replaced.
    pub fn with_underline(self, underline: bool) -> (r: Self)
        ensures
            r == (CellStyle { underline, ..self }),
    {
        CellStyle { underline, ..self }
    }

    /// The same style with `inverse` replaced.
    pub fn with_inverse(self, inverse: bool) -> (r: Self)
        ensures
            r == (CellStyle { inverse, ..self }),
    {
        CellStyle { inverse, ..self }
    }

    /// The same style with the foreground color replaced.
    pub fn with_fg(self, color: Color) -> (r: Self)
        ensures
            r == (CellStyle { fg_color: color, ..self }),
    {
        CellStyle { fg_color: color, ..self }
    }

    /// The same style with the background color replaced.
    pub fn with_bg(self, color: Color) -> (r: Self)
        ensures
            r == (CellStyle { bg_color: color, ..self }),
    {
        CellStyle { bg_color: color, ..self }
    }

    /// Whether this style uses inverse video, the usual signal for a
    /// selected menu item or focused button.
    pub fn is_inverse(&self) -> (r: bool)
        ensures
            r == self.inverse,
    {
        self.inverse
    }
}

} // verus!
