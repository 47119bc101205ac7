//! Terminal colors and the Catppuccin Mocha palette they resolve to.

use vstd::prelude::*;

verus! {

/// The named colors of the terminal's ANSI palette.
#[derive(Debug, Clone, Copy, PartialEq, Eq, Structural)]
pub enum NamedColor {
    Black,
    Red,
    Green,
    Yellow,
    Blue,
    Magenta,
    Cyan,
    White,
    BrightBlack,
    BrightRed,
    BrightGreen,
    BrightYellow,
    BrightBlue,
    BrightMagenta,
    BrightCyan,
    BrightWhite,
    Foreground,
    Background,
    Cursor,
    DimBlack,
    DimRed,
    DimGreen,
    DimYellow,
    DimBlue,
    DimMagenta,
    DimCyan,
    DimWhite,
    BrightForeground,
    DimForeground,
}

/// A color given as red, green and blue components.
#[derive(Debug, Clone, Copy, PartialEq, Eq, Structural)]
pub struct Rgb {
    pub r: u8,
    pub g: u8,
    pub b: u8,
}

/// A terminal color: an explicit RGB value, a named palette color, or an
/// index into the 256-color table.
#[derive(Debug, Clone, Copy, PartialEq, Eq, Structural)]
pub enum Color {
    Named(NamedColor),
    Spec(Rgb),
    Indexed(u8),
}

// ---------------------------------------------------------------------------
// The palette, as mathematics
// ---------------------------------------------------------------------------

/// The Catppuccin Mocha value of each named color.
pub open spec fn palette(named: NamedColor) -> (u8, u8, u8) {
    match named {
        NamedColor::Black => (0x45, 0x47, 0x5a),
        NamedColor::Red => (0xf3, 0x8b, 0xa8),
        NamedColor::Green => (0xa6, 0xe3, 0xa1),
        NamedColor::Yellow => (0xf9, 0xe2, 0xaf),
        NamedColor::Blue => (0x89, 0xb4, 0xfa),
        NamedColor::Magenta => (0xf5, 0xc2, 0xe7),
        NamedColor::Cyan => (0x94, 0xe2, 0xd5),
        NamedColor::White => (0xba, 0xc2, 0xde),
        NamedColor::BrightBlack => (0x58, 0x5b, 0x70),
        NamedColor::BrightRed => (0xf3, 0x8b, 0xa8),
        NamedColor::BrightGreen => (0xa6, 0xe3, 0xa1),
        NamedColor::BrightYellow => (0xf9, 0xe2, 0xaf),
        NamedColor::BrightBlue => (0x89, 0xb4, 0xfa),
        NamedColor::BrightMagenta => (0xf5, 0xc2, 0xe7),
        NamedColor::BrightCyan => (0x94, 0xe2, 0xd5),
        NamedColor::BrightWhite => (0xa6, 0xad, 0xc8),
        NamedColor::Foreground | NamedColor::BrightForeground => (0xcd, 0xd6, 0xf4),
        NamedColor::Background => (0x1e, 0x1e, 0x2e),
        NamedColor::Cursor => (0xf5, 0xe0, 0xdc),
        NamedColor::DimBlack => (0x45, 0x47, 0x5a),
        NamedColor::DimRed => (0xc0, 0x6f, 0x86),
        NamedColor::DimGreen => (0x85, 0xb6, 0x81),
        NamedColor::DimYellow => (0xc7, 0xb5, 0x8c),
        NamedColor::DimBlue => (0x6e, 0x90, 0xc8),
        NamedColor::DimMagenta => (0xc4, 0x9b, 0xb9),
        NamedColor::DimCyan => (0x76, 0xb5, 0xaa),
        NamedColor::DimWhite => (0x95, 0x9b, 0xb2),
        NamedColor::DimForeground => (0xa4, 0xab, 0xc3),
    }
}

/// The named color at each of the first sixteen indices.
pub open spec fn ansi_named(idx: u8) -> NamedColor
    recommends
        idx < 16,
{
    if idx == 0 {
        NamedColor::Black
    } else if idx == 1 {
        NamedColor::Red
    } else if idx == 2 {
        NamedColor::Green
    } else if idx == 3 {
        NamedColor::Yellow
    } else if idx == 4 {
        NamedColor::Blue
    } else if idx == 5 {
        NamedColor::Magenta
    } else if idx == 6 {
        NamedColor::Cyan
    } else if idx == 7 {
        NamedColor::White
    } else if idx == 8 {
        NamedColor::BrightBlack
    } else if idx == 9 {
        NamedColor::BrightRed
    } else if idx == 10 {
        NamedColor::BrightGreen
    } else if idx == 11 {
        NamedColor::BrightYellow
    } else if idx == 12 {
        NamedColor::BrightBlue
    } else if idx == 13 {
        NamedColor::BrightMagenta
    } else if idx == 14 {
        NamedColor::BrightCyan
    } else {
        NamedColor::BrightWhite
    }
}

/// One component of the 6x6x6 color cube: 0, then 95 to 255 in steps of 40.
pub open spec fn cube_level(i: int) -> u8 {
    if i == 0 {
        0
    } else {
        (55 + 40 * i) as u8
    }
}

/// The value of each entry of the 256-color table.
pub open spec fn indexed_rgb(idx: u8) -> (u8, u8, u8) {
    if idx < 16 {
        palette(ansi_named(idx))
    } else if idx <= 231 {
        let i = idx - 16;
        (cube_level(i / 36), cube_level((i % 36) / 6), cube_level(i % 6))
    } else {
        let v = (8 + 10 * (idx - 232)) as u8;
        (v, v, v)
    }
}

/// The value of a terminal color.
pub open spec fn color_rgb(color: Color) -> (u8, u8, u8) {
    match color {
        Color::Spec(rgb) => (rgb.r, rgb.g, rgb.b),
        Color::Named(named) => palette(named),
        Color::Indexed(idx) => indexed_rgb(idx),
    }
}

/// A background that is left to the window's own clear color.
pub open spec fn default_bg(color: Color) -> bool {
    match color {
        Color::Named(NamedColor::Background) => true,
        Color::Spec(rgb) => rgb.r == 0x1e && rgb.g == 0x1e && rgb.b == 0x2e,
        _ => false,
    }
}

// ---------------------------------------------------------------------------
// Resolving colors
// ---------------------------------------------------------------------------

pub fn named_color_to_rgb(named: &NamedColor) -> (c: (u8, u8, u8))
    ensures
        c == palette(*named),
{
    match named {
        NamedColor::Black => (0x45, 0x47, 0x5a),
        NamedColor::Red => (0xf3, 0x8b, 0xa8),
        NamedColor::Green => (0xa6, 0xe3, 0xa1),
        NamedColor::Yellow => (0xf9, 0xe2, 0xaf),
        NamedColor::Blue => (0x89, 0xb4, 0xfa),
        NamedColor::Magenta => (0xf5, 0xc2, 0xe7),
        NamedColor::Cyan => (0x94, 0xe2, 0xd5),
        NamedColor::White => (0xba, 0xc2, 0xde),
        NamedColor::BrightBlack => (0x58, 0x5b, 0x70),
        NamedColor::BrightRed => (0xf3, 0x8b, 0xa8),
        NamedColor::BrightGreen => (0xa6, 0xe3, 0xa1),
        NamedColor::BrightYellow => (0xf9, 0xe2, 0xaf),
        NamedColor::BrightBlue => (0x89, 0xb4, 0xfa),
        NamedColor::BrightMagenta => (0xf5, 0xc2, 0xe7),
        NamedColor::BrightCyan => (0x94, 0xe2, 0xd5),
        NamedColor::BrightWhite => (0xa6, 0xad, 0xc8),
        NamedColor::Foreground | NamedColor::BrightForeground => (0xcd, 0xd6, 0xf4),
        NamedColor::Background => (0x1e, 0x1e, 0x2e),
        NamedColor::Cursor => (0xf5, 0xe0, 0xdc),
        NamedColor::DimBlack => (0x45, 0x47, 0x5a),
        NamedColor::DimRed => (0xc0, 0x6f, 0x86),
        NamedColor::DimGreen => (0x85, 0xb6, 0x81),
        NamedColor::DimYellow => (0xc7, 0xb5, 0x8c),
        NamedColor::DimBlue => (0x6e, 0x90, 0xc8),
        NamedColor::DimMagenta => (0xc4, 0x9b, 0xb9),
        NamedColor::DimCyan => (0x76, 0xb5, 0xaa),
        NamedColor::DimWhite => (0x95, 0x9b, 0xb2),
        NamedColor::DimForeground => (0xa4, 0xab, 0xc3),
    }
}

/// The cube component for a level of 0 to 5.
fn to_val(i: u8) -> (v: u8)
    requires
        i <= 5,
    ensures
        v == cube_level(i as int),
{
    if i == 0 {
        0
    } else {
        55 + 40 * i
    }
}

pub fn indexed_color_to_rgb(idx: u8) -> (c: (u8, u8, u8))
    ensures
        c == indexed_rgb(idx),
{
    if idx < 16 {
        let named = if idx == 0 {
            NamedColor::Black
        } else if idx == 1 {
            NamedColor::Red
        } else if idx == 2 {
            NamedColor::Green
        } else if idx == 3 {
            NamedColor::Yellow
        } else if idx == 4 {
            NamedColor::Blue
        } else if idx == 5 {
            NamedColor::Magenta
        } else if idx == 6 {
            NamedColor::Cyan
        } else if idx == 7 {
            NamedColor::White
        } else if idx == 8 {
            NamedColor::BrightBlack
        } else if idx == 9 {
            NamedColor::BrightRed
        } else if idx == 10 {
            NamedColor::BrightGreen
        } else if idx == 11 {
            NamedColor::BrightYellow
        } else if idx == 12 {
            NamedColor::BrightBlue
        } else if idx == 13 {
            NamedColor::BrightMagenta
        } else if idx == 14 {
            NamedColor::BrightCyan
        } else {
            NamedColor::BrightWhite
        };
        named_color_to_rgb(&named)
    } else if idx <= 231 {
        let i = idx - 16;
        let r_idx = i / 36;
        let g_idx = (i % 36) / 6;
        let b_idx = i % 6;
        (to_val(r_idx), to_val(g_idx), to_val(b_idx))
    } else {
        let v = 8 + 10 * (idx - 232);
        (v, v, v)
    }
}

/// Resolve a terminal color to an `(r, g, b)` tuple.
pub fn resolve_color(color: &Color) -> (c: (u8, u8, u8))
    ensures
        c == color_rgb(*color),
{
    match color {
        Color::Spec(rgb) => (rgb.r, rgb.g, rgb.b),
        Color::Named(named) => named_color_to_rgb(named),
        Color::Indexed(idx) => indexed_color_to_rgb(*idx),
    }
}

/// Check if a background color is the default (should not be rendered as a rect).
pub fn is_default_bg(color: &Color) -> (b: bool)
    ensures
        b == default_bg(*color),
{
    match color {
        Color::Named(NamedColor::Background) => true,
        Color::Spec(rgb) => rgb.r == 0x1e && rgb.g == 0x1e && rgb.b == 0x2e,
        Color::Indexed(0) => false,  // Black is not "default bg"
        _ => false,
    }
}

// ---------------------------------------------------------------------------
// Laws
// ---------------------------------------------------------------------------

/// The first sixteen entries of the 256-color table are the named ANSI
/// colors, a default background resolves to the palette's background, and
/// every entry of the color cube has its components among the six cube
/// levels.
pub proof fn lemma_palette_consistent(idx: u8)
    ensures
        idx < 16 ==> indexed_rgb(idx) == palette(ansi_named(idx)),
        16 <= idx <= 231 ==> {
            let c = indexed_rgb(idx);
            &&& (c.0 == 0 || (95 <= c.0 <= 255 && (c.0 - 95) % 40 == 0))
            &&& (c.1 == 0 || (95 <= c.1 <= 255 && (c.1 - 95) % 40 == 0))
            &&& (c.2 == 0 || (95 <= c.2 <= 255 && (c.2 - 95) % 40 == 0))
        },
        232 <= idx ==> indexed_rgb(idx).0 == indexed_rgb(idx).1 == indexed_rgb(idx).2,
{
    if 16 <= idx <= 231 {
        let i = idx - 16;
        assert(0 <= i / 36 <= 5 && 0 <= (i % 36) / 6 <= 5 && 0 <= i % 6 <= 5) by (nonlinear_arith)
            requires
                0 <= i <= 215,
        ;
    }
}

/// A default background resolves to the color the window clears to.
pub proof fn lemma_default_bg_is_palette_background(color: Color)
    requires
        default_bg(color),
    ensures
        color_rgb(color) == palette(NamedColor::Background),
{
}

} // verus!
