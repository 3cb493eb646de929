//! Cell colors: the terminal color enum, its resolution to concrete RGB
//! triples against caller-supplied reset colors, and packing into the single
//! 32-bit value carried by each vertex.

use vstd::prelude::*;

verus! {

/// A concrete color, one byte per channel.
#[derive(Clone, Copy, PartialEq, Eq, Structural, Debug)]
pub struct Rgb {
    pub r: u8,
    pub g: u8,
    pub b: u8,
}

/// A cell color as stored in the grid: either a named terminal color, an
/// indexed palette entry, a direct RGB value, or the reset (default) color.
#[derive(Clone, Copy, PartialEq, Eq, Structural, Debug)]
pub enum Color {
    Reset,
    Black,
    Red,
    Green,
    Yellow,
    Blue,
    Magenta,
    Cyan,
    Gray,
    DarkGray,
    LightRed,
    LightGreen,
    LightYellow,
    LightBlue,
    LightMagenta,
    LightCyan,
    White,
    Rgb(u8, u8, u8),
    Indexed(u8),
}

pub open spec fn spec_rgb(r: u8, g: u8, b: u8) -> Rgb {
    Rgb { r, g, b }
}

/// The 256-entry terminal palette: 16 base colors, a 6x6x6 color cube, and a
/// 24-step grayscale ramp.
pub open spec fn spec_indexed_rgb(idx: u8) -> Rgb {
    if idx < 16 {
        spec_base16_rgb(idx)
    } else if idx < 232 {
        spec_cube_rgb(idx)
    } else {
        spec_gray_rgb(idx)
    }
}

/// The 16 base colors (same values as the named variants).
pub open spec fn spec_base16_rgb(idx: u8) -> Rgb {
    if idx == 0 { spec_rgb(0, 0, 0) }
    else if idx == 1 { spec_rgb(205, 0, 0) }
    else if idx == 2 { spec_rgb(0, 205, 0) }
    else if idx == 3 { spec_rgb(205, 205, 0) }
    else if idx == 4 { spec_rgb(0, 0, 238) }
    else if idx == 5 { spec_rgb(205, 0, 205) }
    else if idx == 6 { spec_rgb(0, 205, 205) }
    else if idx == 7 { spec_rgb(229, 229, 229) }
    else if idx == 8 { spec_rgb(127, 127, 127) }
    else if idx == 9 { spec_rgb(255, 0, 0) }
    else if idx == 10 { spec_rgb(0, 255, 0) }
    else if idx == 11 { spec_rgb(255, 255, 0) }
    else if idx == 12 { spec_rgb(92, 92, 255) }
    else if idx == 13 { spec_rgb(255, 0, 255) }
    else if idx == 14 { spec_rgb(0, 255, 255) }
    else { spec_rgb(255, 255, 255) }
}

/// One axis step of the 6x6x6 cube: 0 maps to 0, k > 0 maps to 55 + 40k.
pub open spec fn spec_cube_step(k: int) -> u8 {
    if k == 0 { 0u8 } else { (55 + 40 * k) as u8 }
}

pub open spec fn spec_cube_rgb(idx: u8) -> Rgb {
    let n = idx - 16;
    Rgb {
        r: spec_cube_step(n / 36),
        g: spec_cube_step((n / 6) % 6),
        b: spec_cube_step(n % 6),
    }
}

pub open spec fn spec_gray_rgb(idx: u8) -> Rgb {
    let v = (8 + 10 * (idx - 232)) as u8;
    Rgb { r: v, g: v, b: v }
}

/// Resolution of a cell color to a concrete RGB triple. `Reset` takes the
/// caller-supplied reset color; named colors take their palette value.
pub open spec fn spec_resolve_color(c: Color, reset: Rgb) -> Rgb {
    match c {
        Color::Reset => reset,
        Color::Black => spec_rgb(0, 0, 0),
        Color::Red => spec_rgb(205, 0, 0),
        Color::Green => spec_rgb(0, 205, 0),
        Color::Yellow => spec_rgb(205, 205, 0),
        Color::Blue => spec_rgb(0, 0, 238),
        Color::Magenta => spec_rgb(205, 0, 205),
        Color::Cyan => spec_rgb(0, 205, 205),
        Color::Gray => spec_rgb(229, 229, 229),
        Color::DarkGray => spec_rgb(127, 127, 127),
        Color::LightRed => spec_rgb(255, 0, 0),
        Color::LightGreen => spec_rgb(0, 255, 0),
        Color::LightYellow => spec_rgb(255, 255, 0),
        Color::LightBlue => spec_rgb(92, 92, 255),
        Color::LightMagenta => spec_rgb(255, 0, 255),
        Color::LightCyan => spec_rgb(0, 255, 255),
        Color::White => spec_rgb(255, 255, 255),
        Color::Rgb(r, g, b) => spec_rgb(r, g, b),
        Color::Indexed(idx) => spec_indexed_rgb(idx),
    }
}

/// Palette lookup for indexed colors.
pub fn indexed_rgb(idx: u8) -> (r: Rgb)
    ensures
        r == spec_indexed_rgb(idx),
{
    if idx < 16 {
        base16_rgb(idx)
    } else if idx < 232 {
        let n = idx - 16;
        Rgb { r: cube_step(n / 36), g: cube_step((n / 6) % 6), b: cube_step(n % 6) }
    } else {
        let v = 8 + 10 * (idx - 232);
        Rgb { r: v, g: v, b: v }
    }
}

fn base16_rgb(idx: u8) -> (r: Rgb)
    requires
        idx < 16,
    ensures
        r == spec_base16_rgb(idx),
{
    if idx == 0 { Rgb { r: 0, g: 0, b: 0 } }
    else if idx == 1 { Rgb { r: 205, g: 0, b: 0 } }
    else if idx == 2 { Rgb { r: 0, g: 205, b: 0 } }
    else if idx == 3 { Rgb { r: 205, g: 205, b: 0 } }
    else if idx == 4 { Rgb { r: 0, g: 0, b: 238 } }
    else if idx == 5 { Rgb { r: 205, g: 0, b: 205 } }
    else if idx == 6 { Rgb { r: 0, g: 205, b: 205 } }
    else if idx == 7 { Rgb { r: 229, g: 229, b: 229 } }
    else if idx == 8 { Rgb { r: 127, g: 127, b: 127 } }
    else if idx == 9 { Rgb { r: 255, g: 0, b: 0 } }
    else if idx == 10 { Rgb { r: 0, g: 255, b: 0 } }
    else if idx == 11 { Rgb { r: 255, g: 255, b: 0 } }
    else if idx == 12 { Rgb { r: 92, g: 92, b: 255 } }
    else if idx == 13 { Rgb { r: 255, g: 0, b: 255 } }
    else if idx == 14 { Rgb { r: 0, g: 255, b: 255 } }
    else { Rgb { r: 255, g: 255, b: 255 } }
}

fn cube_step(k: u8) -> (r: u8)
    requires
        k < 6,
    ensures
        r == spec_cube_step(k as int),
{
    if k == 0 { 0 } else { 55 + 40 * k }
}

/// Resolves a cell color against the caller's reset color.
pub fn resolve_color(c: Color, reset: Rgb) -> (r: Rgb)
    ensures
        r == spec_resolve_color(c, reset),
{
    match c {
        Color::Reset => reset,
        Color::Black => Rgb { r: 0, g: 0, b: 0 },
        Color::Red => Rgb { r: 205, g: 0, b: 0 },
        Color::Green => Rgb { r: 0, g: 205, b: 0 },
        Color::Yellow => Rgb { r: 205, g: 205, b: 0 },
        Color::Blue => Rgb { r: 0, g: 0, b: 238 },
        Color::Magenta => Rgb { r: 205, g: 0, b: 205 },
        Color::Cyan => Rgb { r: 0, g: 205, b: 205 },
        Color::Gray => Rgb { r: 229, g: 229, b: 229 },
        Color::DarkGray => Rgb { r: 127, g: 127, b: 127 },
        Color::LightRed => Rgb { r: 255, g: 0, b: 0 },
        Color::LightGreen => Rgb { r: 0, g: 255, b: 0 },
        Color::LightYellow => Rgb { r: 255, g: 255, b: 0 },
        Color::LightBlue => Rgb { r: 92, g: 92, b: 255 },
        Color::LightMagenta => Rgb { r: 255, g: 0, b: 255 },
        Color::LightCyan => Rgb { r: 0, g: 255, b: 255 },
        Color::White => Rgb { r: 255, g: 255, b: 255 },
        Color::Rgb(r, g, b) => Rgb { r, g, b },
        Color::Indexed(idx) => indexed_rgb(idx),
    }
}

/// A vertex color packs red in the highest byte down to alpha in the lowest.
pub open spec fn spec_pack_vertex_color(c: Rgb) -> u32 {
    (c.r * 0x1000000 + c.g * 0x10000 + c.b * 0x100 + 0xFF) as u32
}

/// Packs a resolved color with full alpha into the vertex color format.
pub fn pack_vertex_color(c: Rgb) -> (r: u32)
    ensures
        r == spec_pack_vertex_color(c),
{
    c.r as u32 * 0x1000000 + c.g as u32 * 0x10000 + c.b as u32 * 0x100 + 0xFF
}

} // verus!
