//! Terminal colors (indexed + RGB).

use vstd::prelude::*;

verus! {

#[derive(Debug, Clone, Copy, PartialEq, Eq, Structural)]
pub enum NamedColor {
    Black,
    Red,
    Green,
    Yellow,
    Blue,
    Magenta,
    Cyan,
    White,
    BrightBlack,
    BrightRed,
    BrightGreen,
    BrightYellow,
    BrightBlue,
    BrightMagenta,
    BrightCyan,
    BrightWhite,
    Foreground,
    Background,
    Cursor,
}

#[derive(Debug, Clone, Copy, PartialEq, Eq, Structural)]
pub enum Color {
    Named(NamedColor),
    Indexed(u8),
    Rgb(u8, u8, u8),
}

impl Default for Color {
    fn default() -> (c: Self)
        ensures
            c == Color::Named(NamedColor::Foreground),
    {
        Color::Named(NamedColor::Foreground)
    }
}

/// Palette slot of a named color; the three special colors use slot 7.
pub open spec fn named_slot(n: NamedColor) -> int {
    match n {
        NamedColor::Black => 0,
        NamedColor::Red => 1,
        NamedColor::Green => 2,
        NamedColor::Yellow => 3,
        NamedColor::Blue => 4,
        NamedColor::Magenta => 5,
        NamedColor::Cyan => 6,
        NamedColor::White => 7,
        NamedColor::BrightBlack => 8,
        NamedColor::BrightRed => 9,
        NamedColor::BrightGreen => 10,
        NamedColor::BrightYellow => 11,
        NamedColor::BrightBlue => 12,
        NamedColor::BrightMagenta => 13,
        NamedColor::BrightCyan => 14,
        NamedColor::BrightWhite => 15,
        _ => 7,
    }
}

/// One channel of the 6x6x6 color cube.
pub open spec fn cube_level(v: int) -> int {
    if v == 0 { 0 } else { 55 + 40 * v }
}

/// RGB value of a color, given the 16-entry palette and the default
/// foreground / background.
pub open spec fn color_rgb(c: Color, ansi: Seq<[u8; 3]>, fg: [u8; 3], bg: [u8; 3]) -> [u8; 3] {
    match c {
        Color::Named(NamedColor::Foreground) => fg,
        Color::Named(NamedColor::Background) => bg,
        Color::Named(NamedColor::Cursor) => fg,
        Color::Named(n) => ansi[named_slot(n)],
        Color::Indexed(i) => {
            if i < 16 {
                ansi[i as int]
            } else if i < 232 {
                let k = i - 16;
                [
                    cube_level(k / 36) as u8,
                    cube_level((k % 36) / 6) as u8,
                    cube_level(k % 6) as u8,
                ]
            } else {
                let v = (8 + 10 * (i - 232)) as u8;
                [v, v, v]
            }
        },
        Color::Rgb(r, g, b) => [r, g, b],
    }
}

fn cube_channel(v: u8) -> (r: u8)
    requires
        v < 6,
    ensures
        r == cube_level(v as int),
{
    if v == 0 {
        0
    } else {
        55 + 40 * v
    }
}

impl Color {
    /// Resolve this color to RGB against a 16-color palette.
    pub fn to_rgb(self, ansi: &[[u8; 3]; 16], fg: [u8; 3], bg: [u8; 3]) -> (res: [u8; 3])
        ensures
            res == color_rgb(self, ansi@, fg, bg),
    {
        match self {
            Color::Named(NamedColor::Foreground) => fg,
            Color::Named(NamedColor::Background) => bg,
            Color::Named(NamedColor::Cursor) => fg,
            Color::Named(n) => {
                let idx: usize = match n {
                    NamedColor::Black => 0,
                    NamedColor::Red => 1,
                    NamedColor::Green => 2,
                    NamedColor::Yellow => 3,
                    NamedColor::Blue => 4,
                    NamedColor::Magenta => 5,
                    NamedColor::Cyan => 6,
                    NamedColor::White => 7,
                    NamedColor::BrightBlack => 8,
                    NamedColor::BrightRed => 9,
                    NamedColor::BrightGreen => 10,
                    NamedColor::BrightYellow => 11,
                    NamedColor::BrightBlue => 12,
                    NamedColor::BrightMagenta => 13,
                    NamedColor::BrightCyan => 14,
                    NamedColor::BrightWhite => 15,
                    NamedColor::Foreground | NamedColor::Background | NamedColor::Cursor => 7,
                };
                ansi[idx]
            },
            Color::Indexed(i) => {
                if (i as usize) < 16 {
                    ansi[i as usize]
                } else if i < 232 {
                    let k = i - 16;
                    [cube_channel(k / 36), cube_channel((k % 36) / 6), cube_channel(k % 6)]
                } else {
                    let v = 8 + 10 * (i - 232);
                    [v, v, v]
                }
            },
            Color::Rgb(r, g, b) => [r, g, b],
        }
    }
}

/// The 256 indexed colors: 0–15 are the palette; 16 + 36 r + 6 g + b (each
/// of r, g, b in 0..6) is the cube color whose red, green and blue levels
/// are r, g and b, a level v being 0 for v = 0 and 55 + 40 v otherwise; and
/// 232 + j (j in 0..24) is the grey 8 + 10 j.
pub proof fn lemma_indexed_colors(ansi: Seq<[u8; 3]>, fg: [u8; 3], bg: [u8; 3], r: int, g: int, b: int, j: int)
    requires
        0 <= r < 6,
        0 <= g < 6,
        0 <= b < 6,
        0 <= j < 24,
    ensures
        ({
            let c = color_rgb(Color::Indexed((16 + 36 * r + 6 * g + b) as u8), ansi, fg, bg);
            &&& c[0] == (if r == 0 { 0 } else { 55 + 40 * r })
            &&& c[1] == (if g == 0 { 0 } else { 55 + 40 * g })
            &&& c[2] == (if b == 0 { 0 } else { 55 + 40 * b })
        }),
        ({
            let c = color_rgb(Color::Indexed((232 + j) as u8), ansi, fg, bg);
            &&& c[0] == 8 + 10 * j
            &&& c[1] == 8 + 10 * j
            &&& c[2] == 8 + 10 * j
        }),
        forall|i: u8| i < 16 ==> #[trigger] color_rgb(Color::Indexed(i), ansi, fg, bg) == ansi[i as int],
{
    let k = 36 * r + 6 * g + b;
    assert(k / 36 == r && (k % 36) / 6 == g && k % 6 == b) by (nonlinear_arith)
        requires
            k == 36 * r + 6 * g + b,
            0 <= r < 6,
            0 <= g < 6,
            0 <= b < 6,
    ;
}

/// The named colors: the eight normal colors are palette entries 0–7 in the
/// order black, red, green, yellow, blue, magenta, cyan, white; the bright
/// ones entries 8–15 in the same order; the default foreground and the
/// cursor are `fg`, the default background `bg`.
pub proof fn lemma_named_colors(ansi: Seq<[u8; 3]>, fg: [u8; 3], bg: [u8; 3])
    ensures
        color_rgb(Color::Named(NamedColor::Black), ansi, fg, bg) == ansi[0],
        color_rgb(Color::Named(NamedColor::Red), ansi, fg, bg) == ansi[1],
        color_rgb(Color::Named(NamedColor::Green), ansi, fg, bg) == ansi[2],
        color_rgb(Color::Named(NamedColor::Yellow), ansi, fg, bg) == ansi[3],
        color_rgb(Color::Named(NamedColor::Blue), ansi, fg, bg) == ansi[4],
        color_rgb(Color::Named(NamedColor::Magenta), ansi, fg, bg) == ansi[5],
        color_rgb(Color::Named(NamedColor::Cyan), ansi, fg, bg) == ansi[6],
        color_rgb(Color::Named(NamedColor::White), ansi, fg, bg) == ansi[7],
        color_rgb(Color::Named(NamedColor::BrightBlack), ansi, fg, bg) == ansi[8],
        color_rgb(Color::Named(NamedColor::BrightRed), ansi, fg, bg) == ansi[9],
        color_rgb(Color::Named(NamedColor::BrightGreen), ansi, fg, bg) == ansi[10],
        color_rgb(Color::Named(NamedColor::BrightYellow), ansi, fg, bg) == ansi[11],
        color_rgb(Color::Named(NamedColor::BrightBlue), ansi, fg, bg) == ansi[12],
        color_rgb(Color::Named(NamedColor::BrightMagenta), ansi, fg, bg) == ansi[13],
        color_rgb(Color::Named(NamedColor::BrightCyan), ansi, fg, bg) == ansi[14],
        color_rgb(Color::Named(NamedColor::BrightWhite), ansi, fg, bg) == ansi[15],
        color_rgb(Color::Named(NamedColor::Foreground), ansi, fg, bg) == fg,
        color_rgb(Color::Named(NamedColor::Cursor), ansi, fg, bg) == fg,
        color_rgb(Color::Named(NamedColor::Background), ansi, fg, bg) == bg,
{
}

/// A true color is itself.
pub proof fn lemma_rgb_color(ansi: Seq<[u8; 3]>, fg: [u8; 3], bg: [u8; 3], r: u8, g: u8, b: u8)
    ensures
        color_rgb(Color::Rgb(r, g, b), ansi, fg, bg) == [r, g, b],
{
}

} // verus!
