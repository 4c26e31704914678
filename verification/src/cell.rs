//! Cell, color, and attribute model for the screen grid.

use vstd::prelude::*;

verus! {

/// A terminal color.
#[derive(Debug, Clone, Copy, PartialEq, Eq, Structural)]
pub enum Color {
    /// The terminal default (separate fg/bg defaults).
    Default,
    /// One of the 256 indexed palette colors.
    Indexed(u8),
    /// A 24-bit truecolor value.
    Rgb(u8, u8, u8),
}

impl Default for Color {
    fn default() -> (r: Color)
        ensures
            r == Color::Default,
    {
        Color::Default
    }
}

/// What the second cell of a character that takes two holds.
pub const TAIL: char = '\0';

/// How many columns a character takes, if it is not a control character.
pub uninterp spec fn width_of(c: char) -> Option<usize>;

/// `unicode_width::UnicodeWidthChar::width`: how many columns a character takes, if it
/// is not a control character. Of characters beyond ASCII it is not stated how many.
#[verifier::external_body]
fn width(c: char) -> (r: Option<usize>)
    ensures
        r == width_of(c),
        ' ' <= c <= '~' ==> r == Some(1usize),
{
    unicode_width::UnicodeWidthChar::width(c)
}

/// How many cells a character takes: none, one or two. A control character takes
/// one.
pub open spec fn cells_for(c: char) -> int {
    if ' ' <= c <= '~' {
        1
    } else {
        match width_of(c) {
            Some(n) => if n < 2 {
                n as int
            } else {
                2
            },
            None => 1,
        }
    }
}

/// How many cells a character takes whose width in columns is this, as far as it has
/// one.
pub fn cells_of_width(width: Option<usize>) -> (r: usize)
    ensures
        r == match width {
            Some(n) => if n < 2 {
                n as int
            } else {
                2
            },
            None => 1,
        },
{
    match width {
        Some(n) => if n < 2 {
            n
        } else {
            2
        },
        None => 1,
    }
}

/// How many cells a character takes.
pub fn cells_of(c: char) -> (r: usize)
    ensures
        r == cells_for(c),
        r <= 2,
{
    cells_of_width(width(c))
}

/// A single screen cell.
#[derive(Debug, Clone, Copy, PartialEq, Eq, Structural)]
pub struct Cell {
    pub ch: char,
    pub fg: Color,
    pub bg: Color,
    /// Attributes, a bitfield of the constants in `flags`.
    pub flags: u8,
}

/// A blank cell: a space in default colors without attributes.
pub open spec fn blank_cell() -> Cell {
    Cell { ch: ' ', fg: Color::Default, bg: Color::Default, flags: 0 }
}

impl Default for Cell {
    fn default() -> (r: Cell)
        ensures
            r == blank_cell(),
    {
        Cell { ch: ' ', fg: Color::Default, bg: Color::Default, flags: 0 }
    }
}

impl Cell {
    /// A blank cell.
    pub fn blank() -> (r: Cell)
        ensures
            r == blank_cell(),
    {
        Cell { ch: ' ', fg: Color::Default, bg: Color::Default, flags: 0 }
    }

    /// Whether the cell is blank.
    pub fn is_blank(&self) -> (r: bool)
        ensures
            r == (*self == blank_cell()),
    {
        *self == Cell::blank()
    }
}

} // verus!
