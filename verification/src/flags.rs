//! Cell attribute flags (bitfield).

use vstd::prelude::*;

verus! {

pub const BOLD: u8 = 0x01;

pub const UNDERLINE: u8 = 0x02;

pub const REVERSE: u8 = 0x04;

pub const ITALIC: u8 = 0x08;

pub const DIM: u8 = 0x10;

pub const HIDDEN: u8 = 0x20;

pub const STRIKE: u8 = 0x40;

/// Set by the predictive-echo overlay (client-side only) so predicted glyphs
/// can be painted distinctly.
pub const PREDICTED: u8 = 0x80;

} // verus!
