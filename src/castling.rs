use vstd::prelude::*;
use crate::types::Color;

verus! {

pub const CASTLE_WHITE_KING: u8 = 1;
pub const CASTLE_WHITE_QUEEN: u8 = 2;
pub const CASTLE_BLACK_KING: u8 = 4;
pub const CASTLE_BLACK_QUEEN: u8 = 8;

/// The bit of the mask that holds the kingside right of a color.
pub open spec fn kingside_bit(color: Color) -> u8 {
    match color {
        Color::White => CASTLE_WHITE_KING,
        Color::Black => CASTLE_BLACK_KING,
    }
}

/// The bit of the mask that holds the queenside right of a color.
pub open spec fn queenside_bit(color: Color) -> u8 {
    match color {
        Color::White => CASTLE_WHITE_QUEEN,
        Color::Black => CASTLE_BLACK_QUEEN,
    }
}

pub fn has_kingside(rights: u8, color: Color) -> (r: bool)
    ensures
        r == (rights & kingside_bit(color) != 0),
{
    match color {
        Color::White => rights & CASTLE_WHITE_KING != 0,
        Color::Black => rights & CASTLE_BLACK_KING != 0,
    }
}

pub fn has_queenside(rights: u8, color: Color) -> (r: bool)
    ensures
        r == (rights & queenside_bit(color) != 0),
{
    match color {
        Color::White => rights & CASTLE_WHITE_QUEEN != 0,
        Color::Black => rights & CASTLE_BLACK_QUEEN != 0,
    }
}

pub fn revoke_kingside(rights: &mut u8, color: Color)
    ensures
        *final(rights) == *old(rights) & !kingside_bit(color),
{
    match color {
        Color::White => *rights = *rights & !CASTLE_WHITE_KING,
        Color::Black => *rights = *rights & !CASTLE_BLACK_KING,
    }
}

pub fn revoke_queenside(rights: &mut u8, color: Color)
    ensures
        *final(rights) == *old(rights) & !queenside_bit(color),
{
    match color {
        Color::White => *rights = *rights & !CASTLE_WHITE_QUEEN,
        Color::Black => *rights = *rights & !CASTLE_BLACK_QUEEN,
    }
}

pub fn revoke_all(rights: &mut u8, color: Color)
    ensures
        *final(rights) == *old(rights) & !kingside_bit(color) & !queenside_bit(color),
{
    revoke_kingside(rights, color);
    revoke_queenside(rights, color);
}

} // verus!
