use vstd::prelude::*;

verus! {

/// A board coordinate: column then row, both counted from 1.
#[derive(Clone, Copy, PartialEq, Eq, Structural, Debug)]
pub struct Point(pub u8, pub u8);

/// The two sides of the game.
#[derive(Clone, Copy, PartialEq, Eq, Structural, Debug)]
pub enum Color {
    White,
    Black,
}

/// The six classes of piece.
#[derive(Clone, Copy, PartialEq, Eq, Structural, Debug)]
pub enum Kind {
    Pawn,
    Knight,
    Bishop,
    Rook,
    Queen,
    King,
}

/// A piece: the side it belongs to and its class.
#[derive(Clone, Copy, PartialEq, Eq, Structural, Debug)]
pub struct Piece {
    pub color: Color,
    pub kind: Kind,
}

/// The side opposed to `c`.
pub open spec fn opposite(c: Color) -> Color {
    match c {
        Color::White => Color::Black,
        Color::Black => Color::White,
    }
}

impl Color {
    /// Swaps the two sides.
    pub fn inverse(&self) -> (r: Color)
        ensures
            r == opposite(*self),
    {
        match self {
            Color::White => Color::Black,
            Color::Black => Color::White,
        }
    }
}

impl Piece {
    pub fn new(color: Color, kind: Kind) -> (r: Piece)
        ensures
            r == (Piece { color, kind }),
    {
        Piece { color, kind }
    }
}

} // verus!
