//! Piece kinds, colours, pieces and game results.

use vstd::prelude::*;
use crate::square::Square;

verus! {

#[derive(Clone, Copy, PartialEq, Eq, Structural, Debug, Hash)]
pub enum PieceType {
    King,
    Queen,
    Bishop,
    Knight,
    Rook,
    Pawn,
}

#[derive(Clone, Copy, PartialEq, Eq, Structural, Debug, Hash)]
pub enum PieceColor {
    White,
    Black,
}

#[derive(Clone, Copy, PartialEq, Eq, Structural, Debug, Hash)]
pub enum ChessResult {
    Ongoing,
    WhiteWon,
    BlackWon,
    Draw,
}

#[derive(Clone, Copy, PartialEq, Eq, Structural, Debug, Hash)]
pub struct Piece {
    pub piece_type: PieceType,
    pub color: PieceColor,
    pub pos: Square,
    /// Set once the piece has moved; gates castling and the pawn's double step.
    pub has_moved: bool,
}

/// The other colour.
pub open spec fn opponent(c: PieceColor) -> PieceColor {
    match c {
        PieceColor::White => PieceColor::Black,
        PieceColor::Black => PieceColor::White,
    }
}

/// The rank step of a pawn of colour `c`: up the board for white, down for black.
pub open spec fn direction(c: PieceColor) -> int {
    match c {
        PieceColor::White => 1,
        PieceColor::Black => -1,
    }
}

impl PieceColor {
    pub fn opposite(self) -> (r: PieceColor)
        ensures
            r == opponent(self),
    {
        match self {
            PieceColor::White => PieceColor::Black,
            PieceColor::Black => PieceColor::White,
        }
    }
}

impl std::ops::Not for PieceColor {
    type Output = PieceColor;

    fn not(self) -> (r: PieceColor) {
        self.opposite()
    }
}

impl vstd::std_specs::ops::NotSpecImpl for PieceColor {
    open spec fn obeys_not_spec() -> bool {
        true
    }

    open spec fn not_req(self) -> bool {
        true
    }

    open spec fn not_spec(self) -> PieceColor {
        opponent(self)
    }
}

impl Piece {
    /// The rank step of this piece if it is a pawn.
    pub fn get_direction(&self) -> (r: i8)
        ensures
            r == direction(self.color),
    {
        match self.color {
            PieceColor::White => 1,
            PieceColor::Black => -1,
        }
    }
}

} // verus!
