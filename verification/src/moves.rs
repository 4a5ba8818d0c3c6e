//! Colours, game status and moves as plain values.
use vstd::prelude::*;

verus! {

/// One of the two players.
#[derive(Clone, Copy, Debug, PartialEq, Eq, Structural)]
pub enum Color {
    White,
    Black,
}

impl Color {
    /// The opponent of `self`.
    pub open spec fn opponent(self) -> Color {
        match self {
            Color::White => Color::Black,
            Color::Black => Color::White,
        }
    }

    /// The opponent of `self`.
    pub fn other(self) -> (c: Color)
        ensures
            c == self.opponent(),
    {
        match self {
            Color::White => Color::Black,
            Color::Black => Color::White,
        }
    }
}

/// Whether a position still has legal moves, and if not, how the game ended.
#[derive(Clone, Copy, Debug, PartialEq, Eq, Structural)]
pub enum Status {
    Ongoing,
    Stalemate,
    Checkmate,
}

/// A move: the square a piece leaves, the square it lands on, and the piece a
/// pawn turns into when it reaches the last rank.
///
/// Squares are numbered 0 to 63, a1 = 0, b1 = 1, ..., h8 = 63. Pieces are
/// numbered pawn = 0, knight = 1, bishop = 2, rook = 3, queen = 4, king = 5.
#[derive(Clone, Copy, Debug, PartialEq, Eq, PartialOrd, Structural)]
pub struct Move {
    pub source: u8,
    pub dest: u8,
    pub promotion: Option<u8>,
}

impl Move {
    /// The empty move: no candidate has been found.
    pub open spec fn empty() -> Move {
        Move { source: 0, dest: 0, promotion: None }
    }

    /// The empty move, which is never legal because it leaves and enters a1.
    pub fn none() -> (m: Move)
        ensures
            m == Move::empty(),
    {
        Move { source: 0, dest: 0, promotion: None }
    }

    /// Whether `self` is the empty move.
    pub fn is_none(&self) -> (b: bool)
        ensures
            b == (*self == Move::empty()),
    {
        self.source == 0 && self.dest == 0 && self.promotion.is_none()
    }

    /// Whether squares and promotion piece are in range.
    pub open spec fn in_range(self) -> bool {
        &&& self.source < 64
        &&& self.dest < 64
        &&& self.promotion matches Some(p) ==> p < 6
    }
}

} // verus!
