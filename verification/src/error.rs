use vstd::prelude::*;

use crate::player::Player;

verus! {

/// Everything that the engine can refuse, one variant per rule.
#[derive(Debug, PartialEq, Eq)]
pub enum Error {
    /// A perspective-relative location outside `0..=25`, or one asked for `Player::Nobody`.
    InvalidNormalizedLocation(usize, Player),
    /// An absolute location outside `0..=25`.
    InvalidDenormalizedLocation(usize),
    /// A value that names no point of the board: outside `0..=23`, or a bar or rail.
    InvalidIndexLocation(usize),
    /// As `InvalidNormalizedLocation`, reported by [`crate::position::NormalizedPosition`].
    InvalidNormalizedPosition(usize, Player),
    /// As `InvalidDenormalizedLocation`, reported by [`crate::position::DenormalizedPosition`].
    InvalidDenormalizedPosition(usize),
    /// As `InvalidIndexLocation`, reported by [`crate::position::IndexPosition`].
    InvalidIndexPosition(usize),
    /// A group of a turn's text that does not follow the notation; holds the group.
    InvalidNotation(String),
    /// A play whose length no remaining die allows; holds the length.
    InvalidPlayLength(u8),
    /// The turn stops although a further play could be made.
    IncompleteTurn,
    /// The play is made by the side that is not to move.
    PlayMadeOutOfTurn,
    /// The play leaves a piece of the mover on the bar.
    PlayMadeWithBarFilled,
    /// The play ends on a bar.
    PlayMadeToBar,
    /// The play starts from a rail.
    PlayMadeFromRail,
    /// The play starts from a space that holds no piece.
    PlayMadeFromEmptyPoint,
    /// The play starts from a space that the opponent holds.
    PlayMadeWithOpposingPiece,
    /// The play moves away from the mover's home.
    InvalidPlayDirection,
    /// The play ends on a point that the opponent holds with two or more pieces.
    PlayMadeOntoOpposingPiece,
    /// The play bears off while a piece of the mover is outside its home quadrant.
    InvalidBearOff,
    /// Another turn would have moved the pieces further.
    NonMaximalTurn,
}

} // verus!
