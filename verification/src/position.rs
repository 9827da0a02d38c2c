use vstd::prelude::*;

use crate::board::BOARD_SIZE;
use crate::error::Error;
use crate::location::{denormalized_of_index, index_of_normalized, normalized_of_index};
use crate::player::Player;

verus! {

/// What [`NormalizedPosition::new`] returns.
pub open spec fn normalized_position_new_spec(position: usize, player: Player) -> Result<
    NormalizedPosition,
    Error,
> {
    if player != Player::Nobody && position <= 25 {
        Ok(NormalizedPosition(position, player))
    } else {
        Err(Error::InvalidNormalizedPosition(position, player))
    }
}

/// What [`NormalizedPosition::to_index`] returns for `position` as `player` counts it.
pub open spec fn position_to_index_spec(position: usize, player: Player) -> Result<
    IndexPosition,
    Error,
> {
    if position == 0 || position >= 25 {
        Err(Error::InvalidIndexPosition(position))
    } else {
        Ok(IndexPosition(index_of_normalized(position as int, player) as usize))
    }
}

/// A position between 0 and 25 as one side counts it; the errors it reports carry
/// the word position where [`crate::location::Normalized`] says location.
#[derive(Debug, PartialEq, Eq, Structural, Clone, Copy)]
pub struct NormalizedPosition(pub usize, pub Player);

impl NormalizedPosition {
    /// A value that [`NormalizedPosition::new`] can have made.
    pub open spec fn wf(self) -> bool {
        self.0 <= 25 && self.1 != Player::Nobody
    }

    /// Accepts `position` in `0..=25` for `Black` or `White`, and nothing else.
    pub fn new(position: usize, player: Player) -> (r: Result<NormalizedPosition, Error>)
        ensures
            r == normalized_position_new_spec(position, player),
            r is Ok ==> r->Ok_0.wf(),
    {
        if player == Player::Nobody {
            return Err(Error::InvalidNormalizedPosition(position, player));
        }
        if position <= 25 {
            Ok(NormalizedPosition(position, player))
        } else {
            Err(Error::InvalidNormalizedPosition(position, player))
        }
    }

    /// The point that this position names; the rail and the bar (0 and 25) name none.
    pub fn to_index(&self) -> (r: Result<IndexPosition, Error>)
        requires
            self.wf(),
        ensures
            r == position_to_index_spec(self.0, self.1),
            r is Ok ==> r->Ok_0.wf(),
    {
        if self.0 == 0 || self.0 == BOARD_SIZE + 1 {
            return Err(Error::InvalidIndexPosition(self.0));
        }
        match self.1 {
            Player::White => Ok(IndexPosition(BOARD_SIZE + 1 - self.0 - 1)),
            _ => Ok(IndexPosition(self.0 - 1)),
        }
    }
}

/// A position between 0 and 25 as the board counts it.
#[derive(Debug, PartialEq, Eq, Structural, Clone, Copy)]
pub struct DenormalizedPosition(pub usize);

impl DenormalizedPosition {
    /// A value that the conversion from `usize` can have made.
    pub open spec fn wf(self) -> bool {
        self.0 <= 25
    }

    /// The number held.
    pub fn value(self) -> (r: usize)
        ensures
            r == self.0,
    {
        self.0
    }
}

impl TryFrom<usize> for DenormalizedPosition {
    type Error = Error;

    /// Accepts `0..=25`.
    fn try_from(value: usize) -> (r: Result<DenormalizedPosition, Error>) {
        if value <= 25 {
            Ok(DenormalizedPosition(value))
        } else {
            Err(Error::InvalidDenormalizedPosition(value))
        }
    }
}

impl vstd::std_specs::convert::TryFromSpecImpl<usize> for DenormalizedPosition {
    open spec fn obeys_try_from_spec() -> bool {
        true
    }

    open spec fn try_from_spec(value: usize) -> Result<DenormalizedPosition, Error> {
        if value <= 25 {
            Ok(DenormalizedPosition(value))
        } else {
            Err(Error::InvalidDenormalizedPosition(value))
        }
    }
}

/// The slot of a point in the board's table, between 0 and 23.
#[derive(Debug, PartialEq, Eq, Structural, Clone, Copy)]
pub struct IndexPosition(pub usize);

impl IndexPosition {
    /// A value that the conversion from `usize` can have made.
    pub open spec fn wf(self) -> bool {
        self.0 < 24
    }

    /// The position of this point as `perspective` counts it.
    pub fn normalize(self, perspective: Player) -> (r: NormalizedPosition)
        requires
            self.wf(),
            perspective != Player::Nobody,
        ensures
            r == NormalizedPosition(
                normalized_of_index(self.0 as int, perspective) as usize,
                perspective,
            ),
            r.wf(),
            position_to_index_spec(r.0, perspective) == Ok::<IndexPosition, Error>(self),
    {
        match perspective {
            Player::White => NormalizedPosition(BOARD_SIZE + 1 - (self.0 + 1), perspective),
            _ => NormalizedPosition(self.0 + 1, perspective),
        }
    }

    /// The position of this point as the board counts it.
    pub fn denormalize(self) -> (r: DenormalizedPosition)
        requires
            self.wf(),
        ensures
            r == DenormalizedPosition(denormalized_of_index(self.0 as int) as usize),
            r.wf(),
    {
        DenormalizedPosition(self.0 + 1)
    }

    /// The number held.
    pub fn value(self) -> (r: usize)
        ensures
            r == self.0,
    {
        self.0
    }
}

impl TryFrom<usize> for IndexPosition {
    type Error = Error;

    /// Accepts `0..=23`.
    fn try_from(value: usize) -> (r: Result<IndexPosition, Error>) {
        if value <= 23 {
            Ok(IndexPosition(value))
        } else {
            Err(Error::InvalidIndexPosition(value))
        }
    }
}

impl vstd::std_specs::convert::TryFromSpecImpl<usize> for IndexPosition {
    open spec fn obeys_try_from_spec() -> bool {
        true
    }

    open spec fn try_from_spec(value: usize) -> Result<IndexPosition, Error> {
        if value <= 23 {
            Ok(IndexPosition(value))
        } else {
            Err(Error::InvalidIndexPosition(value))
        }
    }
}

} // verus!
