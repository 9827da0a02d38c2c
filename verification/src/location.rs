use vstd::prelude::*;

use crate::board::BOARD_SIZE;
use crate::error::Error;
use crate::player::Player;
use crate::render::{decimal, push_decimal};

verus! {

/// The absolute location of point `index`: one more than the index.
pub open spec fn denormalized_of_index(index: int) -> int {
    index + 1
}

/// An absolute location as `player` counts it: `Black` counts as the board does,
/// `White` from the other end.
pub open spec fn normalized_of_denormalized(location: int, player: Player) -> int {
    if player == Player::White {
        25 - location
    } else {
        location
    }
}

/// The location of point `index` as `player` counts it, between 1 and 24.
pub open spec fn normalized_of_index(index: int, player: Player) -> int {
    normalized_of_denormalized(denormalized_of_index(index), player)
}

/// The point that `player` calls `position`: `position - 1` for `Black`,
/// `24 - position` for `White`.
pub open spec fn index_of_normalized(position: int, player: Player) -> int {
    if player == Player::White {
        24 - position
    } else {
        position - 1
    }
}

/// What [`Normalized::new`] returns.
pub open spec fn normalized_new_spec(position: usize, player: Player) -> Result<Normalized, Error> {
    if player != Player::Nobody && position <= 25 {
        Ok(Normalized(position, player))
    } else {
        Err(Error::InvalidNormalizedLocation(position, player))
    }
}

/// What [`Normalized::to_index`] returns for a location `position` as `player` counts it.
pub open spec fn normalized_to_index_spec(position: usize, player: Player) -> Result<Index, Error> {
    if position == 0 || position >= 25 {
        Err(Error::InvalidIndexLocation(position))
    } else {
        Ok(Index(index_of_normalized(position as int, player) as usize))
    }
}

/// A location between 0 and 25 as one side counts it: 0 is that side's rail, 1 its
/// ace point, 24 the opponent's ace point and 25 its bar.
#[derive(Debug, PartialEq, Eq, Structural, Clone, Copy)]
pub struct Normalized(pub usize, pub Player);

impl Normalized {
    /// A value that [`Normalized::new`] can have made.
    pub open spec fn wf(self) -> bool {
        self.0 <= 25 && self.1 != Player::Nobody
    }

    /// Accepts `position` in `0..=25` for `Black` or `White`, and nothing else.
    pub fn new(position: usize, player: Player) -> (r: Result<Normalized, Error>)
        ensures
            r == normalized_new_spec(position, player),
            r is Ok ==> r->Ok_0.wf(),
    {
        if player == Player::Nobody {
            return Err(Error::InvalidNormalizedLocation(position, player));
        }
        if position <= 25 {
            Ok(Normalized(position, player))
        } else {
            Err(Error::InvalidNormalizedLocation(position, player))
        }
    }

    /// The point that this location names; the rail and the bar (0 and 25) name none.
    pub fn to_index(&self) -> (r: Result<Index, Error>)
        requires
            self.wf(),
        ensures
            r == normalized_to_index_spec(self.0, self.1),
            r is Ok ==> r->Ok_0.wf(),
    {
        if self.0 == 0 || self.0 == BOARD_SIZE + 1 {
            return Err(Error::InvalidIndexLocation(self.0));
        }
        match self.1 {
            Player::White => Ok(Index(BOARD_SIZE + 1 - self.0 - 1)),
            _ => Ok(Index(self.0 - 1)),
        }
    }

    /// The number held.
    pub fn value(&self) -> (r: usize)
        ensures
            r == self.0,
    {
        self.0
    }

    /// The number held, in base ten.
    pub fn to_string(&self) -> (r: String)
        ensures
            r@ == decimal(self.0 as nat),
    {
        let mut text = String::new();
        push_decimal(&mut text, self.0);
        assert(Seq::<char>::empty() + decimal(self.0 as nat) =~= decimal(self.0 as nat));
        text
    }
}

/// A location between 0 and 25 as the board counts it: 0 is the rail of `Black` and
/// the bar of `White`, 1 to 24 are the points, 25 is the bar of `Black` and the rail
/// of `White`.
#[derive(Debug, PartialEq, Eq, Structural, Clone, Copy)]
pub struct Denormalized(pub usize);

impl Denormalized {
    /// A value that the conversion from `usize` can have made.
    pub open spec fn wf(self) -> bool {
        self.0 <= 25
    }

    /// The same location as `perspective` counts it.
    pub fn normalize(self, perspective: Player) -> (r: Normalized)
        requires
            self.wf(),
            perspective != Player::Nobody,
        ensures
            r == Normalized(
                normalized_of_denormalized(self.0 as int, perspective) as usize,
                perspective,
            ),
            r.wf(),
    {
        match perspective {
            Player::White => Normalized(BOARD_SIZE + 1 - self.0, perspective),
            _ => Normalized(self.0, perspective),
        }
    }

    /// The point at this location; 0 and 25 hold no point.
    pub fn to_index(self) -> (r: Result<Index, Error>)
        requires
            self.wf(),
        ensures
            r == normalized_to_index_spec(self.0, Player::Black),
            r is Ok ==> r->Ok_0.wf(),
    {
        if self.0 == 0 || self.0 == BOARD_SIZE + 1 {
            return Err(Error::InvalidIndexLocation(self.0));
        }
        Ok(Index(self.0 - 1))
    }

    /// The number held.
    pub fn value(self) -> (r: usize)
        ensures
            r == self.0,
    {
        self.0
    }
}

impl TryFrom<usize> for Denormalized {
    type Error = Error;

    /// Accepts `0..=25`.
    fn try_from(value: usize) -> (r: Result<Denormalized, Error>) {
        if value <= 25 {
            Ok(Denormalized(value))
        } else {
            Err(Error::InvalidDenormalizedLocation(value))
        }
    }
}

impl vstd::std_specs::convert::TryFromSpecImpl<usize> for Denormalized {
    open spec fn obeys_try_from_spec() -> bool {
        true
    }

    open spec fn try_from_spec(value: usize) -> Result<Denormalized, Error> {
        if value <= 25 {
            Ok(Denormalized(value))
        } else {
            Err(Error::InvalidDenormalizedLocation(value))
        }
    }
}

/// The slot of a point in the board's table, between 0 and 23: 0 is the ace point of
/// `Black`, 23 that of `White`.
#[derive(Debug, PartialEq, Eq, Structural, Hash, Clone, Copy)]
pub struct Index(pub usize);

impl Index {
    /// A value that the conversion from `usize` can have made.
    pub open spec fn wf(self) -> bool {
        self.0 < 24
    }

    /// The location of this point as `perspective` counts it.
    pub fn normalize(self, perspective: Player) -> (r: Normalized)
        requires
            self.wf(),
            perspective != Player::Nobody,
        ensures
            r == Normalized(normalized_of_index(self.0 as int, perspective) as usize, perspective),
            r.wf(),
            1 <= r.0 <= 24,
    {
        match perspective {
            Player::White => Normalized(BOARD_SIZE + 1 - (self.0 + 1), perspective),
            _ => Normalized(self.0 + 1, perspective),
        }
    }

    /// The location of this point as the board counts it.
    pub fn denormalize(self) -> (r: Denormalized)
        requires
            self.wf(),
        ensures
            r == Denormalized(denormalized_of_index(self.0 as int) as usize),
            r.wf(),
    {
        Denormalized(self.0 + 1)
    }

    /// The number held.
    pub fn value(self) -> (r: usize)
        ensures
            r == self.0,
    {
        self.0
    }
}

impl TryFrom<usize> for Index {
    type Error = Error;

    /// Accepts `0..=23`.
    fn try_from(value: usize) -> (r: Result<Index, Error>) {
        if value <= 23 {
            Ok(Index(value))
        } else {
            Err(Error::InvalidIndexLocation(value))
        }
    }
}

impl vstd::std_specs::convert::TryFromSpecImpl<usize> for Index {
    open spec fn obeys_try_from_spec() -> bool {
        true
    }

    open spec fn try_from_spec(value: usize) -> Result<Index, Error> {
        if value <= 23 {
            Ok(Index(value))
        } else {
            Err(Error::InvalidIndexLocation(value))
        }
    }
}

/// A point's location as a side counts it names that point again: for every point
/// and both sides, `normalize` followed by `to_index` is the identity.
pub proof fn lemma_normalize_to_index_round_trip(index: Index, player: Player)
    requires
        index.wf(),
        player != Player::Nobody,
    ensures
        1 <= normalized_of_index(index.0 as int, player) <= 24,
        normalized_to_index_spec(normalized_of_index(index.0 as int, player) as usize, player)
            == Ok::<Index, Error>(index),
{
}

/// A location between 1 and 24 names a point whose location, counted by the same
/// side, is that location again.
pub proof fn lemma_to_index_normalize_round_trip(position: int, player: Player)
    requires
        1 <= position <= 24,
        player != Player::Nobody,
    ensures
        0 <= index_of_normalized(position, player) < 24,
        normalized_of_index(index_of_normalized(position, player), player) == position,
{
}

} // verus!
