use vstd::prelude::*;

use crate::render::{dice_faces, dice_text, write_dice, write_faces};

use crate::dice::Dice;

verus! {

/// A roll of two dice that keeps count of the plays still open, as [`Dice`] does,
/// and shows the two values as cast.
#[derive(Clone, Copy, Debug, PartialEq, Eq)]
pub struct Roll {
    /// The two dice as cast.
    pub dice: [u8; 2],
    /// The plays that are left.
    pub left: Dice,
}

impl Roll {
    /// The dice shown are those that the count was made from.
    pub open spec fn wf(self) -> bool {
        self.left.first == self.dice[0] && self.left.second == self.dice[1]
    }

    /// Casts both dice.
    pub fn roll() -> (r: Roll)
        ensures
            r.wf(),
            1 <= r.dice[0] <= 6,
            1 <= r.dice[1] <= 6,
            r.left == Dice::cast(r.dice[0], r.dice[1]),
    {
        let left = Dice::roll();
        Roll { dice: left.dice(), left }
    }

    /// True if a play of length `die` is left.
    pub fn check(&self, die: u8) -> (r: bool)
        ensures
            r == (self.left.count(die) > 0),
    {
        self.left.check(die)
    }

    /// Takes one play of length `die` from the roll.
    pub fn remove(&mut self, die: u8)
        requires
            old(self).left.count(die) > 0,
        ensures
            final(self).dice == old(self).dice,
            final(self).left == old(self).left.without(die),
            final(self).left.total() == old(self).left.total() - 1,
    {
        self.left.remove(die);
    }

    /// The casts that are left, one entry for each play that the roll allows.
    pub fn available_rolls(&self) -> (r: Vec<u8>)
        ensures
            r@ == self.left.remaining(),
    {
        self.left.available_rolls()
    }

    /// True if any play is left.
    pub fn any_available(&self) -> (r: bool)
        ensures
            r == (self.left.total() > 0),
    {
        self.left.any_available()
    }

    /// Casts both dice anew.
    pub fn reroll(&mut self)
        ensures
            final(self).wf(),
            1 <= final(self).dice[0] <= 6,
            1 <= final(self).dice[1] <= 6,
            final(self).left == Dice::cast(final(self).dice[0], final(self).dice[1]),
    {
        *self = Roll::roll();
    }

    /// A roll for the start of a game: two dice that differ.
    pub fn first_roll() -> (r: Roll)
        ensures
            r.wf(),
            1 <= r.dice[0] <= 6,
            1 <= r.dice[1] <= 6,
            r.dice[0] != r.dice[1],
            r.left == Dice::cast(r.dice[0], r.dice[1]),
    {
        let left = Dice::first_roll();
        Roll { dice: left.dice(), left }
    }

    /// The two dice as numbers with a hyphen between them, as in `4-6`.
    pub fn to_string(&self) -> (r: String)
        ensures
            r@ == dice_text(self.dice[0], self.dice[1]),
    {
        write_dice(self.dice[0], self.dice[1])
    }

    /// The two dice as faces with a hyphen between them; a value that no die has
    /// is shown as the game die.
    pub fn to_alternate_string(&self) -> (r: String)
        ensures
            r@ == dice_faces(self.dice[0], self.dice[1]),
    {
        write_faces(self.dice[0], self.dice[1])
    }
}

} // verus!
