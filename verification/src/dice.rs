use vstd::prelude::*;

use crate::render::{dice_faces, dice_text, write_dice, write_faces};

verus! {

/// Number of dice cast in a roll.
pub const COUNT: usize = 2;

/// Number of sides of a die.
pub const SIDES: u8 = 6;

/// Calls `rand::random_range` with the range `1..=sides`, which draws from the
/// generator of the current thread. The range holds `1` whenever `sides >= 1`,
/// so the call does not refuse it as empty, and a sample of a range lies within
/// it; nothing else is claimed of the value. Not proved: that the sample lies in
/// the range. The generator stops the program if the system gives it no seed.
#[verifier::external_body]
pub(crate) fn random_cast(sides: u8) -> (r: u8)
    requires
        sides >= 1,
    ensures
        1 <= r <= sides,
{
    rand::random_range(1..=sides)
}

/// A roll of two dice with the casts that are still to be played: each die counts
/// once, and a double counts four times.
#[derive(Clone, Copy, Debug, PartialEq, Eq, Structural)]
pub struct Dice {
    /// The first die as cast.
    pub first: u8,
    /// The second die as cast.
    pub second: u8,
    /// How often the first die can still be played.
    pub first_left: u8,
    /// How often the second die can still be played; a double is counted under the
    /// first die alone.
    pub second_left: u8,
}

impl Dice {
    /// The roll `a`, `b` before any of it is played.
    pub open spec fn cast(a: u8, b: u8) -> Dice {
        if a == b {
            Dice { first: a, second: b, first_left: 4, second_left: 0 }
        } else {
            Dice { first: a, second: b, first_left: 1, second_left: 1 }
        }
    }

    /// How many plays of length `cast` the roll still allows.
    pub open spec fn count(self, cast: u8) -> nat {
        (if self.first == cast {
            self.first_left as nat
        } else {
            0
        }) + (if self.second == cast {
            self.second_left as nat
        } else {
            0
        })
    }

    /// How many plays the roll still allows in all.
    pub open spec fn total(self) -> nat {
        self.first_left as nat + self.second_left as nat
    }

    /// The longest play that the roll still allows, 0 if it allows none.
    pub open spec fn highest(self) -> u8 {
        if self.first_left > 0 && self.second_left > 0 {
            if self.first >= self.second {
                self.first
            } else {
                self.second
            }
        } else if self.first_left > 0 {
            self.first
        } else if self.second_left > 0 {
            self.second
        } else {
            0
        }
    }

    /// The roll after one play of length `cast`; the roll itself if it allows none.
    pub open spec fn without(self, cast: u8) -> Dice {
        if self.first == cast && self.first_left > 0 {
            Dice { first_left: (self.first_left - 1) as u8, ..self }
        } else if self.second == cast && self.second_left > 0 {
            Dice { second_left: (self.second_left - 1) as u8, ..self }
        } else {
            self
        }
    }

    /// The casts that are left, the first die's before the second's.
    pub open spec fn remaining(self) -> Seq<u8> {
        Seq::new(self.first_left as nat, |i: int| self.first) + Seq::new(
            self.second_left as nat,
            |i: int| self.second,
        )
    }

    /// The roll `dice`, with nothing played yet.
    pub fn from(dice: [u8; COUNT]) -> (r: Dice)
        ensures
            r == Dice::cast(dice[0], dice[1]),
    {
        if dice[0] == dice[1] {
            Dice { first: dice[0], second: dice[1], first_left: 4, second_left: 0 }
        } else {
            Dice { first: dice[0], second: dice[1], first_left: 1, second_left: 1 }
        }
    }

    /// Casts both dice.
    pub fn roll() -> (r: Dice)
        ensures
            1 <= r.first <= 6,
            1 <= r.second <= 6,
            r == Dice::cast(r.first, r.second),
    {
        let first = random_cast(SIDES);
        let second = random_cast(SIDES);
        Dice::from([first, second])
    }

    /// The two dice as they were cast.
    pub fn dice(&self) -> (r: [u8; COUNT])
        ensures
            r[0] == self.first,
            r[1] == self.second,
    {
        [self.first, self.second]
    }

    /// True if a play of length `cast` is left.
    pub fn check(&self, cast: u8) -> (r: bool)
        ensures
            r == (self.count(cast) > 0),
    {
        (self.first == cast && self.first_left > 0) || (self.second == cast && self.second_left
            > 0)
    }

    /// Takes one play of length `cast` from the roll.
    pub fn remove(&mut self, cast: u8)
        requires
            old(self).count(cast) > 0,
        ensures
            *final(self) == old(self).without(cast),
            forall|c: u8|
                #[trigger] final(self).count(c) == old(self).count(c) - (if c == cast {
                    1int
                } else {
                    0int
                }),
            final(self).total() == old(self).total() - 1,
    {
        if self.first == cast && self.first_left > 0 {
            self.first_left -= 1;
        } else {
            self.second_left -= 1;
        }
    }

    /// The casts that are left, one entry for each play that the roll allows.
    pub fn available_rolls(&self) -> (r: Vec<u8>)
        ensures
            r@ == self.remaining(),
            forall|c: u8| r@.contains(c) <==> self.count(c) > 0,
    {
        let mut rolls: Vec<u8> = Vec::new();
        let mut i: u8 = 0;
        while i < self.first_left
            invariant
                i <= self.first_left,
                rolls@ == Seq::new(i as nat, |k: int| self.first),
            decreases self.first_left - i,
        {
            rolls.push(self.first);
            i += 1;
            assert(rolls@ =~= Seq::new(i as nat, |k: int| self.first));
        }
        let ghost head = rolls@;
        let mut j: u8 = 0;
        while j < self.second_left
            invariant
                j <= self.second_left,
                head == Seq::new(self.first_left as nat, |k: int| self.first),
                rolls@ == head + Seq::new(j as nat, |k: int| self.second),
            decreases self.second_left - j,
        {
            rolls.push(self.second);
            j += 1;
            assert(rolls@ =~= head + Seq::new(j as nat, |k: int| self.second));
        }
        proof {
            self.lemma_remaining_counts();
        }
        rolls
    }

    /// True if any play is left.
    pub fn any_available(&self) -> (r: bool)
        ensures
            r == (self.total() > 0),
            r == exists|c: u8| self.count(c) > 0,
    {
        proof {
            if self.first_left > 0 {
                assert(self.count(self.first) > 0);
            }
            if self.second_left > 0 {
                assert(self.count(self.second) > 0);
            }
        }
        self.first_left > 0 || self.second_left > 0
    }

    /// Casts both dice anew.
    pub fn reroll(&mut self)
        ensures
            1 <= final(self).first <= 6,
            1 <= final(self).second <= 6,
            *final(self) == Dice::cast(final(self).first, final(self).second),
    {
        *self = Dice::roll();
    }

    /// A roll for the start of a game: two dice that differ. The second die is the
    /// first one moved on by one to five sides, so every pair of different casts
    /// is as likely as every other.
    pub fn first_roll() -> (r: Dice)
        ensures
            1 <= r.first <= 6,
            1 <= r.second <= 6,
            r.first != r.second,
            r == Dice::cast(r.first, r.second),
    {
        let first = random_cast(SIDES);
        let step = random_cast(SIDES - 1);
        let second = (first - 1 + step) % SIDES + 1;
        Dice::from([first, second])
    }

    /// The longest play that is left.
    pub fn max(&self) -> (r: u8)
        requires
            self.total() > 0,
        ensures
            r == self.highest(),
            self.count(r) > 0,
            forall|c: u8| self.count(c) > 0 ==> c <= r,
    {
        if self.first_left > 0 && self.second_left > 0 {
            if self.first >= self.second {
                self.first
            } else {
                self.second
            }
        } else if self.first_left > 0 {
            self.first
        } else {
            self.second
        }
    }

    /// A cast is among the remaining ones exactly if the roll still allows it.
    pub proof fn lemma_remaining_counts(self)
        ensures
            self.remaining().len() == self.total(),
            forall|c: u8| self.remaining().contains(c) <==> self.count(c) > 0,
    {
        let r = self.remaining();
        assert forall|c: u8| r.contains(c) <==> self.count(c) > 0 by {
            if self.count(c) > 0 {
                if self.first == c && self.first_left > 0 {
                    assert(r[0] == c);
                } else {
                    assert(r[self.first_left as int] == c);
                }
            }
        }
    }

    /// The two dice as numbers with a hyphen between them, as in `4-6`.
    pub fn to_string(&self) -> (r: String)
        ensures
            r@ == dice_text(self.first, self.second),
    {
        write_dice(self.first, self.second)
    }

    /// The two dice as faces with a hyphen between them; a value that no die has
    /// is shown as the game die.
    pub fn to_alternate_string(&self) -> (r: String)
        ensures
            r@ == dice_faces(self.first, self.second),
    {
        write_faces(self.first, self.second)
    }
}

} // verus!
