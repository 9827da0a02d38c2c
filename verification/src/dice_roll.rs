use vstd::prelude::*;

use crate::render::{dice_faces, dice_text, write_dice, write_faces};

use crate::dice::random_cast;
use crate::error::Error;

verus! {

/// Number of dice used in the game.
pub const COUNT: usize = 2;

/// Number of sides on each die.
pub const SIDES: u8 = 6;

/// The plays that the roll `a`, `b` allows, in ascending order: each die once, a
/// double four times.
pub open spec fn available_of(a: u8, b: u8) -> Seq<u8> {
    if a == b {
        seq![a, a, a, a]
    } else if a < b {
        seq![a, b]
    } else {
        seq![b, a]
    }
}

/// True if `s` ascends.
pub open spec fn ascending(s: Seq<u8>) -> bool {
    forall|i: int, j: int| 0 <= i <= j < s.len() ==> s[i] <= s[j]
}

/// The place of the first `value` in `s`, or the length of `s` if it holds none.
pub open spec fn first_place(s: Seq<u8>, value: u8) -> int
    decreases s.len(),
{
    if s.len() == 0 {
        0
    } else if s[0] == value {
        0
    } else {
        1 + first_place(s.drop_first(), value)
    }
}

/// The largest entry of `s`, 0 for an empty `s`.
pub open spec fn largest(s: Seq<u8>) -> u8
    decreases s.len(),
{
    if s.len() == 0 {
        0
    } else {
        let rest = largest(s.drop_last());
        if s.last() >= rest {
            s.last()
        } else {
            rest
        }
    }
}

/// The dice of a turn: the two values as cast, and the lengths that can still be
/// played, in ascending order.
#[derive(Clone, Debug, PartialEq, Eq)]
pub struct DiceRoll {
    /// The values of the dice as cast.
    pub dice: [u8; COUNT],
    /// The lengths that can still be played, one entry for each use, ascending.
    pub available: Vec<u8>,
}

impl View for DiceRoll {
    type V = Seq<u8>;

    /// The lengths that can still be played.
    open spec fn view(&self) -> Seq<u8> {
        self.available@
    }
}

impl Default for DiceRoll {
    /// Casts both dice.
    fn default() -> (r: DiceRoll)
        ensures
            1 <= r.dice[0] <= 6,
            1 <= r.dice[1] <= 6,
            r@ == available_of(r.dice[0], r.dice[1]),
    {
        let first = random_cast(SIDES);
        let second = random_cast(SIDES);
        DiceRoll::from([first, second])
    }
}

impl DiceRoll {
    /// Casts both dice.
    pub fn new() -> (r: DiceRoll)
        ensures
            1 <= r.dice[0] <= 6,
            1 <= r.dice[1] <= 6,
            r@ == available_of(r.dice[0], r.dice[1]),
    {
        let first = random_cast(SIDES);
        let second = random_cast(SIDES);
        DiceRoll::from([first, second])
    }

    /// A roll for the start of a game: two dice that differ. The second die is the
    /// first one moved on by one to five sides, so every pair of different casts
    /// is as likely as every other.
    pub fn opening() -> (r: DiceRoll)
        ensures
            1 <= r.dice[0] <= 6,
            1 <= r.dice[1] <= 6,
            r.dice[0] != r.dice[1],
            r@ == available_of(r.dice[0], r.dice[1]),
            r@.len() == 2,
    {
        let first = random_cast(SIDES);
        let step = random_cast(SIDES - 1);
        let second = (first - 1 + step) % SIDES + 1;
        DiceRoll::from([first, second])
    }

    /// The roll `values`, with nothing played yet.
    pub fn from(values: [u8; COUNT]) -> (r: DiceRoll)
        ensures
            r.dice == values,
            r@ == available_of(values[0], values[1]),
            ascending(r@),
    {
        let available = DiceRoll::calculate_available(values);
        DiceRoll { dice: values, available }
    }

    /// The lengths that the roll `values` allows: each die once, a double four
    /// times, in ascending order.
    pub fn calculate_available(values: [u8; COUNT]) -> (r: Vec<u8>)
        ensures
            r@ == available_of(values[0], values[1]),
            ascending(r@),
    {
        let a = values[0];
        let b = values[1];
        let mut available: Vec<u8> = Vec::new();
        if a == b {
            available.push(a);
            available.push(a);
            available.push(a);
            available.push(a);
        } else if a < b {
            available.push(a);
            available.push(b);
        } else {
            available.push(b);
            available.push(a);
        }
        assert(available@ =~= available_of(a, b));
        available
    }

    /// True if any length can still be played.
    pub fn any_available(&self) -> (r: bool)
        ensures
            r == (self@.len() > 0),
    {
        self.available.len() > 0
    }

    /// True if `value` can still be played.
    pub fn contains(&self, value: u8) -> (r: bool)
        ensures
            r == self@.contains(value),
    {
        let mut i: usize = 0;
        while i < self.available.len()
            invariant
                i <= self.available.len(),
                forall|k: int| 0 <= k < i ==> self.available@[k] != value,
            decreases self.available.len() - i,
        {
            if self.available[i] == value {
                return true;
            }
            i += 1;
        }
        false
    }

    /// Uses up one play of length `value`: the first entry that equals it leaves
    /// the list. Without such an entry nothing changes and the length is reported.
    pub fn consume(&mut self, value: u8) -> (r: Result<(), Error>)
        ensures
            final(self).dice == old(self).dice,
            old(self)@.contains(value) ==> r == Ok::<(), Error>(()) && final(self)@ == old(
                self,
            )@.remove(first_place(old(self)@, value)) && 0 <= first_place(old(self)@, value)
                < old(self)@.len(),
            !old(self)@.contains(value) ==> r == Err::<(), Error>(Error::InvalidPlayLength(value))
                && final(self)@ == old(self)@,
            ascending(old(self)@) ==> ascending(final(self)@),
    {
        let mut i: usize = 0;
        assert(self@.skip(0) =~= self@);
        while i < self.available.len()
            invariant
                i <= self.available.len(),
                *self == *old(self),
                forall|k: int| 0 <= k < i ==> self.available@[k] != value,
                first_place(self@, value) == i + first_place(self@.skip(i as int), value),
            decreases self.available.len() - i,
        {
            if self.available[i] == value {
                assert(self@.skip(i as int)[0] == value);
                self.available.remove(i);
                return Ok(());
            }
            proof {
                let tail = self@.skip(i as int);
                assert(tail[0] == self@[i as int]);
                assert(tail.drop_first() =~= self@.skip(i + 1));
            }
            i += 1;
        }
        Err(Error::InvalidPlayLength(value))
    }

    /// The longest play that is left, 0 if none is.
    pub fn max(&self) -> (r: u8)
        ensures
            r == largest(self@),
            self@.len() == 0 ==> r == 0,
            self@.len() > 0 ==> self@.contains(r),
            forall|k: int| 0 <= k < self@.len() ==> self@[k] <= r,
    {
        let mut best: u8 = 0;
        let mut i: usize = 0;
        while i < self.available.len()
            invariant
                i <= self.available.len(),
                best == largest(self@.take(i as int)),
                i > 0 ==> self@.take(i as int).contains(best),
                i == 0 ==> best == 0,
                forall|k: int| 0 <= k < i ==> self@[k] <= best,
            decreases self.available.len() - i,
        {
            proof {
                let next = self@.take(i + 1);
                assert(next.drop_last() =~= self@.take(i as int));
                assert(next.last() == self@[i as int]);
                if i > 0 {
                    let w = choose|w: int|
                        0 <= w < self@.take(i as int).len() && self@.take(i as int)[w] == best;
                    assert(next[w] == best);
                }
                assert(next[i as int] == self@[i as int]);
            }
            if self.available[i] >= best {
                best = self.available[i];
            }
            i += 1;
        }
        proof {
            assert(self@.take(i as int) =~= self@);
        }
        best
    }

    /// The lengths that can still be played, in ascending order.
    pub fn iter(&self) -> (r: &Vec<u8>)
        ensures
            r@ == self@,
    {
        &self.available
    }

    /// The two dice as numbers with a hyphen between them, as in `4-6`.
    pub fn to_string(&self) -> (r: String)
        ensures
            r@ == dice_text(self.dice[0], self.dice[1]),
    {
        write_dice(self.dice[0], self.dice[1])
    }

    /// The two dice as faces with a hyphen between them; a value that no die has
    /// is shown as the game die.
    pub fn to_alternate_string(&self) -> (r: String)
        ensures
            r@ == dice_faces(self.dice[0], self.dice[1]),
    {
        write_faces(self.dice[0], self.dice[1])
    }
}

} // verus!
