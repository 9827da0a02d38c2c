use vstd::prelude::*;

verus! {

/// One of the two sides, or `Nobody` for a point that no side holds.
///
/// `Black` moves towards lower absolute locations, `White` towards higher ones.
#[derive(Clone, Copy, Debug, PartialEq, Eq, Structural, Hash)]
pub enum Player {
    Black,
    White,
    Nobody,
}

/// Calls `rand::random::<bool>()`, which draws from the generator of the current
/// thread. Nothing is claimed of the value. The generator stops the program if
/// the system gives it no seed.
#[verifier::external_body]
fn random_flag() -> (r: bool) {
    rand::random::<bool>()
}

impl Player {
    /// The side that plays against `self`; `Nobody` has no opponent and stays `Nobody`.
    pub open spec fn opponent(self) -> Player {
        match self {
            Player::Black => Player::White,
            Player::White => Player::Black,
            Player::Nobody => Player::Nobody,
        }
    }

    /// The slot of this side in a two-element table: 0 for `Black`, 1 for `White`,
    /// 2 for `Nobody`.
    pub open spec fn ordinal(self) -> int {
        match self {
            Player::Black => 0,
            Player::White => 1,
            Player::Nobody => 2,
        }
    }

    /// True for the two sides that own pieces.
    pub open spec fn is_side(self) -> bool {
        self != Player::Nobody
    }

    /// Executable form of [`Player::ordinal`].
    pub fn index(self) -> (r: usize)
        ensures
            r == self.ordinal(),
    {
        match self {
            Player::Black => 0,
            Player::White => 1,
            Player::Nobody => 2,
        }
    }

    /// One of the two sides, chosen by chance.
    pub fn random() -> (r: Player)
        ensures
            r == Player::Black || r == Player::White,
    {
        Player::drawn(random_flag())
    }

    /// The side that a draw stands for: `Black` for `true`, `White` for `false`.
    pub open spec fn side_for(flag: bool) -> Player {
        if flag {
            Player::Black
        } else {
            Player::White
        }
    }

    /// The side that the draw `flag` chooses.
    pub fn drawn(flag: bool) -> (r: Player)
        ensures
            r == Player::side_for(flag),
    {
        if flag {
            Player::Black
        } else {
            Player::White
        }
    }

    /// The name of the side; the name of `Nobody` is `None`.
    pub open spec fn name(self) -> Seq<char> {
        match self {
            Player::Black => seq!['B', 'l', 'a', 'c', 'k'],
            Player::White => seq!['W', 'h', 'i', 't', 'e'],
            Player::Nobody => seq!['N', 'o', 'n', 'e'],
        }
    }

    /// The name of the side.
    pub fn to_string(&self) -> (r: String)
        ensures
            r@ == self.name(),
    {
        proof {
            reveal_strlit("Black");
            reveal_strlit("White");
            reveal_strlit("None");
        }
        let text = match self {
            Player::Black => "Black",
            Player::White => "White",
            Player::Nobody => "None",
        };
        assert(text@ =~= self.name());
        text.to_owned()
    }

    /// Hands the turn to the opponent.
    pub fn switch(&mut self)
        ensures
            *final(self) == old(self).opponent(),
    {
        *self = std::ops::Not::not(*self);
    }
}

impl std::ops::Not for Player {
    type Output = Player;

    /// Executable form of [`Player::opponent`].
    fn not(self) -> (r: Player) {
        match self {
            Player::Black => Player::White,
            Player::White => Player::Black,
            Player::Nobody => Player::Nobody,
        }
    }
}

impl vstd::std_specs::ops::NotSpecImpl for Player {
    open spec fn obeys_not_spec() -> bool {
        true
    }

    open spec fn not_req(self) -> bool {
        true
    }

    open spec fn not_spec(self) -> Player {
        self.opponent()
    }
}

/// Taking the opponent twice gives the side back, and the opponent of `Nobody` is `Nobody`.
pub proof fn lemma_opponent_involution(p: Player)
    ensures
        p.opponent().opponent() == p,
        Player::Nobody.opponent() == Player::Nobody,
        p.is_side() ==> p.opponent() != p && p.opponent().is_side(),
{
}

} // verus!
