use vstd::prelude::*;

use crate::dice::Dice;
use crate::error::Error;
use crate::game::{Game, GameView};
use crate::notation::{parse_spec, turn_distance, Notation, Play, Turn};
use crate::player::Player;
use crate::round_trip::lemma_parsed_plays_wf;

verus! {

impl GameView {
    /// The first rule that `plays` break when they are made one after the other,
    /// each on the game that the plays before it leave; `None` if none is broken.
    pub open spec fn first_error(self, plays: Seq<Play>) -> Option<Error>
        decreases plays.len(),
    {
        if plays.len() == 0 {
            None
        } else {
            match self.play_error(plays[0]) {
                Some(e) => Some(e),
                None => self.after(plays[0]).first_error(plays.drop_first()),
            }
        }
    }

    /// The game once `plays` are made one after the other.
    pub open spec fn after_all(self, plays: Seq<Play>) -> GameView
        decreases plays.len(),
    {
        if plays.len() == 0 {
            self
        } else {
            self.after(plays[0]).after_all(plays.drop_first())
        }
    }

    /// True if each of `plays` is legal on the game that the plays before it leave.
    pub open spec fn playable(self, plays: Seq<Play>) -> bool
        decreases plays.len(),
    {
        if plays.len() == 0 {
            true
        } else {
            self.legal(plays[0]) && self.after(plays[0]).playable(plays.drop_first())
        }
    }

    /// True if the side to move has no legal play.
    pub open spec fn stuck(self) -> bool {
        forall|q: Play| !self.legal(q)
    }

    /// True if `plays` can be made one after the other and leave no legal play.
    pub open spec fn complete(self, plays: Seq<Play>) -> bool {
        self.playable(plays) && self.after_all(plays).stuck()
    }

    /// True if no complete turn covers more pips than `plays`.
    pub open spec fn maximal(self, plays: Seq<Play>) -> bool {
        forall|other: Seq<Play>|
            #[trigger] self.complete(other) ==> turn_distance(other) <= turn_distance(plays)
    }

    /// What a turn of `plays` deserves: the first rule that one of its plays
    /// breaks; else `IncompleteTurn` if a legal play is left after it; else
    /// `NonMaximalTurn` if some complete turn covers more pips; else `Ok`.
    pub open spec fn turn_verdict(self, plays: Seq<Play>) -> Result<(), Error> {
        match self.first_error(plays) {
            Some(e) => Err(e),
            None => if !self.after_all(plays).stuck() {
                Err(Error::IncompleteTurn)
            } else if !self.maximal(plays) {
                Err(Error::NonMaximalTurn)
            } else {
                Ok(())
            },
        }
    }

    /// Plays that can be made one after the other keep the game in order, leave
    /// each side with the pieces that it had, name spaces of the board, and are
    /// no more than the casts that were left.
    pub proof fn lemma_playable(self, plays: Seq<Play>)
        requires
            self.wf(),
            self.playable(plays),
        ensures
            self.after_all(plays).wf(),
            self.after_all(plays).current_player == self.current_player,
            self.after_all(plays).board.total(Player::Black) == self.board.total(Player::Black),
            self.after_all(plays).board.total(Player::White) == self.board.total(Player::White),
            self.after_all(plays).current_roll.total() + plays.len()
                == self.current_roll.total(),
            forall|i: int| 0 <= i < plays.len() ==> (#[trigger] plays[i]).wf(),
            self.first_error(plays) is None,
            0 <= turn_distance(plays) <= 25 * plays.len(),
        decreases plays.len(),
    {
        if plays.len() > 0 {
            self.lemma_after(plays[0]);
            let rest = plays.drop_first();
            self.after(plays[0]).lemma_playable(rest);
            assert forall|i: int| 0 <= i < plays.len() implies (#[trigger] plays[i]).wf() by {
                if i > 0 {
                    assert(plays[i] == rest[i - 1]);
                }
            }
        }
    }

    /// Plays that name spaces of the board can be made one after the other
    /// exactly if they break no rule.
    pub proof fn lemma_first_error(self, plays: Seq<Play>)
        requires
            forall|i: int| 0 <= i < plays.len() ==> (#[trigger] plays[i]).wf(),
        ensures
            self.playable(plays) <==> self.first_error(plays) is None,
        decreases plays.len(),
    {
        if plays.len() > 0 {
            let rest = plays.drop_first();
            assert(plays[0].wf());
            assert forall|i: int| 0 <= i < rest.len() implies (#[trigger] rest[i]).wf() by {
                assert(rest[i] == plays[i + 1]);
            }
            self.after(plays[0]).lemma_first_error(rest);
        }
    }
}

/// True if one of `turns` holds the plays `s`.
pub open spec fn lists(turns: Seq<Turn>, s: Seq<Play>) -> bool {
    exists|k: int| 0 <= k < turns.len() && (#[trigger] turns[k])@ == s
}

/// True if no two of `turns` hold the same plays.
pub open spec fn distinct(turns: Seq<Turn>) -> bool {
    forall|i: int, j: int|
        0 <= i < j < turns.len() ==> (#[trigger] turns[i])@ != (#[trigger] turns[j])@
}

/// True if `s` starts with one of the first `i` of `plays` and goes on with a
/// complete turn of the game that this play leaves.
pub open spec fn begun(game: GameView, plays: Seq<Play>, i: int, s: Seq<Play>) -> bool {
    s.len() > 0 && exists|j: int|
        0 <= j < i && (#[trigger] plays[j]) == s[0] && game.after(plays[j]).complete(
            s.drop_first(),
        )
}

/// True if `s` is `play` followed by one of the first `m` of `sub`.
pub open spec fn extended(play: Play, sub: Seq<Turn>, m: int, s: Seq<Play>) -> bool {
    exists|n: int| 0 <= n < m && s == seq![play] + (#[trigger] sub[n])@
}

/// The plays `rest` with `play` before them.
pub fn prepend(play: Play, rest: &Vec<Play>) -> (r: Vec<Play>)
    ensures
        r@ == seq![play] + rest@,
{
    let mut line: Vec<Play> = Vec::new();
    line.push(play);
    let mut i: usize = 0;
    while i < rest.len()
        invariant
            i <= rest.len(),
            line@ == seq![play] + rest@.take(i as int),
        decreases rest.len() - i,
    {
        line.push(rest[i]);
        i += 1;
        assert(line@ =~= seq![play] + rest@.take(i as int));
    }
    assert(rest@.take(i as int) =~= rest@);
    line
}

/// A copy of `plays`.
pub fn copy_plays(plays: &Vec<Play>) -> (r: Vec<Play>)
    ensures
        r@ == plays@,
{
    let mut line: Vec<Play> = Vec::new();
    let mut i: usize = 0;
    while i < plays.len()
        invariant
            i <= plays.len(),
            line@ == plays@.take(i as int),
        decreases plays.len() - i,
    {
        line.push(plays[i]);
        i += 1;
        assert(line@ =~= plays@.take(i as int));
    }
    assert(plays@.take(i as int) =~= plays@);
    line
}

/// True if `a` and `b` hold the same plays in the same order.
pub fn same_plays(a: &Vec<Play>, b: &Vec<Play>) -> (r: bool)
    ensures
        r == (a@ == b@),
{
    if a.len() != b.len() {
        return false;
    }
    let mut i: usize = 0;
    while i < a.len()
        invariant
            i <= a.len(),
            a.len() == b.len(),
            forall|k: int| 0 <= k < i ==> a@[k] == b@[k],
        decreases a.len() - i,
    {
        if a[i] != b[i] {
            return false;
        }
        i += 1;
    }
    assert(a@ =~= b@);
    true
}

/// True if one of `turns` holds the plays of `turn`.
pub fn contains_turn(turns: &Vec<Turn>, turn: &Turn) -> (r: bool)
    ensures
        r == lists(turns@, turn@),
{
    let mut k: usize = 0;
    while k < turns.len()
        invariant
            k <= turns.len(),
            forall|j: int| 0 <= j < k ==> (#[trigger] turns@[j])@ != turn@,
        decreases turns.len() - k,
    {
        if same_plays(&turns[k].0, &turn.0) {
            return true;
        }
        k += 1;
    }
    false
}

/// Every way to play the roll out: each sequence of plays that can be made one
/// after the other and leaves no legal play, once.
pub fn all_turns(game: &Game) -> (r: Vec<Turn>)
    requires
        game@.wf(),
    ensures
        distinct(r@),
        forall|s: Seq<Play>| #![trigger lists(r@, s)] lists(r@, s) <==> game@.complete(s),
    decreases game@.current_roll.total(),
{
    let plays = game.get_available_plays();
    let mut turns: Vec<Turn> = Vec::new();
    if plays.len() == 0 {
        turns.push(Turn(Vec::new()));
        proof {
            assert forall|s: Seq<Play>| #![trigger lists(turns@, s)]
                lists(turns@, s) <==> game@.complete(s) by {
                if s.len() > 0 {
                    if game@.complete(s) {
                        assert(plays@.contains(s[0]));
                    }
                } else {
                    assert(s =~= Seq::<Play>::empty());
                    assert(turns@[0]@ =~= s);
                    assert forall|q: Play| !game@.legal(q) by {
                        if game@.legal(q) {
                            assert(plays@.contains(q));
                        }
                    }
                    assert(game@.after_all(s) == game@);
                }
            }
        }
        return turns;
    }
    let mut i: usize = 0;
    while i < plays.len()
        invariant
            i <= plays.len(),
            game@.wf(),
            plays@.no_duplicates(),
            forall|q: Play| plays@.contains(q) <==> game@.legal(q),
            distinct(turns@),
            forall|s: Seq<Play>|
                #![trigger lists(turns@, s)]
                lists(turns@, s) <==> begun(game@, plays@, i as int, s),
        decreases plays.len() - i,
    {
        let play = plays[i];
        assert(plays@.contains(play));
        let mut next = *game;
        next.make_play(&play);
        let sub = all_turns(&next);
        let ghost before = turns@;
        let mut m: usize = 0;
        while m < sub.len()
            invariant
                m <= sub.len(),
                0 <= i < plays.len(),
                play == plays@[i as int],
                plays@.no_duplicates(),
                distinct(sub@),
                distinct(before),
                distinct(turns@),
                forall|s: Seq<Play>|
                    #![trigger lists(before, s)]
                    lists(before, s) <==> begun(game@, plays@, i as int, s),
                forall|s: Seq<Play>|
                    #![trigger lists(turns@, s)]
                    lists(turns@, s) <==> lists(before, s) || extended(play, sub@, m as int, s),
            decreases sub.len() - m,
        {
            let line = Turn(prepend(play, &sub[m].0));
            let ghost earlier = turns@;
            turns.push(line);
            proof {
                let fresh = seq![play] + sub@[m as int]@;
                assert(turns@.last()@ == fresh);
                assert(turns@.drop_last() =~= earlier);
                assert(fresh[0] == play);
                assert(fresh.drop_first() =~= sub@[m as int]@);
                // The new turn is none of the earlier ones.
                if lists(earlier, fresh) {
                    if lists(before, fresh) {
                        assert(begun(game@, plays@, i as int, fresh));
                        let j = choose|j: int|
                            0 <= j < i && (#[trigger] plays@[j]) == fresh[0] && game@.after(
                                plays@[j],
                            ).complete(fresh.drop_first());
                        assert(plays@[j] == plays@[i as int]);
                        assert(false);
                    } else {
                        assert(extended(play, sub@, m as int, fresh));
                        let n = choose|n: int|
                            0 <= n < m && fresh == seq![play] + (#[trigger] sub@[n])@;
                        assert((seq![play] + sub@[n]@).drop_first() =~= sub@[n]@);
                        assert(sub@[n]@ == sub@[m as int]@);
                        assert(false);
                    }
                }
                assert(distinct(turns@)) by {
                    assert forall|a: int, b: int| 0 <= a < b < turns@.len() implies (
                    #[trigger] turns@[a])@ != (#[trigger] turns@[b])@ by {
                        if b < earlier.len() {
                            assert(turns@[a] == earlier[a]);
                            assert(turns@[b] == earlier[b]);
                        } else {
                            assert(turns@[a] == earlier[a]);
                            if turns@[a]@ == fresh {
                                assert(lists(earlier, fresh));
                            }
                        }
                    }
                }
                assert forall|s: Seq<Play>| #![trigger lists(turns@, s)]
                    lists(turns@, s) <==> lists(before, s) || extended(
                        play,
                        sub@,
                        m + 1,
                        s,
                    ) by {
                    assert(lists(earlier, s) <==> lists(before, s) || extended(
                        play,
                        sub@,
                        m as int,
                        s,
                    ));
                    if lists(earlier, s) {
                        let k = choose|k: int|
                            0 <= k < earlier.len() && (#[trigger] earlier[k])@ == s;
                        assert(turns@[k] == earlier[k]);
                    }
                    if lists(turns@, s) {
                        let k = choose|k: int| 0 <= k < turns@.len() && (#[trigger] turns@[k])@ == s;
                        if k < earlier.len() {
                            assert(turns@[k] == earlier[k]);
                            assert(lists(earlier, s));
                        } else {
                            assert(s == seq![play] + sub@[m as int]@);
                        }
                    }
                    if extended(play, sub@, m as int, s) {
                        let n = choose|n: int| 0 <= n < m && s == seq![play] + (#[trigger] sub@[n])@;
                        assert(0 <= n < m + 1);
                    }
                    if extended(play, sub@, m + 1, s) {
                        let n = choose|n: int|
                            0 <= n < m + 1 && s == seq![play] + (#[trigger] sub@[n])@;
                        if n < m {
                            assert(extended(play, sub@, m as int, s));
                        } else {
                            assert(turns@[turns@.len() - 1]@ == s);
                        }
                    }
                }
            }
            m += 1;
        }
        proof {
            assert forall|s: Seq<Play>| #![trigger lists(turns@, s)]
                lists(turns@, s) <==> begun(game@, plays@, i + 1, s) by {
                assert(lists(before, s) <==> begun(game@, plays@, i as int, s));
                if begun(game@, plays@, i as int, s) {
                    let j = choose|j: int|
                        0 <= j < i && (#[trigger] plays@[j]) == s[0] && game@.after(
                            plays@[j],
                        ).complete(s.drop_first());
                    assert(0 <= j < i + 1);
                }
                if extended(play, sub@, sub@.len() as int, s) {
                    let n = choose|n: int|
                        0 <= n < sub@.len() && s == seq![play] + (#[trigger] sub@[n])@;
                    assert(s[0] == play);
                    assert(s.drop_first() =~= sub@[n]@);
                    assert(lists(sub@, s.drop_first()));
                    assert(plays@[i as int] == s[0]);
                }
                if begun(game@, plays@, i + 1, s) {
                    let j = choose|j: int|
                        0 <= j < i + 1 && (#[trigger] plays@[j]) == s[0] && game@.after(
                            plays@[j],
                        ).complete(s.drop_first());
                    if j < i {
                        assert(begun(game@, plays@, i as int, s));
                    } else {
                        assert(lists(sub@, s.drop_first()));
                        let n = choose|n: int|
                            0 <= n < sub@.len() && (#[trigger] sub@[n])@ == s.drop_first();
                        assert(s =~= seq![play] + sub@[n]@);
                        assert(extended(play, sub@, sub@.len() as int, s));
                    }
                }
            }
        }
        i += 1;
    }
    proof {
        assert forall|s: Seq<Play>| #![trigger lists(turns@, s)]
            lists(turns@, s) <==> game@.complete(s) by {
            assert(lists(turns@, s) <==> begun(game@, plays@, plays@.len() as int, s));
            assert(game@.legal(plays@[0])) by {
                assert(plays@.contains(plays@[0]));
            }
            if s.len() > 0 {
                if game@.complete(s) {
                    assert(plays@.contains(s[0]));
                    assert(begun(game@, plays@, plays@.len() as int, s));
                }
                if begun(game@, plays@, plays@.len() as int, s) {
                    let j = choose|j: int|
                        0 <= j < plays@.len() && (#[trigger] plays@[j]) == s[0] && game@.after(
                            plays@[j],
                        ).complete(s.drop_first());
                    assert(plays@.contains(plays@[j]));
                }
            } else {
                assert(game@.after_all(s) == game@);
            }
        }
    }
    turns
}

impl Game {
    /// The turns that the side to move may take: every complete turn that covers
    /// as many pips as any, each once.
    pub fn get_available_turns(&self) -> (r: Vec<Turn>)
        requires
            self@.wf(),
        ensures
            distinct(r@),
            forall|s: Seq<Play>|
                #![trigger lists(r@, s)]
                lists(r@, s) <==> self@.complete(s) && self@.maximal(s),
    {
        let all = all_turns(self);
        proof {
            assert forall|k: int| 0 <= k < all@.len() implies self@.playable(
                (#[trigger] all@[k])@,
            ) by {
                assert(lists(all@, all@[k]@));
            }
        }
        let mut best: usize = 0;
        let mut k: usize = 0;
        while k < all.len()
            invariant
                k <= all.len(),
                self@.wf(),
                forall|j: int| 0 <= j < all@.len() ==> self@.playable((#[trigger] all@[j])@),
                forall|j: int| 0 <= j < k ==> turn_distance((#[trigger] all@[j])@) <= best,
                k == 0 ==> best == 0,
                k > 0 ==> exists|j: int| 0 <= j < k && turn_distance((#[trigger] all@[j])@) == best,
            decreases all.len() - k,
        {
            proof {
                self@.lemma_playable(all@[k as int]@);
            }
            let d = all[k].distance(&self.board);
            if d > best || k == 0 {
                best = d;
            }
            k += 1;
        }
        let mut turns: Vec<Turn> = Vec::new();
        let mut n: usize = 0;
        while n < all.len()
            invariant
                n <= all.len(),
                self@.wf(),
                distinct(all@),
                turns@.len() <= n,
                forall|j: int| 0 <= j < all@.len() ==> self@.playable((#[trigger] all@[j])@),
                forall|j: int|
                    0 <= j < all@.len() ==> turn_distance((#[trigger] all@[j])@) <= best,
                all@.len() > 0 ==> exists|j: int|
                    0 <= j < all@.len() && turn_distance((#[trigger] all@[j])@) == best,
                forall|s: Seq<Play>|
                    #![trigger lists(turns@, s)]
                    lists(turns@, s) <==> turn_distance(s) == best && exists|j: int|
                        0 <= j < n && (#[trigger] all@[j])@ == s,
                distinct(turns@),
            decreases all.len() - n,
        {
            proof {
                self@.lemma_playable(all@[n as int]@);
            }
            let ghost earlier = turns@;
            let d = all[n].distance(&self.board);
            if d == best {
                turns.push(Turn(copy_plays(&all[n].0)));
                proof {
                    assert(turns@.drop_last() =~= earlier);
                    assert(turns@.last()@ == all@[n as int]@);
                }
            }
            proof {
                let fresh = all@[n as int]@;
                assert forall|s: Seq<Play>| #![trigger lists(turns@, s)]
                    lists(turns@, s) <==> turn_distance(s) == best && exists|j: int|
                        0 <= j < n + 1 && (#[trigger] all@[j])@ == s by {
                    assert(lists(earlier, s) <==> turn_distance(s) == best && exists|j: int|
                        0 <= j < n && (#[trigger] all@[j])@ == s);
                    if lists(earlier, s) {
                        let w = choose|w: int|
                            0 <= w < earlier.len() && (#[trigger] earlier[w])@ == s;
                        assert(turns@[w] == earlier[w]);
                        let j = choose|j: int| 0 <= j < n && (#[trigger] all@[j])@ == s;
                        assert(0 <= j < n + 1);
                    }
                    if lists(turns@, s) && !lists(earlier, s) {
                        let w = choose|w: int| 0 <= w < turns@.len() && (#[trigger] turns@[w])@ == s;
                        if w < earlier.len() {
                            assert(turns@[w] == earlier[w]);
                        }
                        assert(all@[n as int]@ == s);
                    }
                    if turn_distance(s) == best && exists|j: int|
                        0 <= j < n + 1 && (#[trigger] all@[j])@ == s {
                        let j = choose|j: int| 0 <= j < n + 1 && (#[trigger] all@[j])@ == s;
                        if j < n {
                            assert(lists(earlier, s));
                        } else {
                            assert(turns@[turns@.len() - 1]@ == s);
                        }
                    }
                }
                assert(distinct(turns@)) by {
                    assert forall|a: int, b: int| 0 <= a < b < turns@.len() implies (
                    #[trigger] turns@[a])@ != (#[trigger] turns@[b])@ by {
                        if b < earlier.len() {
                            assert(turns@[a] == earlier[a]);
                            assert(turns@[b] == earlier[b]);
                        } else {
                            assert(turns@[a] == earlier[a]);
                            assert(lists(earlier, turns@[a]@));
                            let j = choose|j: int|
                                0 <= j < n && (#[trigger] all@[j])@ == turns@[a]@;
                            assert(all@[j]@ != all@[n as int]@);
                        }
                    }
                }
            }
            n += 1;
        }
        proof {
            assert forall|s: Seq<Play>| #![trigger lists(turns@, s)]
                lists(turns@, s) <==> self@.complete(s) && self@.maximal(s) by {
                assert(lists(all@, s) <==> self@.complete(s));
                if lists(turns@, s) {
                    assert(lists(all@, s));
                    assert forall|other: Seq<Play>| #[trigger]
                        self@.complete(other) implies turn_distance(other) <= turn_distance(
                        s,
                    ) by {
                        assert(lists(all@, other));
                    }
                }
                if self@.complete(s) && self@.maximal(s) {
                    assert(lists(all@, s));
                    let j = choose|j: int| 0 <= j < all@.len() && (#[trigger] all@[j])@ == s;
                    let top = choose|j: int|
                        0 <= j < all@.len() && turn_distance((#[trigger] all@[j])@) == best;
                    assert(lists(all@, all@[top]@));
                    assert(self@.complete(all@[top]@));
                    assert(turn_distance(all@[j]@) <= best);
                }
            }
        }
        turns
    }

    /// Makes the plays of `turn` one after the other; each must be legal when its
    /// time comes.
    pub fn take_turn(&mut self, turn: &Turn)
        requires
            old(self)@.wf(),
            old(self)@.playable(turn@),
        ensures
            final(self)@ == old(self)@.after_all(turn@),
            final(self)@.wf(),
            final(self)@.board.total(Player::Black) == old(self)@.board.total(Player::Black),
            final(self)@.board.total(Player::White) == old(self)@.board.total(Player::White),
    {
        let ghost start = self@;
        let mut i: usize = 0;
        assert(turn@.skip(0) =~= turn@);
        while i < turn.0.len()
            invariant
                i <= turn@.len(),
                self@.wf(),
                self@.playable(turn@.skip(i as int)),
                start.after_all(turn@) == self@.after_all(turn@.skip(i as int)),
                self@.board.total(Player::Black) == start.board.total(Player::Black),
                self@.board.total(Player::White) == start.board.total(Player::White),
            decreases turn@.len() - i,
        {
            proof {
                assert(turn@.skip(i as int)[0] == turn@[i as int]);
                assert(turn@.skip(i as int).drop_first() =~= turn@.skip(i + 1));
            }
            self.make_play(&turn.0[i]);
            i += 1;
        }
    }

    /// Judges `turn`: reports the first rule that one of its plays breaks; else
    /// that it stops while a play could be made; else that another turn would
    /// cover more pips; else accepts it. The game itself stays as it is.
    pub fn check_turn(&self, turn: &Turn) -> (r: Result<(), Error>)
        requires
            self@.wf(),
            turn.wf(),
        ensures
            r == self@.turn_verdict(turn@),
            r is Ok ==> self@.complete(turn@) && self@.maximal(turn@),
    {
        let mut game = *self;
        let mut i: usize = 0;
        proof {
            assert(turn@.skip(0) =~= turn@);
            self@.lemma_first_error(turn@);
        }
        while i < turn.0.len()
            invariant
                i <= turn@.len(),
                game@.wf(),
                turn.wf(),
                self@.first_error(turn@) == game@.first_error(turn@.skip(i as int)),
                self@.after_all(turn@) == game@.after_all(turn@.skip(i as int)),
            decreases turn@.len() - i,
        {
            proof {
                assert(turn@.skip(i as int)[0] == turn@[i as int]);
                assert(turn@.skip(i as int).drop_first() =~= turn@.skip(i + 1));
                assert(turn@[i as int].wf());
            }
            match game.check_play(&turn.0[i]) {
                Err(e) => {
                    return Err(e);
                },
                Ok(_) => {
                    game.make_play(&turn.0[i]);
                },
            }
            i += 1;
        }
        let open = game.get_available_plays();
        proof {
            if open@.len() > 0 {
                assert(open@.contains(open@[0]));
                game@.lemma_legal_is_sound(open@[0]);
            } else {
                assert forall|q: Play| !game@.legal(q) by {
                    if game@.legal(q) {
                        assert(open@.contains(q));
                    }
                }
            }
        }
        if game.current_roll.any_available() && open.len() > 0 {
            return Err(Error::IncompleteTurn);
        }
        let turns = self.get_available_turns();
        if !contains_turn(&turns, turn) {
            return Err(Error::NonMaximalTurn);
        }
        Ok(())
    }
}

impl Game {
    /// True if the game is in order: one of the two sides is to move, the board is
    /// laid out as it should be with the owners that its pieces give it, and no
    /// side has more than 255 pieces.
    pub fn in_order(&self) -> (r: bool)
        ensures
            r == self@.wf(),
    {
        match self.current_player {
            Player::Nobody => false,
            _ => self.board.in_order() && self.board.pieces(Player::Black) <= 255
                && self.board.pieces(Player::White) <= 255,
        }
    }

    /// One round of the game: reads `input` as the turn of the side to move,
    /// judges it and, if it is accepted, makes it. The result is `true` if the
    /// side has then borne off all its pieces; if not, the dice are cast anew and
    /// the other side is to move. A text that is no turn and a turn that is
    /// refused are reported, and the game stays as it is.
    pub fn advance(&mut self, input: String) -> (r: Result<bool, Error>)
        requires
            old(self)@.wf(),
        ensures
            match parse_spec(input@, old(self).current_player) {
                Err(f) => r is Err && f.describes(r->Err_0) && *final(self) == *old(self),
                Ok(plays) => match old(self)@.turn_verdict(plays) {
                    Err(e) => r is Err && r->Err_0 == e && *final(self) == *old(self),
                    Ok(_) => {
                        let before = old(self)@;
                        let after = final(self)@;
                        &&& r is Ok
                        &&& after.wf()
                        &&& after.board == before.after_all(plays).board
                        &&& r->Ok_0 == after.board.borne_off(before.current_player)
                        &&& r->Ok_0 ==> after.current_player == before.current_player
                            && after.current_roll == before.after_all(plays).current_roll
                        &&& !r->Ok_0 ==> after.current_player == before.current_player.opponent()
                            && after.current_roll == Dice::cast(
                            after.current_roll.first,
                            after.current_roll.second,
                        ) && 1 <= after.current_roll.first <= 6 && 1 <= after.current_roll.second
                            <= 6
                    },
                },
            },
    {
        let player = self.current_player;
        let turn = match Notation::new(input, player).turn() {
            Err(e) => {
                return Err(e);
            },
            Ok(turn) => turn,
        };
        proof {
            lemma_parsed_plays_wf(input@, player);
        }
        match self.check_turn(&turn) {
            Err(e) => {
                return Err(e);
            },
            Ok(_) => {},
        }
        proof {
            self@.lemma_playable(turn@);
        }
        self.take_turn(&turn);
        let won = self.board.all_in_rail(player);
        if !won {
            self.change_turn();
        }
        Ok(won)
    }
}

/// A turn that is accepted covers as many pips as any complete turn: for every
/// game in order, if the verdict on `plays` is `Ok`, then `plays` are a complete
/// turn and no complete turn covers more pips; and where some complete turn
/// covers more, the verdict is an error.
pub proof fn lemma_accepted_turn_is_maximal(game: GameView, plays: Seq<Play>, other: Seq<Play>)
    requires
        game.wf(),
        forall|i: int| 0 <= i < plays.len() ==> (#[trigger] plays[i]).wf(),
        game.complete(other),
    ensures
        game.turn_verdict(plays) is Ok ==> game.complete(plays) && turn_distance(other)
            <= turn_distance(plays),
        turn_distance(other) > turn_distance(plays) ==> game.turn_verdict(plays) is Err,
{
    game.lemma_first_error(plays);
}

} // verus!
