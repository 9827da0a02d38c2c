use vstd::prelude::*;

use crate::board::{
    lemma_points_total_bound, lemma_with, points_total, Board, BoardView, BOARD_SIZE,
};
use crate::dice::Dice;
use crate::error::Error;
use crate::location::{
    index_of_normalized, normalized_of_denormalized, Index, Normalized,
};
use crate::notation::{Play, PositionRef};
use crate::player::Player;

verus! {

/// A game in progress: who is to move, what is left of the roll, and the board.
#[derive(Clone, Copy, Debug)]
pub struct Game {
    pub current_player: Player,
    pub current_roll: Dice,
    pub board: Board,
}

/// A game as contracts see it.
pub struct GameView {
    pub current_player: Player,
    pub current_roll: Dice,
    pub board: BoardView,
}

impl View for Game {
    type V = GameView;

    open spec fn view(&self) -> GameView {
        GameView {
            current_player: self.current_player,
            current_roll: self.current_roll,
            board: self.board@,
        }
    }
}

impl GameView {
    /// One of the two sides is to move, the board is laid out as it should be, its
    /// spaces have the owners that their pieces give them, and the pieces of each
    /// side can be counted in a byte.
    pub open spec fn wf(self) -> bool {
        &&& self.current_player != Player::Nobody
        &&& self.board.wf()
        &&& self.board.owners_consistent()
        &&& self.board.total(Player::Black) <= 255
        &&& self.board.total(Player::White) <= 255
    }

    /// True if `play` bears a piece off from a point with no piece of its player
    /// behind it, over a length that the longest remaining cast covers.
    pub open spec fn overshoot_allowed(self, play: Play) -> bool {
        &&& play.to is Rail
        &&& play.from is Point
        &&& !self.board.has_piece_behind(play.from->Point_0.0 as int, play.player)
        &&& play.length() <= self.current_roll.highest()
    }

    /// The first rule that `play` breaks, in the order in which the rules are
    /// tested; `None` if it breaks none.
    pub open spec fn play_error(self, play: Play) -> Option<Error> {
        let player = play.player;
        let from = self.board.at(play.from);
        let to = self.board.at(play.to);
        if self.current_player != player {
            Some(Error::PlayMadeOutOfTurn)
        } else if self.board.bar[player.ordinal()].count > 0 && !(play.from is Bar) {
            Some(Error::PlayMadeWithBarFilled)
        } else if play.from is Rail {
            Some(Error::PlayMadeFromRail)
        } else if play.to is Bar {
            Some(Error::PlayMadeToBar)
        } else if play.to is Rail && !self.board.home_only(player) {
            Some(Error::InvalidBearOff)
        } else if from.count == 0 {
            Some(Error::PlayMadeFromEmptyPoint)
        } else if from.player != player {
            Some(Error::PlayMadeWithOpposingPiece)
        } else if !play.forward() {
            Some(Error::InvalidPlayDirection)
        } else if to.player == player.opponent() && to.count > 1 {
            Some(Error::PlayMadeOntoOpposingPiece)
        } else if self.current_roll.count(play.length() as u8) == 0 && !self.overshoot_allowed(
            play,
        ) {
            Some(Error::InvalidPlayLength(play.length() as u8))
        } else {
            None
        }
    }

    /// True if `play` names spaces of the board and breaks no rule.
    pub open spec fn legal(self, play: Play) -> bool {
        play.wf() && self.play_error(play) is None
    }

    /// True if `play` lands on a single piece of the opponent.
    pub open spec fn hits(self, play: Play) -> bool {
        let to = self.board.at(play.to);
        to.player == play.player.opponent() && to.count == 1
    }

    /// The cast that `play` uses up: its own length if that is left, else the
    /// longest cast that is left.
    pub open spec fn cast_used(self, play: Play) -> u8 {
        if self.current_roll.count(play.length() as u8) > 0 {
            play.length() as u8
        } else {
            self.current_roll.highest()
        }
    }

    /// The board once `play` is made: a piece that is hit goes to its side's bar,
    /// the origin loses a piece, and its owner with its last piece unless it is a
    /// bar, and the destination holds one piece more, or one if a piece was hit,
    /// and belongs to the player.
    pub open spec fn board_after(self, play: Play) -> BoardView {
        let from = self.board.at(play.from);
        let to = self.board.at(play.to);
        let opponent = play.player.opponent();
        let bar = self.board.at(PositionRef::Bar(opponent));
        let hit_board = if self.hits(play) {
            self.board.with(
                PositionRef::Bar(opponent),
                bar.put((bar.count + 1) as u8, bar.player),
            )
        } else {
            self.board
        };
        let new_from = from.put(
            (from.count - 1) as u8,
            if from.count == 1 && !(play.from is Bar) {
                Player::Nobody
            } else {
                from.player
            },
        );
        let new_to = to.put(
            if self.hits(play) {
                1u8
            } else {
                (to.count + 1) as u8
            },
            play.player,
        );
        hit_board.with(play.from, new_from).with(play.to, new_to)
    }

    /// The game once `play` is made.
    pub open spec fn after(self, play: Play) -> GameView {
        GameView {
            current_player: self.current_player,
            current_roll: self.current_roll.without(self.cast_used(play)),
            board: self.board_after(play),
        }
    }
}

impl GameView {
    /// Where a piece of `player` lands that leaves `from` with the cast `roll`:
    /// on the point that many pips further on, or on the rail of `player` if the
    /// cast reaches or passes it.
    pub open spec fn destination(player: Player, from: PositionRef, roll: u8) -> PositionRef {
        let landing = normalized_of_denormalized(from.location(), player) - roll;
        if 1 <= landing <= 24 {
            PositionRef::Point(Index(index_of_normalized(landing, player) as usize))
        } else {
            PositionRef::Rail(player)
        }
    }

    /// The play of the side to move that leaves `from` with the cast `roll`.
    pub open spec fn candidate(self, from: PositionRef, roll: u8) -> Play {
        Play {
            player: self.current_player,
            from,
            to: GameView::destination(self.current_player, from, roll),
        }
    }

    /// True if `q` is the play from `from` with one of the first `k` casts of `rolls`.
    pub open spec fn reached(self, from: PositionRef, rolls: Seq<u8>, k: int, q: Play) -> bool {
        exists|j: int| 0 <= j < k && q == self.candidate(from, #[trigger] rolls[j])
    }

    /// The first `k + 1` casts are the first `k` and the one after them.
    pub proof fn lemma_reached_next(self, from: PositionRef, rolls: Seq<u8>, k: int, q: Play)
        requires
            0 <= k < rolls.len(),
        ensures
            self.reached(from, rolls, k + 1, q) <==> self.reached(from, rolls, k, q) || q
                == self.candidate(from, rolls[k]),
    {
        if self.reached(from, rolls, k + 1, q) {
            let j = choose|j: int| 0 <= j < k + 1 && q == self.candidate(from, #[trigger] rolls[j]);
            if j < k {
                assert(self.reached(from, rolls, k, q));
            }
        }
        if self.reached(from, rolls, k, q) {
            let j = choose|j: int| 0 <= j < k && q == self.candidate(from, #[trigger] rolls[j]);
            assert(0 <= j < k + 1);
        }
        if q == self.candidate(from, rolls[k]) {
            assert(0 <= k < k + 1 && q == self.candidate(from, rolls[k]));
        }
    }

    /// True if the side to move may start a play at `from`: at its bar while a
    /// piece stands there, else at a point that it owns.
    pub open spec fn origin(self, from: PositionRef) -> bool {
        let player = self.current_player;
        if self.board.bar[player.ordinal()].count > 0 {
            from == PositionRef::Bar(player)
        } else {
            from is Point && from.wf() && self.board.at(from).player == player
        }
    }

    /// Every legal play starts at an origin of the side to move and ends where
    /// the cast that it uses up takes it.
    pub proof fn lemma_legal_is_candidate(self, play: Play)
        requires
            self.wf(),
            self.legal(play),
        ensures
            self.origin(play.from),
            self.current_roll.count(self.cast_used(play)) > 0,
            play == self.candidate(play.from, self.cast_used(play)),
    {
        self.lemma_legal_is_sound(play);
        let player = play.player;
        assert(self.board.bar[player.ordinal()].player == player);
        if self.current_roll.count(play.length() as u8) == 0 {
            assert(self.overshoot_allowed(play));
        }
    }
}

impl Game {
    /// A new game: one of the two sides, chosen by chance, moves first, with two
    /// dice that differ, on the opening layout.
    pub fn new() -> (r: Game)
        ensures
            r@.wf(),
            r@.board == Board::start_view(),
            r@.board.total(Player::Black) == 15,
            r@.board.total(Player::White) == 15,
            1 <= r.current_roll.first <= 6,
            1 <= r.current_roll.second <= 6,
            r.current_roll.first != r.current_roll.second,
            r.current_roll == Dice::cast(r.current_roll.first, r.current_roll.second),
    {
        Game {
            current_player: Player::random(),
            current_roll: Dice::first_roll(),
            board: Board::new(),
        }
    }

    /// Ends the turn: casts the dice anew and lets the other side move.
    pub fn change_turn(&mut self)
        ensures
            final(self).current_player == old(self).current_player.opponent(),
            final(self).board == old(self).board,
            1 <= final(self).current_roll.first <= 6,
            1 <= final(self).current_roll.second <= 6,
            final(self).current_roll == Dice::cast(
                final(self).current_roll.first,
                final(self).current_roll.second,
            ),
    {
        self.current_roll.reroll();
        self.current_player.switch();
    }

    /// The game in which `current_player` is to move with `current_roll` on `board`.
    pub fn from(current_player: Player, current_roll: Dice, board: Board) -> (r: Game)
        ensures
            r == (Game { current_player, current_roll, board }),
    {
        Game { current_player, current_roll, board }
    }

    /// Tests `play` against the rules, in their order, and reports the first one
    /// that it breaks.
    pub fn check_play(&self, play: &Play) -> (r: Result<(), Error>)
        requires
            self@.wf(),
            play.wf(),
        ensures
            r is Ok <==> self@.play_error(*play) is None,
            r is Err ==> self@.play_error(*play) == Some(r->Err_0),
            r is Ok <==> self@.legal(*play),
    {
        let player = play.player;
        if self.current_player != player {
            return Err(Error::PlayMadeOutOfTurn);
        }
        let from_bar = match play.from {
            PositionRef::Bar(_) => true,
            _ => false,
        };
        let from_rail = match play.from {
            PositionRef::Rail(_) => true,
            _ => false,
        };
        let to_bar = match play.to {
            PositionRef::Bar(_) => true,
            _ => false,
        };
        let to_rail = match play.to {
            PositionRef::Rail(_) => true,
            _ => false,
        };
        if self.board.bar(player).count > 0 && !from_bar {
            return Err(Error::PlayMadeWithBarFilled);
        }
        if from_rail {
            return Err(Error::PlayMadeFromRail);
        }
        if to_bar {
            return Err(Error::PlayMadeToBar);
        }
        if to_rail && !self.board.all_in_home(player) {
            return Err(Error::InvalidBearOff);
        }
        let from = self.board.get(&play.from);
        let to = self.board.get(&play.to);
        if from.count == 0 {
            return Err(Error::PlayMadeFromEmptyPoint);
        }
        if from.player != player {
            return Err(Error::PlayMadeWithOpposingPiece);
        }
        if !play.is_valid_direction(&self.board) {
            return Err(Error::InvalidPlayDirection);
        }
        if to.player == std::ops::Not::not(player) && to.count > 1 {
            return Err(Error::PlayMadeOntoOpposingPiece);
        }
        proof {
            play.from.lemma_location(self@.board);
            play.to.lemma_location(self@.board);
        }
        let len: u8 = to.distance(from) as u8;
        if !self.current_roll.check(len) {
            let allowed = match play.from {
                PositionRef::Point(index) => to_rail && self.current_roll.any_available() && len
                    <= self.current_roll.max() && !self.board.any_behind(index.value(), player),
                _ => false,
            };
            if !allowed {
                return Err(Error::InvalidPlayLength(len));
            }
        }
        Ok(())
    }

    /// Where a piece of the side to move lands that leaves `from` with the cast
    /// `roll`.
    pub fn destination(&self, from: &PositionRef, roll: u8) -> (r: PositionRef)
        requires
            self@.wf(),
            from.wf(),
        ensures
            r == GameView::destination(self.current_player, *from, roll),
            r.wf(),
    {
        proof {
            from.lemma_location(self@.board);
        }
        let player = self.current_player;
        let start = self.board.get(from).location.normalize(player);
        if start.value() > roll as usize {
            let landing = Normalized(start.value() - roll as usize, player);
            match landing.to_index() {
                Ok(index) => PositionRef::Point(index),
                Err(_) => PositionRef::Rail(player),
            }
        } else {
            PositionRef::Rail(player)
        }
    }

    /// Adds to `plays` the legal plays that start at `from`, one for each cast of
    /// `rolls`, each play once.
    fn add_plays_from(&self, from: PositionRef, rolls: &Vec<u8>, plays: &mut Vec<Play>)
        requires
            self@.wf(),
            from.wf(),
            old(plays)@.no_duplicates(),
        ensures
            final(plays)@.no_duplicates(),
            forall|q: Play|
                #![trigger final(plays)@.contains(q)]
                final(plays)@.contains(q) <==> old(plays)@.contains(q) || (self@.legal(q)
                    && self@.reached(from, rolls@, rolls@.len() as int, q)),
    {
        let ghost start = plays@;
        let mut k: usize = 0;
        while k < rolls.len()
            invariant
                k <= rolls.len(),
                self@.wf(),
                from.wf(),
                plays@.no_duplicates(),
                forall|q: Play|
                    #![trigger plays@.contains(q)]
                    plays@.contains(q) <==> start.contains(q) || (self@.legal(q)
                        && self@.reached(from, rolls@, k as int, q)),
            decreases rolls.len() - k,
        {
            let to = self.destination(&from, rolls[k]);
            let play = Play::new(self.current_player, from, to);
            let ghost before = plays@;
            let wanted = match self.check_play(&play) {
                Ok(_) => true,
                Err(_) => false,
            };
            let known = contains_play(plays, &play);
            if wanted && !known {
                plays.push(play);
            }
            proof {
                assert forall|q: Play|
                    #![trigger plays@.contains(q)]
                    plays@.contains(q) <==> start.contains(q) || (self@.legal(q)
                        && self@.reached(from, rolls@, k + 1, q)) by {
                    self@.lemma_reached_next(from, rolls@, k as int, q);
                    if wanted && !known {
                        lemma_push_contains(before, play, q);
                    }
                }
            }
            k += 1;
        }
    }

    /// Every play that the side to move can make now, each once.
    pub fn get_available_plays(&self) -> (r: Vec<Play>)
        requires
            self@.wf(),
        ensures
            r@.no_duplicates(),
            forall|q: Play| r@.contains(q) <==> self@.legal(q),
    {
        let player = self.current_player;
        let rolls = self.current_roll.available_rolls();
        let mut plays: Vec<Play> = Vec::new();
        if self.board.bar(player).count > 0 {
            self.add_plays_from(PositionRef::Bar(player), &rolls, &mut plays);
            proof {
                assert forall|q: Play| self@.legal(q) implies plays@.contains(q) by {
                    self@.lemma_legal_is_candidate(q);
                    let c = self@.cast_used(q);
                    assert(rolls@.contains(c));
                    let w = choose|w: int| 0 <= w < rolls@.len() && rolls@[w] == c;
                    assert(q == self@.candidate(PositionRef::Bar(player), rolls@[w]));
                    assert(self@.reached(
                        PositionRef::Bar(player),
                        rolls@,
                        rolls@.len() as int,
                        q,
                    ));
                }
            }
        } else {
            let mut i: usize = 0;
            while i < BOARD_SIZE
                invariant
                    i <= 24,
                    self@.wf(),
                    player == self.current_player,
                    self@.board.bar[player.ordinal()].count == 0,
                    plays@.no_duplicates(),
                    forall|c: u8| rolls@.contains(c) <==> self@.current_roll.count(c) > 0,
                    forall|q: Play|
                        plays@.contains(q) <==> self@.legal(q) && q.from is Point
                            && q.from->Point_0.0 < i,
                decreases 24 - i,
            {
                let ghost before = plays@;
                if self.board.point(i).player == player {
                    self.add_plays_from(PositionRef::Point(Index(i)), &rolls, &mut plays);
                }
                proof {
                    assert forall|q: Play|
                        self@.legal(q) && q.from is Point && q.from->Point_0.0
                            < i + 1 implies plays@.contains(q) by {
                        if q.from->Point_0.0 == i {
                            self@.lemma_legal_is_candidate(q);
                            let c = self@.cast_used(q);
                            assert(rolls@.contains(c));
                            let w = choose|w: int| 0 <= w < rolls@.len() && rolls@[w] == c;
                            assert(q.from == PositionRef::Point(Index(i)));
                            assert(q == self@.candidate(PositionRef::Point(Index(i)), rolls@[w]));
                            assert(self@.reached(
                                PositionRef::Point(Index(i)),
                                rolls@,
                                rolls@.len() as int,
                                q,
                            ));
                        } else {
                            assert(before.contains(q));
                        }
                    }
                    assert forall|q: Play| plays@.contains(q) implies self@.legal(q) && q.from is Point
                        && q.from->Point_0.0 < i + 1 by {
                        if !before.contains(q) {
                            assert(self@.reached(
                                PositionRef::Point(Index(i)),
                                rolls@,
                                rolls@.len() as int,
                                q,
                            ));
                        }
                    }
                }
                i += 1;
            }
            proof {
                assert forall|q: Play| self@.legal(q) implies plays@.contains(q) by {
                    self@.lemma_legal_is_candidate(q);
                }
            }
        }
        plays
    }

    /// Makes `play`, which must be legal: uses up its cast, sends a piece that it
    /// hits to the bar, and moves the piece.
    pub fn make_play(&mut self, play: &Play)
        requires
            old(self)@.wf(),
            old(self)@.legal(*play),
        ensures
            final(self)@ == old(self)@.after(*play),
            final(self)@.wf(),
            final(self)@.board.total(Player::Black) == old(self)@.board.total(Player::Black),
            final(self)@.board.total(Player::White) == old(self)@.board.total(Player::White),
            final(self)@.current_roll.total() == old(self)@.current_roll.total() - 1,
            old(self)@.hits(*play) ==> final(self)@.board.at(play.to) == old(self)@.board.at(
                play.to,
            ).put(1, play.player) && final(self)@.board.at(
                PositionRef::Bar(play.player.opponent()),
            ).count == old(self)@.board.at(PositionRef::Bar(play.player.opponent())).count + 1,
    {
        proof {
            old(self)@.lemma_after(*play);
            play.from.lemma_location(self@.board);
            play.to.lemma_location(self@.board);
        }
        let from = *self.board.get(&play.from);
        let to = *self.board.get(&play.to);
        let len: u8 = to.distance(&from) as u8;
        if self.current_roll.check(len) {
            self.current_roll.remove(len);
        } else {
            let longest = self.current_roll.max();
            self.current_roll.remove(longest);
        }
        let opponent = std::ops::Not::not(play.player);
        if to.player == opponent && to.count == 1 {
            self.board.get_mut(&play.to).set(0, Player::Nobody);
            let bar = self.board.bar_mut(opponent);
            bar.count += 1;
        }
        let origin = self.board.get_mut(&play.from);
        origin.count -= 1;
        let target = self.board.get_mut(&play.to);
        target.player = play.player;
        target.count += 1;
        let from_bar = match play.from {
            PositionRef::Bar(_) => true,
            _ => false,
        };
        if self.board.get(&play.from).count == 0 && !from_bar {
            self.board.get_mut(&play.from).player = Player::Nobody;
        }
        proof {
            let want = old(self)@.board_after(*play);
            assert(self@.board.points =~= want.points);
            assert(self@.board.bar =~= want.bar);
            assert(self@.board.rail =~= want.rail);
        }
    }
}

/// A sequence with `x` added at its end holds what it held, and `x`.
pub proof fn lemma_push_contains<T>(s: Seq<T>, x: T, q: T)
    ensures
        s.push(x).contains(q) <==> s.contains(q) || q == x,
{
    let longer = s.push(x);
    if s.contains(q) {
        let w = choose|w: int| 0 <= w < s.len() && s[w] == q;
        assert(longer[w] == q);
    }
    if q == x {
        assert(longer[longer.len() - 1] == q);
    }
    if longer.contains(q) {
        let w = choose|w: int| 0 <= w < longer.len() && longer[w] == q;
        if w < s.len() {
            assert(s[w] == q);
        }
    }
}

/// True if `play` is among `plays`.
pub fn contains_play(plays: &Vec<Play>, play: &Play) -> (r: bool)
    ensures
        r == plays@.contains(*play),
{
    let mut i: usize = 0;
    while i < plays.len()
        invariant
            i <= plays.len(),
            forall|k: int| 0 <= k < i ==> plays@[k] != *play,
        decreases plays.len() - i,
    {
        if plays[i] == *play {
            return true;
        }
        i += 1;
    }
    false
}

impl GameView {
    /// What the rules leave of a legal play: the player is the one to move, the
    /// piece is its own and comes from its bar or a point, goes forward to a point
    /// or to its rail, and lands on no more than one piece of the opponent.
    pub open spec fn sound_move(self, play: Play) -> bool {
        let player = play.player;
        let from = self.board.at(play.from);
        let to = self.board.at(play.to);
        &&& play.wf()
        &&& player == self.current_player
        &&& (play.from == PositionRef::Bar(player) || play.from is Point)
        &&& (play.to == PositionRef::Rail(player) || play.to is Point)
        &&& play.from != play.to
        &&& from.player == player
        &&& from.count >= 1
        &&& 1 <= play.length() <= 25
        &&& (self.hits(play) ==> play.to is Point)
        &&& (!self.hits(play) ==> to.player == player || (to.player == Player::Nobody && to.count
            == 0))
    }

    /// A legal play is a sound move that uses a cast that is left.
    pub proof fn lemma_legal_is_sound(self, play: Play)
        requires
            self.wf(),
            self.legal(play),
        ensures
            self.sound_move(play),
            self.current_roll.count(self.cast_used(play)) > 0,
            self.after(play).current_roll.total() == self.current_roll.total() - 1,
    {
        let player = play.player;
        let b = self.board;
        play.from.lemma_location(b);
        play.to.lemma_location(b);
        assert(b.bar[player.opponent().ordinal()].player == player.opponent());
        assert(b.bar[player.ordinal()].player == player);
        assert(b.rail[player.ordinal()].player == player);
        assert(b.rail[player.opponent().ordinal()].player == player.opponent());
        match play.to {
            PositionRef::Point(j) => {
                assert((b.points[j.0 as int].count == 0) <==> (b.points[j.0 as int].player
                    == Player::Nobody));
            },
            _ => {},
        }
    }

    /// A sound move overflows no count: the space that gains a piece holds fewer
    /// than 255.
    pub proof fn lemma_sound_move_bounds(self, play: Play)
        requires
            self.wf(),
            self.sound_move(play),
        ensures
            !self.hits(play) ==> self.board.at(play.to).count < 255,
            self.hits(play) ==> self.board.at(PositionRef::Bar(play.player.opponent())).count
                < 255,
    {
        let player = play.player;
        let opponent = player.opponent();
        let b = self.board;
        match play.from {
            PositionRef::Point(i) => {
                match play.to {
                    PositionRef::Point(j) => {
                        lemma_points_total_bound(b.points, player, 24, i.0 as int, j.0 as int);
                    },
                    _ => {
                        lemma_points_total_bound(b.points, player, 24, i.0 as int, i.0 as int);
                    },
                }
            },
            _ => {
                match play.to {
                    PositionRef::Point(j) => {
                        lemma_points_total_bound(b.points, player, 24, j.0 as int, j.0 as int);
                    },
                    _ => {},
                }
            },
        }
        if self.hits(play) {
            let j = play.to->Point_0.0 as int;
            lemma_points_total_bound(b.points, opponent, 24, j, j);
        }
    }

    /// A sound move keeps the board in order and leaves each side with the pieces
    /// that it had.
    pub proof fn lemma_sound_move_keeps(self, play: Play)
        requires
            self.wf(),
            self.sound_move(play),
        ensures
            self.board_after(play).wf(),
            self.board_after(play).owners_consistent(),
            self.board_after(play).total(Player::Black) == self.board.total(Player::Black),
            self.board_after(play).total(Player::White) == self.board.total(Player::White),
    {
        let player = play.player;
        let opponent = player.opponent();
        let b = self.board;
        let from = b.at(play.from);
        let to = b.at(play.to);
        let opponent_bar = PositionRef::Bar(opponent);
        self.lemma_sound_move_bounds(play);
        assert(b.bar[opponent.ordinal()].player == opponent);
        let new_bar = b.at(opponent_bar).put(
            (b.at(opponent_bar).count + 1) as u8,
            b.at(opponent_bar).player,
        );
        let hit_board = if self.hits(play) {
            b.with(opponent_bar, new_bar)
        } else {
            b
        };
        if self.hits(play) {
            lemma_with(b, opponent_bar, new_bar);
        }
        let new_from = from.put(
            (from.count - 1) as u8,
            if from.count == 1 && !(play.from is Bar) {
                Player::Nobody
            } else {
                from.player
            },
        );
        let new_to = to.put(
            if self.hits(play) {
                1u8
            } else {
                (to.count + 1) as u8
            },
            play.player,
        );
        assert(hit_board.at(play.from) == from);
        lemma_with(hit_board, play.from, new_from);
        let moved = hit_board.with(play.from, new_from);
        assert(moved.at(play.to) == to);
        lemma_with(moved, play.to, new_to);
        assert(self.board_after(play) == moved.with(play.to, new_to));
    }

    /// What a sound move changes: the origin, the destination and, where a piece
    /// is hit, the bar of the opponent; every other space stays as it was.
    pub proof fn lemma_sound_move_changes(self, play: Play)
        requires
            self.wf(),
            self.sound_move(play),
        ensures
            self.board_after(play).at(play.from).count == self.board.at(play.from).count - 1,
            self.board_after(play).at(play.to).player == play.player,
            self.board_after(play).at(play.to).count == (if self.hits(play) {
                1
            } else {
                self.board.at(play.to).count + 1
            }),
            self.hits(play) ==> self.board_after(play).at(
                PositionRef::Bar(play.player.opponent()),
            ) == self.board.at(PositionRef::Bar(play.player.opponent())).put(
                (self.board.at(PositionRef::Bar(play.player.opponent())).count + 1) as u8,
                play.player.opponent(),
            ),
            forall|other: PositionRef|
                other.wf() && other != play.from && other != play.to && !(self.hits(play)
                    && other == PositionRef::Bar(play.player.opponent()))
                    ==> #[trigger] self.board_after(play).at(other) == self.board.at(other),
    {
        let player = play.player;
        let opponent = player.opponent();
        let b = self.board;
        let from = b.at(play.from);
        let to = b.at(play.to);
        let opponent_bar = PositionRef::Bar(opponent);
        self.lemma_sound_move_bounds(play);
        assert(b.bar[opponent.ordinal()].player == opponent);
        let new_bar = b.at(opponent_bar).put(
            (b.at(opponent_bar).count + 1) as u8,
            b.at(opponent_bar).player,
        );
        let hit_board = if self.hits(play) {
            b.with(opponent_bar, new_bar)
        } else {
            b
        };
        if self.hits(play) {
            lemma_with(b, opponent_bar, new_bar);
        }
        let new_from = from.put(
            (from.count - 1) as u8,
            if from.count == 1 && !(play.from is Bar) {
                Player::Nobody
            } else {
                from.player
            },
        );
        let new_to = to.put(
            if self.hits(play) {
                1u8
            } else {
                (to.count + 1) as u8
            },
            play.player,
        );
        assert(hit_board.at(play.from) == from);
        lemma_with(hit_board, play.from, new_from);
        let moved = hit_board.with(play.from, new_from);
        assert(moved.at(play.to) == to);
        lemma_with(moved, play.to, new_to);
        let last = moved.with(play.to, new_to);
        assert(self.board_after(play) == last);
        assert(last.at(play.from) == moved.at(play.from));
        if self.hits(play) {
            assert(last.at(opponent_bar) == moved.at(opponent_bar));
            assert(moved.at(opponent_bar) == hit_board.at(opponent_bar));
        }
        assert forall|other: PositionRef|
            other.wf() && other != play.from && other != play.to && !(self.hits(play) && other
                == opponent_bar) implies #[trigger] last.at(other) == b.at(other) by {
            assert(last.at(other) == moved.at(other));
            assert(moved.at(other) == hit_board.at(other));
        }
    }

    /// A legal play keeps the game in order: it moves between two different
    /// spaces, uses up one cast, overflows no count and leaves each side with the
    /// pieces that it had.
    pub proof fn lemma_after(self, play: Play)
        requires
            self.wf(),
            self.legal(play),
        ensures
            play.player == self.current_player,
            play.from != play.to,
            1 <= play.length() <= 25,
            self.current_roll.count(self.cast_used(play)) > 0,
            self.after(play).current_roll.total() == self.current_roll.total() - 1,
            self.board.at(play.from).count >= 1,
            !self.hits(play) ==> self.board.at(play.to).count < 255,
            self.hits(play) ==> self.board.at(PositionRef::Bar(play.player.opponent())).count
                < 255,
            self.after(play).wf(),
            self.after(play).board.total(Player::Black) == self.board.total(Player::Black),
            self.after(play).board.total(Player::White) == self.board.total(Player::White),
    {
        self.lemma_legal_is_sound(play);
        self.lemma_sound_move_bounds(play);
        self.lemma_sound_move_keeps(play);
    }
}

/// A hit moves exactly one piece of the opponent, from the point where it stood
/// alone to its bar, and leaves the point to the mover alone: after a legal play
/// onto a single opposing piece the destination holds one piece, the mover's;
/// the opponent's bar holds one piece more; the opponent has one piece fewer on
/// the points and as many pieces in all as before.
pub proof fn lemma_hit(game: GameView, play: Play)
    requires
        game.wf(),
        game.legal(play),
        game.hits(play),
    ensures
        play.to is Point,
        game.after(play).board.at(play.to).count == 1,
        game.after(play).board.at(play.to).player == play.player,
        game.after(play).board.at(PositionRef::Bar(play.player.opponent())).count
            == game.board.at(PositionRef::Bar(play.player.opponent())).count + 1,
        game.after(play).board.at(PositionRef::Bar(play.player.opponent())).player
            == play.player.opponent(),
        points_total(game.after(play).board.points, play.player.opponent(), 24) + 1
            == points_total(game.board.points, play.player.opponent(), 24),
        game.after(play).board.total(play.player.opponent()) == game.board.total(
            play.player.opponent(),
        ),
{
    let opponent = play.player.opponent();
    game.lemma_legal_is_sound(play);
    game.lemma_sound_move_bounds(play);
    game.lemma_sound_move_changes(play);
    game.lemma_sound_move_keeps(play);
    let rail = PositionRef::Rail(opponent);
    assert(rail.wf());
    assert(game.after(play).board.at(rail) == game.board.at(rail));
}

/// Pieces are neither made nor lost: whatever plays are made one after the other
/// on a game in order, each side has as many pieces afterwards as before, on
/// points, bar and rail together. A game that starts with fifteen pieces a side
/// keeps fifteen.
pub proof fn lemma_conservation(game: GameView, plays: Seq<Play>, player: Player)
    requires
        game.wf(),
        game.playable(plays),
        player != Player::Nobody,
    ensures
        game.after_all(plays).board.total(player) == game.board.total(player),
{
    game.lemma_playable(plays);
}

} // verus!
