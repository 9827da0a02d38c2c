use vstd::prelude::*;

use crate::error::Error;
use crate::game::Game;
use crate::location::Index;
use crate::notation::{
    parse_spec, play_text, plays_between, spaces_in, Notation, Play, PositionRef,
};
use crate::player::Player;

verus! {

/// A space of the board with a point named by its bare slot.
#[derive(Debug, Clone, Copy, PartialEq, Eq, Structural)]
pub enum BoardPosition {
    /// The bar of a side.
    Bar(Player),
    /// Where the pieces of a side stand once borne off.
    Off(Player),
    /// The point in this slot of the board's table.
    Point(usize),
}

/// The same space in the form that a move holds.
pub open spec fn position_of(space: PositionRef) -> BoardPosition {
    match space {
        PositionRef::Bar(player) => BoardPosition::Bar(player),
        PositionRef::Rail(player) => BoardPosition::Off(player),
        PositionRef::Point(index) => BoardPosition::Point(index.0),
    }
}

/// The same play in the form of a move.
pub open spec fn move_of(play: Play) -> Move {
    Move { player: play.player, from: position_of(play.from), to: position_of(play.to) }
}

/// The same space in the form that a play holds.
pub open spec fn space_of(position: BoardPosition) -> PositionRef {
    match position {
        BoardPosition::Bar(player) => PositionRef::Bar(player),
        BoardPosition::Off(player) => PositionRef::Rail(player),
        BoardPosition::Point(index) => PositionRef::Point(Index(index)),
    }
}

/// The same move in the form of a play.
pub open spec fn play_of(step: Move) -> Play {
    Play { player: step.player, from: space_of(step.from), to: space_of(step.to) }
}

/// The same spaces in the form that moves hold.
pub open spec fn positions_of(spaces: Seq<PositionRef>) -> Seq<BoardPosition> {
    Seq::new(spaces.len(), |i: int| position_of(spaces[i]))
}

/// The same plays as moves.
pub open spec fn moves_of(plays: Seq<Play>) -> Seq<Move> {
    Seq::new(plays.len(), |i: int| move_of(plays[i]))
}

/// One piece of `player` moved from one space to another.
#[derive(Debug, Clone, Copy, PartialEq, Eq, Structural)]
pub struct Move {
    pub player: Player,
    pub from: BoardPosition,
    pub to: BoardPosition,
}

impl Move {
    /// A move of `player` from `from` to `to`.
    pub fn new(player: Player, from: BoardPosition, to: BoardPosition) -> (r: Move)
        ensures
            r == (Move { player, from, to }),
    {
        Move { player, from, to }
    }

    /// The play that this move makes.
    pub fn play(&self) -> (r: Play)
        requires
            play_of(*self).wf(),
        ensures
            r == play_of(*self),
    {
        Play { player: self.player, from: space(&self.from), to: space(&self.to) }
    }

    /// The move in notation, as its player writes it.
    pub fn to_string(&self) -> (r: String)
        requires
            play_of(*self).writable(),
        ensures
            r@ == play_text(play_of(*self)),
    {
        self.play().to_string()
    }

    /// The move that makes `play`.
    pub fn of(play: &Play) -> (r: Move)
        ensures
            r == move_of(*play),
    {
        Move { player: play.player, from: position(&play.from), to: position(&play.to) }
    }
}

/// Executable form of [`position_of`].
pub fn position(space: &PositionRef) -> (r: BoardPosition)
    ensures
        r == position_of(*space),
{
    match space {
        PositionRef::Bar(player) => BoardPosition::Bar(*player),
        PositionRef::Rail(player) => BoardPosition::Off(*player),
        PositionRef::Point(index) => BoardPosition::Point(index.value()),
    }
}

/// Executable form of [`space_of`].
pub fn space(position: &BoardPosition) -> (r: PositionRef)
    ensures
        r == space_of(*position),
{
    match position {
        BoardPosition::Bar(player) => PositionRef::Bar(*player),
        BoardPosition::Off(player) => PositionRef::Rail(*player),
        BoardPosition::Point(index) => PositionRef::Point(Index(*index)),
    }
}

/// The moves of one side in one turn, in the order in which they are made.
#[derive(Debug)]
pub struct Turn {
    pub moves: Vec<Move>,
}

impl View for Turn {
    type V = Seq<Move>;

    open spec fn view(&self) -> Seq<Move> {
        self.moves@
    }
}

/// The moves that make `plays`.
pub fn moves(plays: &Vec<Play>) -> (r: Vec<Move>)
    ensures
        r@ == moves_of(plays@),
{
    let mut list: Vec<Move> = Vec::new();
    let mut i: usize = 0;
    while i < plays.len()
        invariant
            i <= plays@.len(),
            list@ == moves_of(plays@.take(i as int)),
        decreases plays@.len() - i,
    {
        list.push(Move::of(&plays[i]));
        i += 1;
        assert(list@ =~= moves_of(plays@.take(i as int)));
    }
    assert(plays@.take(i as int) =~= plays@);
    list
}

impl Turn {
    /// The turn that consists of `moves`.
    pub fn new(moves: Vec<Move>) -> (r: Turn)
        ensures
            r.moves == moves,
    {
        Turn { moves }
    }

    /// The turn that `notation` stands for when the side to move in `game`
    /// writes it.
    pub fn from(notation: String, game: &Game) -> (r: Result<Turn, Error>)
        ensures
            match parse_spec(notation@, game.current_player) {
                Ok(plays) => r is Ok && r->Ok_0@ == moves_of(plays),
                Err(f) => r is Err && f.describes(r->Err_0),
            },
    {
        match Notation::new(notation, game.current_player).turn() {
            Err(e) => Err(e),
            Ok(turn) => Ok(Turn::new(moves(&turn.0))),
        }
    }

    /// The moves that lead from each space that `notation` names to the next,
    /// when the side to move in `game` writes it.
    pub fn get_move_group(notation: &str, game: &Game) -> (r: Result<Vec<Move>, Error>)
        ensures
            match spaces_in(notation@, notation@, game.current_player) {
                Ok(spaces) => r is Ok && r->Ok_0@ == moves_of(
                    plays_between(spaces, game.current_player),
                ),
                Err(f) => r is Err && f.describes(r->Err_0),
            },
    {
        match Notation::new(notation.to_owned(), game.current_player).get_play_group() {
            Err(e) => Err(e),
            Ok(plays) => Ok(moves(&plays)),
        }
    }

    /// The spaces that the fields of `notation` name, in their order, when the
    /// side to move in `game` writes it.
    pub fn get_board_positions(notation: &str, game: &Game) -> (r: Result<
        Vec<BoardPosition>,
        Error,
    >)
        ensures
            match spaces_in(notation@, notation@, game.current_player) {
                Ok(spaces) => r is Ok && r->Ok_0@ == positions_of(spaces),
                Err(f) => r is Err && f.describes(r->Err_0),
            },
    {
        match Notation::new(notation.to_owned(), game.current_player).get_board_spaces() {
            Err(e) => Err(e),
            Ok(spaces) => {
                let mut list: Vec<BoardPosition> = Vec::new();
                let mut i: usize = 0;
                while i < spaces.len()
                    invariant
                        i <= spaces@.len(),
                        list@ == positions_of(spaces@.take(i as int)),
                    decreases spaces@.len() - i,
                {
                    list.push(position(&spaces[i]));
                    i += 1;
                    assert(list@ =~= positions_of(spaces@.take(i as int)));
                }
                assert(spaces@.take(i as int) =~= spaces@);
                Ok(list)
            },
        }
    }

    /// Every move that the side to move in `game` can make now, each once.
    pub fn get_available_moves(game: &Game) -> (r: Vec<Move>)
        requires
            game@.wf(),
        ensures
            exists|plays: Seq<Play>|
                r@ == moves_of(plays) && plays.no_duplicates() && forall|q: Play|
                    plays.contains(q) <==> game@.legal(q),
    {
        let plays = game.get_available_plays();
        moves(&plays)
    }
}

} // verus!
