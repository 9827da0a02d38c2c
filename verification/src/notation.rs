use vstd::prelude::*;

use crate::board::{bar_location, location_distance, rail_location, Board, BoardView};
use crate::error::Error;
use crate::grammar::{
    chars_of, field_end, field_len, lemma_lens, read_token, spaces_end, spaces_len, token_of,
    word_end, word_len, Token,
};
use crate::grammar::{bar_word, off_word};
use crate::location::{index_of_normalized, normalized_of_index, Index, Normalized};
use crate::player::Player;
use crate::render::{decimal, push_decimal};

verus! {

/// A space of the board as a play names it.
#[derive(Debug, Clone, Copy, PartialEq, Eq, Structural, Hash)]
pub enum PositionRef {
    /// The bar of a side.
    Bar(Player),
    /// The rail of a side, where its pieces stand once borne off.
    Rail(Player),
    /// One of the 24 points.
    Point(Index),
}

impl PositionRef {
    /// Where the space lies on the board, as an absolute location.
    pub open spec fn location(self) -> int {
        match self {
            PositionRef::Bar(player) => bar_location(player),
            PositionRef::Rail(player) => rail_location(player),
            PositionRef::Point(index) => index.0 + 1,
        }
    }

    /// On a board that is laid out as it should be, the space that a name stands
    /// for lies where the name says.
    pub proof fn lemma_location(self, board: BoardView)
        requires
            board.wf(),
            self.wf(),
        ensures
            board.at(self).location.0 == self.location(),
    {
        match self {
            PositionRef::Bar(player) => {
                assert(board.bar[player.ordinal()].location.0 == bar_location(player));
            },
            PositionRef::Rail(player) => {
                assert(board.rail[player.ordinal()].location.0 == rail_location(player));
            },
            PositionRef::Point(index) => {
                assert(board.points[index.0 as int].location.0 == index.0 + 1);
            },
        }
    }
}

/// One piece of `player` moved from one space to another.
#[derive(Debug, Clone, Copy, PartialEq, Eq, Structural, Hash)]
pub struct Play {
    pub player: Player,
    pub from: PositionRef,
    pub to: PositionRef,
}

impl Play {
    /// Both ends name a space that a board has.
    pub open spec fn wf(self) -> bool {
        self.from.wf() && self.to.wf()
    }

    /// The number of pips between the two ends.
    pub open spec fn length(self) -> int {
        location_distance(self.from.location(), self.to.location())
    }

    /// True if the play leads towards the home of its player: to a lower location
    /// for `Black`, to a higher one for `White`.
    pub open spec fn forward(self) -> bool {
        if self.player == Player::White {
            self.to.location() > self.from.location()
        } else {
            self.to.location() < self.from.location()
        }
    }

    /// A play of `player` from `from` to `to`.
    pub fn new(player: Player, from: PositionRef, to: PositionRef) -> (r: Play)
        ensures
            r == (Play { player, from, to }),
    {
        Play { player, from, to }
    }

    /// True if the play leads towards the home of its player.
    pub fn is_valid_direction(&self, board: &Board) -> (r: bool)
        requires
            board@.wf(),
            self.wf(),
            self.player != Player::Nobody,
        ensures
            r == self.forward(),
    {
        proof {
            self.from.lemma_location(board@);
            self.to.lemma_location(board@);
        }
        let from = board.get(&self.from);
        let to = board.get(&self.to);
        match self.player {
            Player::White => to.location.0 > from.location.0,
            _ => to.location.0 < from.location.0,
        }
    }
}

/// The pips that `plays` cover, one play after the other.
pub open spec fn turn_distance(plays: Seq<Play>) -> int
    decreases plays.len(),
{
    if plays.len() == 0 {
        0
    } else {
        plays[0].length() + turn_distance(plays.drop_first())
    }
}

/// A play added at the end adds its length to the pips covered.
pub proof fn lemma_turn_distance_push(plays: Seq<Play>, play: Play)
    ensures
        turn_distance(plays.push(play)) == turn_distance(plays) + play.length(),
    decreases plays.len(),
{
    if plays.len() == 0 {
        assert(plays.push(play).drop_first() =~= plays);
    } else {
        assert(plays.push(play).drop_first() =~= plays.drop_first().push(play));
        lemma_turn_distance_push(plays.drop_first(), play);
    }
}

/// The plays of one side in one turn, in the order in which they are made.
#[derive(Debug, PartialEq, Eq, Hash)]
pub struct Turn(pub Vec<Play>);

impl View for Turn {
    type V = Seq<Play>;

    open spec fn view(&self) -> Seq<Play> {
        self.0@
    }
}

impl Turn {
    /// Every play names spaces that a board has.
    pub open spec fn wf(self) -> bool {
        forall|i: int| 0 <= i < self@.len() ==> (#[trigger] self@[i]).wf()
    }

    /// The pips that the plays of the turn cover in all.
    pub fn distance(&self, board: &Board) -> (r: usize)
        requires
            board@.wf(),
            self.wf(),
            self@.len() * 25 <= usize::MAX,
        ensures
            r == turn_distance(self@),
    {
        let mut sum: usize = 0;
        let mut i: usize = 0;
        while i < self.0.len()
            invariant
                i <= self.0.len(),
                board@.wf(),
                self.wf(),
                self@.len() * 25 <= usize::MAX,
                sum == turn_distance(self@.take(i as int)),
                sum <= i * 25,
            decreases self.0.len() - i,
        {
            let play = &self.0[i];
            proof {
                assert(self@[i as int].wf());
                play.from.lemma_location(board@);
                play.to.lemma_location(board@);
                assert(self@.take(i + 1) =~= self@.take(i as int).push(self@[i as int]));
                lemma_turn_distance_push(self@.take(i as int), self@[i as int]);
            }
            let from = board.get(&play.from);
            let to = board.get(&play.to);
            sum = sum + from.distance(to);
            i += 1;
        }
        proof {
            assert(self@.take(i as int) =~= self@);
        }
        sum
    }
}

/// Why a text is no turn, as contracts say it.
pub enum ParseFailure {
    /// A group that does not follow the notation; holds the group.
    Notation(Seq<char>),
    /// A number above 25, or any number where the player is `Nobody`.
    Normalized(usize, Player),
    /// The number 0 or 25, which names no point.
    Index(usize),
}

impl ParseFailure {
    /// True if `error` reports this failure.
    pub open spec fn describes(self, error: Error) -> bool {
        match self {
            ParseFailure::Notation(group) => error matches Error::InvalidNotation(text)
                && text@ == group,
            ParseFailure::Normalized(position, player) => error
                == Error::InvalidNormalizedLocation(position, player),
            ParseFailure::Index(position) => error == Error::InvalidIndexLocation(position),
        }
    }
}

/// The space that a field names for `player`: `bar` its bar, `off` its rail, a
/// number from 1 to 24 the point that it counts as that number. A field that
/// says nothing known fails with the whole group `whole`.
pub open spec fn token_space(token: Token, whole: Seq<char>, player: Player) -> Result<
    PositionRef,
    ParseFailure,
> {
    match token {
        Token::Bar => Ok(PositionRef::Bar(player)),
        Token::Off => Ok(PositionRef::Rail(player)),
        Token::Number(v) => if player == Player::Nobody || v > 25 {
            Err(ParseFailure::Normalized(v, player))
        } else if v == 0 || v == 25 {
            Err(ParseFailure::Index(v))
        } else {
            Ok(PositionRef::Point(Index(index_of_normalized(v as int, player) as usize)))
        },
        Token::Unknown => Err(ParseFailure::Notation(whole)),
    }
}

/// The spaces that the fields of `rest` name, in their order, or the failure of
/// the first field that names none; `rest` is the part not yet read of `whole`.
pub open spec fn spaces_in(rest: Seq<char>, whole: Seq<char>, player: Player) -> Result<
    Seq<PositionRef>,
    ParseFailure,
>
    decreases rest.len(),
{
    let n = field_len(rest);
    match token_space(token_of(rest.take(n)), whole, player) {
        Err(f) => Err(f),
        Ok(space) => if 0 <= n < rest.len() {
            match spaces_in(rest.skip(n + 1), whole, player) {
                Err(f) => Err(f),
                Ok(more) => Ok(seq![space] + more),
            }
        } else {
            Ok(seq![space])
        },
    }
}

/// True if the fields of `rest` are numbers up to the last, which is a number or
/// `off`.
pub open spec fn tail_formed(rest: Seq<char>) -> bool
    decreases rest.len(),
{
    let n = field_len(rest);
    let token = token_of(rest.take(n));
    if 0 <= n < rest.len() {
        token is Number && tail_formed(rest.skip(n + 1))
    } else {
        token is Number || token is Off
    }
}

/// True if `group` follows the notation: two fields or more with `/` between
/// them, of which the first is a number or `bar`, the last a number or `off`,
/// and each other one a number.
pub open spec fn well_formed(group: Seq<char>) -> bool {
    let n = field_len(group);
    let token = token_of(group.take(n));
    0 <= n < group.len() && (token is Number || token is Bar) && tail_formed(group.skip(n + 1))
}

/// The plays of `player` that lead from each of `spaces` to the next.
pub open spec fn plays_between(spaces: Seq<PositionRef>, player: Player) -> Seq<Play> {
    Seq::new(
        if spaces.len() > 0 {
            (spaces.len() - 1) as nat
        } else {
            0
        },
        |i: int| Play { player, from: spaces[i], to: spaces[i + 1] },
    )
}

/// The plays that `group` stands for, or why it stands for none.
pub open spec fn group_plays(group: Seq<char>, player: Player) -> Result<Seq<Play>, ParseFailure> {
    if !well_formed(group) {
        Err(ParseFailure::Notation(group))
    } else {
        match spaces_in(group, group, player) {
            Err(f) => Err(f),
            Ok(spaces) => Ok(plays_between(spaces, player)),
        }
    }
}

/// The plays that `text` stands for: those of its groups, in their order; or the
/// failure of the first group that stands for none.
pub open spec fn parse_spec(text: Seq<char>, player: Player) -> Result<Seq<Play>, ParseFailure>
    decreases text.len(),
{
    let a = spaces_len(text);
    let n = word_len(text.skip(a));
    if 0 <= a && 0 < n && a + n <= text.len() {
        match group_plays(text.skip(a).take(n), player) {
            Err(f) => Err(f),
            Ok(plays) => match parse_spec(text.skip(a).skip(n), player) {
                Err(f) => Err(f),
                Ok(more) => Ok(plays + more),
            },
        }
    } else {
        Ok(Seq::empty())
    }
}

/// A text stands for no plays only if it holds nothing but separators: wherever
/// a character is left after the leading separators, a group of one character or
/// more starts there and lies within the text.
pub proof fn lemma_parse_steps(text: Seq<char>)
    ensures
        0 <= spaces_len(text) <= text.len(),
        spaces_len(text) < text.len() ==> 0 < word_len(text.skip(spaces_len(text)))
            && spaces_len(text) + word_len(text.skip(spaces_len(text))) <= text.len(),
        spaces_len(text) == text.len() ==> word_len(text.skip(spaces_len(text))) == 0,
{
    lemma_lens(text);
    let rest = text.skip(spaces_len(text));
    lemma_lens(rest);
    if spaces_len(text) < text.len() {
        assert(rest[0] == text[spaces_len(text)]);
    }
}

/// `done` followed by what `rest` gives, or the failure of `rest`.
pub open spec fn glue<T>(done: Seq<T>, rest: Result<Seq<T>, ParseFailure>) -> Result<
    Seq<T>,
    ParseFailure,
> {
    match rest {
        Err(f) => Err(f),
        Ok(more) => Ok(done + more),
    }
}

/// True if `group` follows the notation.
pub fn matches_grammar(group: &Vec<char>) -> (r: bool)
    ensures
        r == well_formed(group@),
{
    let first_end = field_end(group, 0);
    proof {
        assert(group@.skip(0) =~= group@);
        assert(group@.take(first_end as int) =~= group@.subrange(0, first_end as int));
    }
    if first_end >= group.len() {
        return false;
    }
    match read_token(group, 0, first_end) {
        Token::Number(_) => {},
        Token::Bar => {},
        _ => {
            return false;
        },
    }
    let mut i: usize = first_end + 1;
    while i <= group.len()
        invariant
            i <= group@.len(),
            well_formed(group@) == tail_formed(group@.skip(i as int)),
        decreases group@.len() - i,
    {
        let end = field_end(group, i);
        let token = read_token(group, i, end);
        proof {
            assert(group@.skip(i as int).take(end - i) =~= group@.subrange(i as int, end as int));
            if end < group@.len() {
                assert(group@.skip(i as int).skip(end - i + 1) =~= group@.skip(end + 1));
            }
        }
        if end < group.len() {
            match token {
                Token::Number(_) => {},
                _ => {
                    return false;
                },
            }
            i = end + 1;
        } else {
            return match token {
                Token::Number(_) => true,
                Token::Off => true,
                _ => false,
            };
        }
    }
    false
}

/// A text in backgammon notation together with the side whose plays it writes.
pub struct Notation {
    /// The text.
    pub input: String,
    /// The side that plays.
    pub player: Player,
}

impl Notation {
    /// The notation `input` for plays of `player`.
    pub fn new(input: String, player: Player) -> (r: Notation)
        ensures
            r.input@ == input@,
            r.player == player,
    {
        Notation { input, player }
    }

    /// The turn that the text stands for: the plays of its groups in their order.
    /// Fails with the first group that does not follow the notation, or with the
    /// first number that names no point.
    pub fn turn(&self) -> (r: Result<Turn, Error>)
        ensures
            match parse_spec(self.input@, self.player) {
                Ok(plays) => r is Ok && r->Ok_0@ == plays,
                Err(f) => r is Err && f.describes(r->Err_0),
            },
    {
        let text = chars_of(self.input.as_str());
        let mut plays: Vec<Play> = Vec::new();
        let mut i: usize = 0;
        proof {
            assert(text@.skip(0) =~= text@);
            assert(Seq::<Play>::empty() + Seq::<Play>::empty() =~= Seq::<Play>::empty());
        }
        while i < text.len()
            invariant
                i <= text@.len(),
                text@ == self.input@,
                parse_spec(text@, self.player) == glue(
                    plays@,
                    parse_spec(text@.skip(i as int), self.player),
                ),
            decreases text@.len() - i,
        {
            let ghost rest = text@.skip(i as int);
            let start = spaces_end(&text, i);
            let end = word_end(&text, start);
            proof {
                lemma_parse_steps(rest);
                assert(rest.skip(start - i) =~= text@.skip(start as int));
                assert(rest.skip(start - i).take(end - start) =~= text@.subrange(
                    start as int,
                    end as int,
                ));
                assert(rest.skip(start - i).skip(end - start) =~= text@.skip(end as int));
            }
            if start == text.len() {
                proof {
                    assert(plays@ + Seq::<Play>::empty() =~= plays@);
                }
                return Ok(Turn(plays));
            }
            let group = self.input.as_str().substring_char(start, end).to_owned();
            let letters = chars_of(group.as_str());
            if !matches_grammar(&letters) {
                return Err(Error::InvalidNotation(group));
            }
            let notation = Notation::new(group, self.player);
            match notation.get_play_group() {
                Err(e) => {
                    return Err(e);
                },
                Ok(found) => {
                    let ghost before = plays@;
                    let mut k: usize = 0;
                    while k < found.len()
                        invariant
                            k <= found@.len(),
                            plays@ == before + found@.take(k as int),
                        decreases found@.len() - k,
                    {
                        plays.push(found[k]);
                        k += 1;
                        assert(plays@ =~= before + found@.take(k as int));
                    }
                    proof {
                        assert(found@.take(k as int) =~= found@);
                        let more = parse_spec(text@.skip(end as int), self.player);
                        if more is Ok {
                            assert(before + (found@ + more->Ok_0) =~= (before + found@)
                                + more->Ok_0);
                        }
                    }
                },
            }
            i = end;
        }
        proof {
            lemma_parse_steps(text@.skip(i as int));
            assert(plays@ + Seq::<Play>::empty() =~= plays@);
        }
        Ok(Turn(plays))
    }

    /// The plays that lead from each space that the text names to the next.
    pub fn get_play_group(&self) -> (r: Result<Vec<Play>, Error>)
        ensures
            match spaces_in(self.input@, self.input@, self.player) {
                Ok(spaces) => r is Ok && r->Ok_0@ == plays_between(spaces, self.player),
                Err(f) => r is Err && f.describes(r->Err_0),
            },
    {
        match self.get_board_spaces() {
            Err(e) => Err(e),
            Ok(spaces) => {
                let mut plays: Vec<Play> = Vec::new();
                let mut i: usize = 0;
                let count = if spaces.len() > 0 {
                    spaces.len() - 1
                } else {
                    0
                };
                while i < count
                    invariant
                        i <= count,
                        count == (if spaces@.len() > 0 {
                            spaces@.len() - 1
                        } else {
                            0
                        }),
                        plays@.len() == i,
                        forall|k: int|
                            0 <= k < i ==> #[trigger] plays@[k] == (Play {
                                player: self.player,
                                from: spaces@[k],
                                to: spaces@[k + 1],
                            }),
                    decreases count - i,
                {
                    plays.push(Play::new(self.player, spaces[i], spaces[i + 1]));
                    i += 1;
                }
                assert(plays@ =~= plays_between(spaces@, self.player));
                Ok(plays)
            },
        }
    }

    /// The spaces that the fields of the text name, in their order: the text is
    /// cut at each `/`. A field that is neither `bar`, `off` nor a number fails
    /// with the whole text.
    pub fn get_board_spaces(&self) -> (r: Result<Vec<PositionRef>, Error>)
        ensures
            match spaces_in(self.input@, self.input@, self.player) {
                Ok(spaces) => r is Ok && r->Ok_0@ == spaces,
                Err(f) => r is Err && f.describes(r->Err_0),
            },
    {
        let text = chars_of(self.input.as_str());
        let mut spaces: Vec<PositionRef> = Vec::new();
        let mut i: usize = 0;
        proof {
            assert(text@.skip(0) =~= text@);
            let all = spaces_in(text@, text@, self.player);
            if all is Ok {
                assert(Seq::<PositionRef>::empty() + all->Ok_0 =~= all->Ok_0);
            }
        }
        while i <= text.len()
            invariant
                i <= text@.len(),
                text@ == self.input@,
                spaces_in(text@, text@, self.player) == glue(
                    spaces@,
                    spaces_in(text@.skip(i as int), text@, self.player),
                ),
            decreases text@.len() - i,
        {
            let end = field_end(&text, i);
            let token = read_token(&text, i, end);
            proof {
                assert(text@.skip(i as int).take(end - i) =~= text@.subrange(i as int, end as int));
                if end < text@.len() {
                    assert(text@.skip(i as int).skip(end - i + 1) =~= text@.skip(end + 1));
                }
            }
            let space = match token {
                Token::Bar => PositionRef::Bar(self.player),
                Token::Off => PositionRef::Rail(self.player),
                Token::Number(v) => {
                    match Normalized::new(v, self.player) {
                        Err(e) => {
                            return Err(e);
                        },
                        Ok(position) => match position.to_index() {
                            Err(e) => {
                                return Err(e);
                            },
                            Ok(index) => PositionRef::Point(index),
                        },
                    }
                },
                Token::Unknown => {
                    return Err(Error::InvalidNotation(self.input.clone()));
                },
            };
            let ghost before = spaces@;
            spaces.push(space);
            proof {
                let more = spaces_in(text@.skip(end + 1), text@, self.player);
                if end < text@.len() && more is Ok {
                    assert(before + (seq![space] + more->Ok_0) =~= before.push(space)
                        + more->Ok_0);
                }
                assert(before + seq![space] =~= before.push(space));
            }
            if end == text.len() {
                return Ok(spaces);
            }
            i = end + 1;
        }
        Ok(spaces)
    }
}

/// How `player` writes `space`: `bar`, `off`, or the number that it counts the
/// point as.
pub open spec fn space_text(space: PositionRef, player: Player) -> Seq<char> {
    match space {
        PositionRef::Bar(_) => bar_word(),
        PositionRef::Rail(_) => off_word(),
        PositionRef::Point(index) => decimal(normalized_of_index(index.0 as int, player) as nat),
    }
}

/// A play as its player writes it: origin, `/`, destination.
pub open spec fn play_text(play: Play) -> Seq<char> {
    space_text(play.from, play.player) + seq!['/'] + space_text(play.to, play.player)
}

/// The texts of `plays` with `between` between each two of them.
pub open spec fn joined(plays: Seq<Play>, between: Seq<char>) -> Seq<char>
    decreases plays.len(),
{
    if plays.len() == 0 {
        Seq::empty()
    } else if plays.len() == 1 {
        play_text(plays[0])
    } else {
        play_text(plays[0]) + between + joined(plays.drop_first(), between)
    }
}

/// A turn in notation: its plays, each a group of its own, with one blank
/// between each two.
pub open spec fn turn_text(plays: Seq<Play>) -> Seq<char> {
    joined(plays, seq![' '])
}

/// A turn as it is shown: `Turn(`, its plays with a comma and a blank between
/// each two, and `)`.
pub open spec fn turn_shown(plays: Seq<Play>) -> Seq<char> {
    seq!['T', 'u', 'r', 'n', '('] + joined(plays, seq![',', ' ']) + seq![')']
}

/// A play more at the end adds its text, after `between` if plays came before.
pub proof fn lemma_joined_push(plays: Seq<Play>, between: Seq<char>, play: Play)
    ensures
        joined(plays.push(play), between) == (if plays.len() == 0 {
            play_text(play)
        } else {
            joined(plays, between) + between + play_text(play)
        }),
    decreases plays.len(),
{
    let all = plays.push(play);
    if plays.len() == 0 {
        assert(all.len() == 1);
        assert(all[0] == play);
    } else if plays.len() == 1 {
        let last = all.drop_first();
        assert(last.len() == 1);
        assert(last[0] == play);
        assert(joined(last, between) == play_text(play));
        assert(all[0] == plays[0]);
        assert(all.len() == 2);
        assert(joined(all, between) == play_text(all[0]) + between + joined(last, between));
        assert(joined(plays, between) == play_text(plays[0]));
    } else {
        let rest = plays.drop_first();
        assert(all.drop_first() =~= rest.push(play));
        lemma_joined_push(rest, between, play);
        assert(all[0] == plays[0]);
        assert(all.len() > 1);
        assert(joined(all, between) == play_text(all[0]) + between + joined(
            all.drop_first(),
            between,
        ));
        assert(joined(plays, between) == play_text(plays[0]) + between + joined(rest, between));
        assert(play_text(plays[0]) + between + (joined(rest, between) + between + play_text(
            play,
        )) =~= play_text(plays[0]) + between + joined(rest, between) + between + play_text(play));
    }
}

impl PositionRef {
    /// Writes this space as `player` does at the end of `text`.
    pub fn write(&self, player: Player, text: &mut String)
        requires
            self.wf(),
            player != Player::Nobody,
        ensures
            final(text)@ == old(text)@ + space_text(*self, player),
    {
        proof {
            reveal_strlit("bar");
            reveal_strlit("off");
        }
        match self {
            PositionRef::Bar(_) => {
                text.append("bar");
                assert("bar"@ =~= bar_word());
            },
            PositionRef::Rail(_) => {
                text.append("off");
                assert("off"@ =~= off_word());
            },
            PositionRef::Point(index) => {
                push_decimal(text, index.normalize(player).value());
            },
        }
    }
}

impl Play {
    /// True if the play can be written: it names spaces of the board, starts at no
    /// rail, ends at no bar, and has a player.
    pub open spec fn writable(self) -> bool {
        self.wf() && !(self.from is Rail) && !(self.to is Bar) && self.player != Player::Nobody
    }

    /// Writes the play at the end of `text`.
    pub fn write(&self, text: &mut String)
        requires
            self.writable(),
        ensures
            final(text)@ == old(text)@ + play_text(*self),
    {
        proof {
            reveal_strlit("/");
        }
        self.from.write(self.player, text);
        text.append("/");
        self.to.write(self.player, text);
        assert("/"@ =~= seq!['/']);
        assert(text@ =~= old(text)@ + play_text(*self));
    }

    /// The play in notation, as its player writes it.
    pub fn to_string(&self) -> (r: String)
        requires
            self.writable(),
        ensures
            r@ == play_text(*self),
    {
        let mut text = String::new();
        self.write(&mut text);
        assert(Seq::<char>::empty() + play_text(*self) =~= play_text(*self));
        text
    }
}

impl Turn {
    /// True if every play of the turn can be written.
    pub open spec fn writable(self) -> bool {
        forall|i: int| 0 <= i < self@.len() ==> (#[trigger] self@[i]).writable()
    }

    /// Writes the plays at the end of `text`, with `between` between each two.
    fn write_joined(&self, between: &str, text: &mut String)
        requires
            self.writable(),
        ensures
            final(text)@ == old(text)@ + joined(self@, between@),
    {
        let mut i: usize = 0;
        assert(self@.take(0) =~= Seq::<Play>::empty());
        assert(text@ =~= old(text)@ + Seq::<char>::empty());
        while i < self.0.len()
            invariant
                i <= self@.len(),
                self.writable(),
                text@ == old(text)@ + joined(self@.take(i as int), between@),
            decreases self@.len() - i,
        {
            let ghost done = self@.take(i as int);
            let ghost so_far = text@;
            proof {
                assert(self@[i as int].writable());
                assert(self@.take(i + 1) =~= done.push(self@[i as int]));
                lemma_joined_push(done, between@, self@[i as int]);
            }
            if i > 0 {
                text.append(between);
            }
            self.0[i].write(text);
            proof {
                let play = self@[i as int];
                if i > 0 {
                    assert(old(text)@ + joined(done, between@) + between@ + play_text(play)
                        =~= old(text)@ + (joined(done, between@) + between@ + play_text(play)));
                } else {
                    assert(old(text)@ + Seq::<char>::empty() + play_text(play) =~= old(text)@
                        + play_text(play));
                }
            }
            i += 1;
        }
        assert(self@.take(i as int) =~= self@);
    }

    /// The turn in notation: its plays with a blank between each two.
    pub fn notation(&self) -> (r: String)
        requires
            self.writable(),
        ensures
            r@ == turn_text(self@),
    {
        proof {
            reveal_strlit(" ");
        }
        let mut text = String::new();
        self.write_joined(" ", &mut text);
        assert(" "@ =~= seq![' ']);
        assert(Seq::<char>::empty() + turn_text(self@) =~= turn_text(self@));
        text
    }

    /// The turn as it is shown: `Turn(`, its plays with `, ` between each two,
    /// and `)`.
    pub fn to_string(&self) -> (r: String)
        requires
            self.writable(),
        ensures
            r@ == turn_shown(self@),
    {
        proof {
            reveal_strlit("Turn(");
            reveal_strlit(", ");
            reveal_strlit(")");
        }
        let mut text = String::new();
        text.append("Turn(");
        self.write_joined(", ", &mut text);
        text.append(")");
        assert("Turn("@ =~= seq!['T', 'u', 'r', 'n', '(']);
        assert(", "@ =~= seq![',', ' ']);
        assert(")"@ =~= seq![')']);
        assert(text@ =~= turn_shown(self@));
        text
    }
}

} // verus!
