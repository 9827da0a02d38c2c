use vstd::prelude::*;

use crate::game::GameView;
use crate::grammar::{
    bar_word, field_len, is_digit, is_space, off_word, spaces_len, token_of, word_len, Token,
};
use crate::location::{index_of_normalized, normalized_of_index};
use crate::notation::{
    group_plays, parse_spec, play_text, plays_between, space_text, spaces_in, tail_formed,
    token_space, turn_text, well_formed, ParseFailure, Play, PositionRef,
};
use crate::player::Player;
use crate::render::{decimal, lemma_decimal};

verus! {

/// True if `text` holds neither a `/` nor a separator.
pub open spec fn plain(text: Seq<char>) -> bool {
    forall|i: int| 0 <= i < text.len() ==> (#[trigger] text[i]) != '/' && !is_space(text[i])
}

/// A plain text before a `/`, or at the end, is one field.
pub proof fn lemma_plain_prefix(head: Seq<char>, rest: Seq<char>)
    requires
        plain(head),
        rest.len() == 0 || rest[0] == '/',
    ensures
        field_len(head + rest) == head.len(),
    decreases head.len(),
{
    let text = head + rest;
    if head.len() == 0 {
        assert(text =~= rest);
    } else {
        assert(text[0] == head[0]);
        let shorter = head.drop_first();
        assert forall|i: int| 0 <= i < shorter.len() implies (#[trigger] shorter[i]) != '/'
            && !is_space(shorter[i]) by {
            assert(shorter[i] == head[i + 1]);
        }
        lemma_plain_prefix(shorter, rest);
        assert(text.drop_first() =~= shorter + rest);
    }
}

/// A number written in base ten is plain and is read as that number.
pub proof fn lemma_decimal_token(n: nat)
    requires
        n <= usize::MAX,
    ensures
        plain(decimal(n)),
        decimal(n).len() >= 1,
        token_of(decimal(n)) == Token::Number(n as usize),
{
    lemma_decimal(n);
    let text = decimal(n);
    assert(is_digit(text[0]));
    assert(bar_word()[0] == 'b');
    assert(off_word()[0] == 'o');
    assert forall|i: int| 0 <= i < text.len() implies (#[trigger] text[i]) != '/' && !is_space(
        text[i],
    ) by {
        assert(is_digit(text[i]));
    }
}

/// What a side writes for a space is plain and is read as that space again,
/// where the space is a point or the side's own bar or rail.
pub proof fn lemma_space_text(space: PositionRef, whole: Seq<char>, player: Player)
    requires
        space.wf(),
        player != Player::Nobody,
        space is Bar ==> space == PositionRef::Bar(player),
        space is Rail ==> space == PositionRef::Rail(player),
    ensures
        plain(space_text(space, player)),
        space_text(space, player).len() >= 1,
        token_space(token_of(space_text(space, player)), whole, player) == Ok::<
            PositionRef,
            ParseFailure,
        >(space),
        space is Bar <==> token_of(space_text(space, player)) is Bar,
        space is Rail <==> token_of(space_text(space, player)) is Off,
        space is Point <==> token_of(space_text(space, player)) is Number,
{
    let text = space_text(space, player);
    match space {
        PositionRef::Point(index) => {
            let v = normalized_of_index(index.0 as int, player);
            lemma_decimal_token(v as nat);
            assert(index_of_normalized(v, player) == index.0);
        },
        PositionRef::Bar(_) => {
            assert(text[0] == 'b' && text[1] == 'a' && text[2] == 'r');
            assert(off_word()[0] == 'o');
        },
        PositionRef::Rail(_) => {
            assert(text[0] == 'o' && text[1] == 'f' && text[2] == 'f');
            assert(bar_word()[0] == 'b');
        },
    }
}

impl Play {
    /// True if the play is one that a turn of `player` can hold: its own, from its
    /// bar or a point, to its rail or a point.
    pub open spec fn of_turn(self, player: Player) -> bool {
        &&& self.wf()
        &&& self.player == player
        &&& player != Player::Nobody
        &&& (self.from == PositionRef::Bar(player) || self.from is Point)
        &&& (self.to == PositionRef::Rail(player) || self.to is Point)
    }
}

/// What a side writes for one of its plays is plain, follows the notation and
/// stands for that play alone.
pub proof fn lemma_play_text(play: Play, player: Player)
    requires
        play.of_turn(player),
    ensures
        plain_but_slash(play_text(play)),
        play_text(play).len() >= 3,
        group_plays(play_text(play), player) == Ok::<Seq<Play>, ParseFailure>(seq![play]),
{
    let from = space_text(play.from, player);
    let to = space_text(play.to, player);
    let group = play_text(play);
    lemma_space_text(play.from, group, player);
    lemma_space_text(play.to, group, player);
    let tail = seq!['/'] + to;
    assert(group =~= from + tail);
    assert(tail[0] == '/');
    lemma_plain_prefix(from, tail);
    assert(field_len(group) == from.len());
    assert(group.take(from.len() as int) =~= from);
    assert(group.skip(from.len() as int + 1) =~= to);
    lemma_plain_prefix(to, Seq::<char>::empty());
    assert(to + Seq::<char>::empty() =~= to);
    assert(field_len(to) == to.len());
    assert(to.take(to.len() as int) =~= to);
    assert(tail_formed(to));
    assert(well_formed(group));
    assert(spaces_in(to, group, player) == Ok::<Seq<PositionRef>, ParseFailure>(seq![play.to]));
    let spaces = seq![play.from] + seq![play.to];
    assert(spaces_in(group, group, player) == Ok::<Seq<PositionRef>, ParseFailure>(spaces));
    assert(plays_between(spaces, player) =~= seq![play]);
    assert forall|i: int| 0 <= i < group.len() implies !is_space(#[trigger] group[i]) by {
        if i < from.len() {
            assert(group[i] == from[i]);
        } else if i > from.len() {
            assert(group[i] == to[i - from.len() - 1]);
        }
    }
}

/// True if `text` holds no separator.
pub open spec fn plain_but_slash(text: Seq<char>) -> bool {
    forall|i: int| 0 <= i < text.len() ==> !is_space(#[trigger] text[i])
}

/// A text without separators before a separator or at the end is one word that
/// no separator precedes.
pub proof fn lemma_word_prefix(head: Seq<char>, rest: Seq<char>)
    requires
        plain_but_slash(head),
        rest.len() == 0 || is_space(rest[0]),
    ensures
        word_len(head + rest) == head.len(),
        head.len() > 0 ==> spaces_len(head + rest) == 0,
    decreases head.len(),
{
    let text = head + rest;
    if head.len() == 0 {
        assert(text =~= rest);
    } else {
        assert(text[0] == head[0]);
        let shorter = head.drop_first();
        assert forall|i: int| 0 <= i < shorter.len() implies !is_space(#[trigger] shorter[i]) by {
            assert(shorter[i] == head[i + 1]);
        }
        lemma_word_prefix(shorter, rest);
        assert(text.drop_first() =~= shorter + rest);
    }
}

/// A blank before a text changes nothing in what the text stands for.
pub proof fn lemma_parse_after_blank(text: Seq<char>, player: Player)
    ensures
        parse_spec(seq![' '] + text, player) == parse_spec(text, player),
{
    let longer = seq![' '] + text;
    assert(is_space(longer[0]));
    assert(longer.drop_first() =~= text);
    assert(spaces_len(longer) == 1 + spaces_len(text));
    crate::grammar::lemma_lens(text);
    assert(longer.skip(spaces_len(longer)) =~= text.skip(spaces_len(text)));
}

/// A text that starts with a group and goes on with a separator, or ends,
/// stands for the plays of the group followed by those of what comes after it.
pub proof fn lemma_parse_first_group(group: Seq<char>, tail: Seq<char>, player: Player)
    requires
        plain_but_slash(group),
        group.len() > 0,
        tail.len() == 0 || is_space(tail[0]),
    ensures
        parse_spec(group + tail, player) == (match group_plays(group, player) {
            Err(f) => Err(f),
            Ok(plays) => match parse_spec(tail, player) {
                Err(f) => Err(f),
                Ok(more) => Ok(plays + more),
            },
        }),
{
    let text = group + tail;
    lemma_word_prefix(group, tail);
    assert(spaces_len(text) == 0);
    assert(text.skip(0) =~= text);
    assert(text.take(group.len() as int) =~= group);
    assert(text.skip(0).skip(group.len() as int) =~= tail);
}

/// The notation of one play or more is the first play's text, followed by a
/// blank and the notation of the others if there are any.
pub proof fn lemma_turn_text(plays: Seq<Play>)
    requires
        plays.len() > 0,
    ensures
        turn_text(plays) == play_text(plays[0]) + (if plays.len() == 1 {
            Seq::<char>::empty()
        } else {
            seq![' '] + turn_text(plays.drop_first())
        }),
{
    let group = play_text(plays[0]);
    if plays.len() == 1 {
        assert(group + Seq::<char>::empty() =~= group);
    } else {
        assert(group + seq![' '] + turn_text(plays.drop_first()) =~= group + (seq![' ']
            + turn_text(plays.drop_first())));
    }
}

/// Reading what was written gives the turn back: for every sequence of plays
/// that a turn of `player` can hold, the notation of the sequence stands for
/// exactly these plays.
pub proof fn lemma_notation_round_trip(plays: Seq<Play>, player: Player)
    requires
        forall|i: int| 0 <= i < plays.len() ==> (#[trigger] plays[i]).of_turn(player),
    ensures
        parse_spec(turn_text(plays), player) == Ok::<Seq<Play>, ParseFailure>(plays),
    decreases plays.len(),
{
    if plays.len() == 0 {
        assert(turn_text(plays).len() == 0);
        assert(plays =~= Seq::<Play>::empty());
    } else {
        let play = plays[0];
        let group = play_text(play);
        let rest = plays.drop_first();
        assert(play.of_turn(player));
        lemma_play_text(play, player);
        assert forall|i: int| 0 <= i < rest.len() implies (#[trigger] rest[i]).of_turn(player) by {
            assert(rest[i] == plays[i + 1]);
        }
        lemma_notation_round_trip(rest, player);
        lemma_turn_text(plays);
        let tail = if plays.len() == 1 {
            Seq::<char>::empty()
        } else {
            seq![' '] + turn_text(rest)
        };
        if plays.len() > 1 {
            assert(tail[0] == ' ');
            lemma_parse_after_blank(turn_text(rest), player);
        } else {
            assert(rest =~= Seq::<Play>::empty());
            assert(turn_text(rest).len() == 0);
        }
        assert(parse_spec(tail, player) == Ok::<Seq<Play>, ParseFailure>(rest));
        lemma_parse_first_group(group, tail, player);
        assert(seq![play] + rest =~= plays);
    }
}

/// Reading what was written gives a legal turn back: the plays of a turn that
/// can be made on a game in order are written by the side to move in a notation
/// that stands for exactly these plays.
pub proof fn lemma_legal_turn_round_trip(game: GameView, plays: Seq<Play>)
    requires
        game.wf(),
        game.playable(plays),
    ensures
        parse_spec(turn_text(plays), game.current_player) == Ok::<Seq<Play>, ParseFailure>(plays),
{
    lemma_playable_of_turn(game, plays);
    lemma_notation_round_trip(plays, game.current_player);
}

/// Each play of a turn that can be made is the mover's own, from its bar or a
/// point, to its rail or a point.
pub proof fn lemma_playable_of_turn(game: GameView, plays: Seq<Play>)
    requires
        game.wf(),
        game.playable(plays),
    ensures
        forall|i: int| 0 <= i < plays.len() ==> (#[trigger] plays[i]).of_turn(game.current_player),
    decreases plays.len(),
{
    if plays.len() > 0 {
        game.lemma_legal_is_sound(plays[0]);
        game.lemma_after(plays[0]);
        let rest = plays.drop_first();
        lemma_playable_of_turn(game.after(plays[0]), rest);
        assert forall|i: int| 0 <= i < plays.len() implies (#[trigger] plays[i]).of_turn(
            game.current_player,
        ) by {
            if i > 0 {
                assert(plays[i] == rest[i - 1]);
            }
        }
    }
}

/// The spaces that a side reads from a text are spaces of the board.
pub proof fn lemma_spaces_wf(rest: Seq<char>, whole: Seq<char>, player: Player)
    requires
        player != Player::Nobody,
        spaces_in(rest, whole, player) is Ok,
    ensures
        forall|i: int|
            0 <= i < spaces_in(rest, whole, player)->Ok_0.len() ==> (#[trigger] spaces_in(
                rest,
                whole,
                player,
            )->Ok_0[i]).wf(),
    decreases rest.len(),
{
    let n = field_len(rest);
    let spaces = spaces_in(rest, whole, player)->Ok_0;
    let first = token_space(token_of(rest.take(n)), whole, player)->Ok_0;
    assert(first.wf());
    if 0 <= n < rest.len() {
        lemma_spaces_wf(rest.skip(n + 1), whole, player);
        let more = spaces_in(rest.skip(n + 1), whole, player)->Ok_0;
        assert forall|i: int| 0 <= i < spaces.len() implies (#[trigger] spaces[i]).wf() by {
            if i > 0 {
                assert(spaces[i] == more[i - 1]);
            }
        }
    }
}

/// The plays that a side reads from a text are its own and name spaces of the
/// board.
pub proof fn lemma_parsed_plays_wf(text: Seq<char>, player: Player)
    requires
        player != Player::Nobody,
        parse_spec(text, player) is Ok,
    ensures
        forall|i: int|
            0 <= i < parse_spec(text, player)->Ok_0.len() ==> (#[trigger] parse_spec(
                text,
                player,
            )->Ok_0[i]).wf() && parse_spec(text, player)->Ok_0[i].player == player,
    decreases text.len(),
{
    let a = spaces_len(text);
    let n = word_len(text.skip(a));
    let plays = parse_spec(text, player)->Ok_0;
    if 0 <= a && 0 < n && a + n <= text.len() {
        let group = text.skip(a).take(n);
        let first = group_plays(group, player)->Ok_0;
        let spaces = spaces_in(group, group, player)->Ok_0;
        lemma_spaces_wf(group, group, player);
        assert forall|i: int| 0 <= i < first.len() implies (#[trigger] first[i]).wf() && first[i].player
            == player by {
            assert(spaces[i].wf());
            assert(spaces[i + 1].wf());
        }
        lemma_parsed_plays_wf(text.skip(a).skip(n), player);
        let more = parse_spec(text.skip(a).skip(n), player)->Ok_0;
        assert forall|i: int| 0 <= i < plays.len() implies (#[trigger] plays[i]).wf() && plays[i].player
            == player by {
            if i < first.len() {
                assert(plays[i] == first[i]);
            } else {
                assert(plays[i] == more[i - first.len()]);
            }
        }
    }
}

} // verus!
