use backgammon::location::Index;
use backgammon::notation::{Notation, Play, PositionRef, Turn};
use backgammon::player::Player;
use backgammon::Error;

#[derive(Clone, Copy)]
enum S {
    Bar,
    Off,
    P(usize),
}

fn space(player: Player, s: S) -> PositionRef {
    match s {
        S::Bar => PositionRef::Bar(player),
        S::Off => PositionRef::Rail(player),
        S::P(index) => PositionRef::Point(Index::try_from(index).unwrap()),
    }
}

fn turn(player: Player, plays: &[(S, S)]) -> Turn {
    Turn(
        plays
            .iter()
            .map(|(from, to)| Play::new(player, space(player, *from), space(player, *to)))
            .collect(),
    )
}

#[test]
fn black_notation_1() {
    let notation = Notation::new("1/2".to_string(), Player::Black);
    let turn = turn(Player::Black, &[(S::P(0), S::P(1))]);
    assert_eq!(notation.turn(), Ok(turn));
}

#[test]
fn black_notation_2() {
    let notation = Notation::new("3/4 13/14".to_string(), Player::Black);
    let turn = turn(Player::Black, &[(S::P(2), S::P(3)), (S::P(12), S::P(13))]);
    assert_eq!(notation.turn(), Ok(turn));
}

#[test]
fn black_notation_3() {
    let notation = Notation::new("10/5/19".to_string(), Player::Black);
    let turn = turn(Player::Black, &[(S::P(9), S::P(4)), (S::P(4), S::P(18))]);
    assert_eq!(notation.turn(), Ok(turn));
}

#[test]
fn black_notation_4() {
    let notation = Notation::new("8/3/14/22 7/19".to_string(), Player::Black);
    let turn = turn(
        Player::Black,
        &[(S::P(7), S::P(2)), (S::P(2), S::P(13)), (S::P(13), S::P(21)), (S::P(6), S::P(18))],
    );
    assert_eq!(notation.turn(), Ok(turn));
}

#[test]
fn black_notation_5() {
    let notation = Notation::new("bar/1/20 7/19/off".to_string(), Player::Black);
    let turn = turn(
        Player::Black,
        &[(S::Bar, S::P(0)), (S::P(0), S::P(19)), (S::P(6), S::P(18)), (S::P(18), S::Off)],
    );
    assert_eq!(notation.turn(), Ok(turn));
}

#[test]
fn black_notation_6() {
    let notation = Notation::new("bar/off bar/off".to_string(), Player::Black);
    let turn = turn(Player::Black, &[(S::Bar, S::Off), (S::Bar, S::Off)]);
    assert_eq!(notation.turn(), Ok(turn));
}

#[test]
fn white_notation_1() {
    let notation = Notation::new("1/2".to_string(), Player::White);
    let turn = turn(Player::White, &[(S::P(23), S::P(22))]);
    assert_eq!(notation.turn(), Ok(turn));
}

#[test]
fn white_notation_2() {
    let notation = Notation::new("3/4 13/14".to_string(), Player::White);
    let turn = turn(Player::White, &[(S::P(21), S::P(20)), (S::P(11), S::P(10))]);
    assert_eq!(notation.turn(), Ok(turn));
}

#[test]
fn white_notation_3() {
    let notation = Notation::new("10/5/19".to_string(), Player::White);
    let turn = turn(Player::White, &[(S::P(14), S::P(19)), (S::P(19), S::P(5))]);
    assert_eq!(notation.turn(), Ok(turn));
}

#[test]
fn white_notation_4() {
    let notation = Notation::new("8/3/14/22 7/19".to_string(), Player::White);
    let turn = turn(
        Player::White,
        &[(S::P(16), S::P(21)), (S::P(21), S::P(10)), (S::P(10), S::P(2)), (S::P(17), S::P(5))],
    );
    assert_eq!(notation.turn(), Ok(turn));
}

#[test]
fn white_notation_5() {
    let notation = Notation::new("bar/1/20 7/19/off".to_string(), Player::White);
    let turn = turn(
        Player::White,
        &[(S::Bar, S::P(23)), (S::P(23), S::P(4)), (S::P(17), S::P(5)), (S::P(5), S::Off)],
    );
    assert_eq!(notation.turn(), Ok(turn));
}

#[test]
fn white_notation_6() {
    let notation = Notation::new("bar/off bar/off".to_string(), Player::White);
    let turn = turn(Player::White, &[(S::Bar, S::Off), (S::Bar, S::Off)]);
    assert_eq!(notation.turn(), Ok(turn));
}

#[test]
fn empty() {
    let notation = Notation::new("".to_string(), Player::White);
    let turn = turn(Player::White, &[]);
    assert_eq!(notation.turn(), Ok(turn));
}

#[test]
fn bad_notation_1() {
    let input = "test123.4abc-30".to_string();
    let notation = Notation::new(input.clone(), Player::Black);
    assert_eq!(notation.turn(), Err(Error::InvalidNotation(input)));
}

#[test]
fn bad_notation_2() {
    let input = "test123.4abc-30".to_string();
    let notation = Notation::new(input.clone(), Player::White);
    assert_eq!(notation.turn(), Err(Error::InvalidNotation(input)));
}

#[test]
fn bad_notation_3() {
    let input = "bar/bar".to_string();
    let notation = Notation::new(input.clone(), Player::Black);
    assert_eq!(notation.turn(), Err(Error::InvalidNotation(input)));
}

#[test]
fn bad_notation_4() {
    let input = "bar/bar".to_string();
    let notation = Notation::new(input.clone(), Player::White);
    assert_eq!(notation.turn(), Err(Error::InvalidNotation(input)));
}

#[test]
fn bad_notation_5() {
    let input = "1/bar/10".to_string();
    let notation = Notation::new(input.clone(), Player::Black);
    assert_eq!(notation.turn(), Err(Error::InvalidNotation(input)));
}

#[test]
fn bad_notation_6() {
    let input = "1/bar/10".to_string();
    let notation = Notation::new(input.clone(), Player::White);
    assert_eq!(notation.turn(), Err(Error::InvalidNotation(input)));
}

#[test]
fn bad_notation_7() {
    let input = "off/10/3".to_string();
    let notation = Notation::new(input.clone(), Player::Black);
    assert_eq!(notation.turn(), Err(Error::InvalidNotation(input)));
}

#[test]
fn bad_notation_8() {
    let input = "off/10/3".to_string();
    let notation = Notation::new(input.clone(), Player::White);
    assert_eq!(notation.turn(), Err(Error::InvalidNotation(input)));
}

#[test]
fn bad_notation_9() {
    let input = "19/off/21".to_string();
    let notation = Notation::new(format!("bar/10/off {input}"), Player::Black);
    assert_eq!(notation.turn(), Err(Error::InvalidNotation(input)));
}

#[test]
fn bad_notation_10() {
    let input = "19/off/21".to_string();
    let notation = Notation::new(format!("bar/10/off {input}"), Player::White);
    assert_eq!(notation.turn(), Err(Error::InvalidNotation(input)));
}

#[test]
fn groups_may_be_parted_by_any_white_space() {
    let notation = Notation::new("  1/2\t\n3/4\u{3000}5/6 \r\n".to_string(), Player::Black);
    let turn = turn(
        Player::Black,
        &[(S::P(0), S::P(1)), (S::P(2), S::P(3)), (S::P(4), S::P(5))],
    );
    assert_eq!(notation.turn(), Ok(turn));
    let blank = Notation::new(" \t ".to_string(), Player::Black);
    assert_eq!(blank.turn(), Ok(Turn(vec![])));
}

#[test]
fn a_single_field_is_no_group() {
    for input in ["bar", "off", "12", "/", "1/", "/1", "1//2", "bar/", "1/2/", "a/b"] {
        let notation = Notation::new(input.to_string(), Player::Black);
        assert_eq!(notation.turn(), Err(Error::InvalidNotation(input.to_string())));
    }
}

#[test]
fn the_first_bad_group_is_reported() {
    let notation = Notation::new("1/2 x/3 4/y".to_string(), Player::White);
    assert_eq!(notation.turn(), Err(Error::InvalidNotation("x/3".to_string())));
}

#[test]
fn numbers_that_name_no_point_are_refused() {
    let high = Notation::new("1/26".to_string(), Player::Black);
    assert_eq!(high.turn(), Err(Error::InvalidNormalizedLocation(26, Player::Black)));
    let zero = Notation::new("0/3".to_string(), Player::White);
    assert_eq!(zero.turn(), Err(Error::InvalidIndexLocation(0)));
    let bar = Notation::new("3/25".to_string(), Player::White);
    assert_eq!(bar.turn(), Err(Error::InvalidIndexLocation(25)));
    let nobody = Notation::new("3/4".to_string(), Player::Nobody);
    assert_eq!(nobody.turn(), Err(Error::InvalidNormalizedLocation(3, Player::Nobody)));
    let first = Notation::new("1/2 30/40".to_string(), Player::Black);
    assert_eq!(first.turn(), Err(Error::InvalidNormalizedLocation(30, Player::Black)));
}

#[test]
fn leading_zeros_are_read_as_digits() {
    let notation = Notation::new("007/03".to_string(), Player::Black);
    assert_eq!(notation.turn(), Ok(turn(Player::Black, &[(S::P(6), S::P(2))])));
}

#[test]
fn a_number_too_long_for_the_machine_is_no_number() {
    let input = "1/99999999999999999999999999999999999999999".to_string();
    let notation = Notation::new(input.clone(), Player::Black);
    assert_eq!(notation.turn(), Err(Error::InvalidNotation(input)));
}

#[test]
fn digits_of_other_scripts_are_no_digits() {
    let input = "1/\u{0663}".to_string();
    let notation = Notation::new(input.clone(), Player::Black);
    assert_eq!(notation.turn(), Err(Error::InvalidNotation(input)));
}

#[test]
fn board_spaces_are_read_field_by_field() {
    let notation = Notation::new("bar/24/1/off".to_string(), Player::White);
    assert_eq!(
        notation.get_board_spaces(),
        Ok(vec![
            space(Player::White, S::Bar),
            space(Player::White, S::P(0)),
            space(Player::White, S::P(23)),
            space(Player::White, S::Off),
        ])
    );
    let unknown = Notation::new("1/x".to_string(), Player::White);
    assert_eq!(unknown.get_board_spaces(), Err(Error::InvalidNotation("1/x".to_string())));
    let single = Notation::new("7".to_string(), Player::Black);
    assert_eq!(single.get_board_spaces(), Ok(vec![space(Player::Black, S::P(6))]));
    assert_eq!(single.get_play_group(), Ok(vec![]));
}

#[test]
fn a_chain_gives_one_play_for_each_step() {
    let notation = Notation::new("10/7/5".to_string(), Player::Black);
    assert_eq!(
        notation.get_play_group(),
        Ok(turn(Player::Black, &[(S::P(9), S::P(6)), (S::P(6), S::P(4))]).0)
    );
}

#[test]
fn plays_are_written_from_the_players_side() {
    let black = Play::new(Player::Black, space(Player::Black, S::P(9)), space(Player::Black, S::P(6)));
    assert_eq!(black.to_string(), "10/7");
    let white = Play::new(Player::White, space(Player::White, S::P(9)), space(Player::White, S::P(12)));
    assert_eq!(white.to_string(), "15/12");
    let enter = Play::new(Player::White, space(Player::White, S::Bar), space(Player::White, S::P(3)));
    assert_eq!(enter.to_string(), "bar/21");
    let off = Play::new(Player::Black, space(Player::Black, S::P(0)), space(Player::Black, S::Off));
    assert_eq!(off.to_string(), "1/off");
}

#[test]
fn turns_are_shown_and_written() {
    let t = turn(Player::Black, &[(S::Bar, S::P(20)), (S::P(7), S::P(3)), (S::P(3), S::Off)]);
    assert_eq!(t.to_string(), "Turn(bar/21, 8/4, 4/off)");
    assert_eq!(t.notation(), "bar/21 8/4 4/off");
    let none = turn(Player::Black, &[]);
    assert_eq!(none.to_string(), "Turn()");
    assert_eq!(none.notation(), "");
}

#[test]
fn what_is_written_is_read_back() {
    for player in [Player::Black, Player::White] {
        let mut plays = Vec::new();
        for from in 0..24 {
            for to in [0usize, 5, 11, 23] {
                plays.push((S::P(from), S::P(to)));
            }
            plays.push((S::Bar, S::P(from)));
            plays.push((S::P(from), S::Off));
        }
        plays.push((S::Bar, S::Off));
        let t = turn(player, &plays);
        let text = t.notation();
        assert_eq!(Notation::new(text, player).turn(), Ok(t));
    }
}

#[test]
fn the_distance_of_a_turn_is_the_sum_of_its_plays() {
    let board = backgammon::board::Board::empty();
    let t = turn(Player::Black, &[(S::Bar, S::P(18)), (S::P(7), S::P(3)), (S::P(4), S::Off)]);
    assert_eq!(t.distance(&board), 6 + 4 + 5);
    assert_eq!(turn(Player::Black, &[]).distance(&board), 0);
    let w = turn(Player::White, &[(S::Bar, S::P(5)), (S::P(19), S::Off)]);
    assert_eq!(w.distance(&board), 6 + 5);
}

#[test]
fn direction_depends_on_the_player() {
    let board = backgammon::board::Board::empty();
    let down = (S::P(10), S::P(7));
    let black = Play::new(Player::Black, space(Player::Black, down.0), space(Player::Black, down.1));
    assert!(black.is_valid_direction(&board));
    let white = Play::new(Player::White, space(Player::White, down.0), space(Player::White, down.1));
    assert!(!white.is_valid_direction(&board));
    let still = Play::new(Player::Black, space(Player::Black, S::P(4)), space(Player::Black, S::P(4)));
    assert!(!still.is_valid_direction(&board));
}
