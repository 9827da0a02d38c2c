use backgammon::board::{Board, BOARD_SIZE};
use backgammon::location::Index;
use backgammon::notation::PositionRef;
use backgammon::player::Player;

#[test]
fn all_in_home_1() {
    let player = Player::Black;
    let mut board = Board::empty();
    board.point_mut(5).set(1, player);
    println!("{board:?}");
    assert!(board.all_in_home(player));
}

#[test]
fn all_in_home_2() {
    let player = Player::White;
    let mut board = Board::empty();
    board.point_mut(18).set(1, player);
    println!("{board:?}");
    assert!(board.all_in_home(player));
}

#[test]
fn all_in_home_3() {
    let player = Player::Black;
    let mut board = Board::empty();
    board.point_mut(10).set(1, player);
    println!("{board:?}");
    assert!(!board.all_in_home(player));
}

#[test]
fn all_in_home_4() {
    let player = Player::White;
    let mut board = Board::empty();
    board.point_mut(13).set(1, player);
    println!("{board:?}");
    assert!(!board.all_in_home(player));
}

fn pieces(board: &Board, player: Player) -> u32 {
    let mut sum = u32::from(board.bar(player).count) + u32::from(board.rail(player).count);
    for i in 0..BOARD_SIZE {
        if board.point(i).player == player {
            sum += u32::from(board.point(i).count);
        }
    }
    sum
}

#[test]
fn empty_board_holds_no_piece() {
    let board = Board::empty();
    for i in 0..BOARD_SIZE {
        assert_eq!(board.point(i).count, 0);
        assert_eq!(board.point(i).player, Player::Nobody);
        assert_eq!(board.point(i).location.value(), i + 1);
    }
    assert_eq!(board.bar(Player::Black).location.value(), 25);
    assert_eq!(board.bar(Player::White).location.value(), 0);
    assert_eq!(board.rail(Player::Black).location.value(), 0);
    assert_eq!(board.rail(Player::White).location.value(), 25);
    assert_eq!(board.bar(Player::Black).player, Player::Black);
    assert_eq!(board.rail(Player::White).player, Player::White);
    assert_eq!(pieces(&board, Player::Black), 0);
    assert_eq!(pieces(&board, Player::White), 0);
}

#[test]
fn opening_layout_has_fifteen_pieces_a_side() {
    let board = Board::new();
    assert_eq!(pieces(&board, Player::Black), 15);
    assert_eq!(pieces(&board, Player::White), 15);
    let black = [(23, 2), (12, 5), (7, 3), (5, 5)];
    for (index, count) in black {
        assert_eq!(board.point(index).count, count);
        assert_eq!(board.point(index).player, Player::Black);
        assert_eq!(board.point(23 - index).count, count);
        assert_eq!(board.point(23 - index).player, Player::White);
    }
}

#[test]
fn get_finds_each_kind_of_space() {
    let mut board = Board::empty();
    board.point_mut(7).set(3, Player::White);
    board.bar_mut(Player::Black).set(2, Player::Black);
    board.rail_mut(Player::White).set(4, Player::White);
    let point = PositionRef::Point(Index::try_from(7).unwrap());
    assert_eq!(board.get(&point).count, 3);
    assert_eq!(board.get(&PositionRef::Bar(Player::Black)).count, 2);
    assert_eq!(board.get(&PositionRef::Rail(Player::White)).count, 4);
    board.get_mut(&point).set(1, Player::Black);
    assert_eq!(board.point(7).count, 1);
    assert_eq!(board.point(7).player, Player::Black);
    assert_eq!(board.point(7).location.value(), 8);
}

#[test]
fn any_behind_looks_away_from_home() {
    let mut board = Board::empty();
    board.point_mut(10).set(1, Player::Black);
    board.point_mut(12).set(1, Player::White);
    assert!(board.any_behind(9, Player::Black));
    assert!(!board.any_behind(10, Player::Black));
    assert!(!board.any_behind(23, Player::Black));
    assert!(board.any_behind(13, Player::White));
    assert!(!board.any_behind(12, Player::White));
    assert!(!board.any_behind(0, Player::White));
}

#[test]
fn distance_is_symmetric() {
    let board = Board::empty();
    assert_eq!(board.point(3).distance(board.point(9)), 6);
    assert_eq!(board.point(9).distance(board.point(3)), 6);
    assert_eq!(board.bar(Player::Black).distance(board.point(18)), 6);
    assert_eq!(board.point(4).distance(board.rail(Player::Black)), 5);
    assert_eq!(board.point(4).distance(board.point(4)), 0);
}

#[test]
fn boards_are_equal_by_their_spaces() {
    let mut a = Board::empty();
    let mut b = Board::empty();
    assert_eq!(a, b);
    a.point_mut(3).set(1, Player::Black);
    assert_ne!(a, b);
    b.point_mut(3).set(1, Player::Black);
    assert_eq!(a, b);
    b.rail_mut(Player::Black).set(1, Player::Black);
    assert_ne!(a, b);
}
