use backgammon::dice_roll::DiceRoll;
use backgammon::Error;

#[test]
fn test_dice_from() {
    let dice = DiceRoll::from([3, 5]);
    assert_eq!(dice.dice, [3, 5]);
    assert_eq!(dice.available, vec![3, 5]);
}

#[test]
fn test_dice_doubles() {
    let dice = DiceRoll::from([4, 4]);
    assert_eq!(dice.dice, [4, 4]);
    // For doubles, we get 4 available uses of the die value
    assert_eq!(dice.available, vec![4, 4, 4, 4]);
}

#[test]
fn test_remove_die() {
    let mut dice = DiceRoll::from([2, 5]);
    assert!(dice.contains(2));
    assert!(dice.consume(2).is_ok());
    assert!(!dice.contains(2));
    assert!(dice.contains(5));
}

#[test]
fn test_remove_unavailable_die() {
    let mut dice = DiceRoll::from([2, 5]);
    assert!(dice.consume(3).is_err());
}

#[test]
fn test_max() {
    let dice = DiceRoll::from([2, 5]);
    assert_eq!(dice.max(), 5);

    let mut dice = DiceRoll::from([2, 5]);
    assert!(dice.consume(5).is_ok());
    assert_eq!(dice.max(), 2);

    let mut empty_dice = DiceRoll::from([2, 5]);
    assert!(empty_dice.consume(2).is_ok());
    assert!(empty_dice.consume(5).is_ok());
    assert_eq!(empty_dice.max(), 0);
}

#[test]
fn test_any_available() {
    let dice = DiceRoll::from([2, 5]);
    assert!(dice.any_available());

    let mut empty_dice = DiceRoll::from([2, 5]);
    assert!(empty_dice.consume(2).is_ok());
    assert!(empty_dice.consume(5).is_ok());
    assert!(!empty_dice.any_available());
}

#[test]
fn test_available_rolls() {
    let dice = DiceRoll::from([2, 5]);
    assert_eq!(dice.available, vec![2, 5]);

    let dice_doubles = DiceRoll::from([3, 3]);
    assert_eq!(dice_doubles.available, vec![3, 3, 3, 3]);
}

#[test]
fn test_display() {
    let dice = DiceRoll::from([2, 5]);
    assert_eq!(dice.to_string(), "2-5");
    assert_eq!(dice.to_alternate_string(), "⚁-⚄");
}

#[test]
fn available_is_sorted_whatever_the_order_of_the_dice() {
    let dice = DiceRoll::from([6, 1]);
    assert_eq!(dice.dice, [6, 1]);
    assert_eq!(dice.available, vec![1, 6]);
    assert_eq!(dice.iter(), &vec![1, 6]);
}

#[test]
fn consume_reports_the_length_and_changes_nothing() {
    let mut dice = DiceRoll::from([2, 5]);
    assert_eq!(dice.consume(3), Err(Error::InvalidPlayLength(3)));
    assert_eq!(dice.available, vec![2, 5]);
}

#[test]
fn a_double_is_used_up_in_four_plays() {
    let mut dice = DiceRoll::from([3, 3]);
    for left in [3usize, 2, 1, 0] {
        assert_eq!(dice.consume(3), Ok(()));
        assert_eq!(dice.available.len(), left);
    }
    assert_eq!(dice.consume(3), Err(Error::InvalidPlayLength(3)));
    assert_eq!(dice.dice, [3, 3]);
}

#[test]
fn a_roll_has_two_dice_between_one_and_six() {
    let mut seen = [false; 7];
    for _ in 0..400 {
        let roll = DiceRoll::new();
        for die in roll.dice {
            assert!((1..=6).contains(&die));
            seen[usize::from(die)] = true;
        }
        if roll.dice[0] == roll.dice[1] {
            assert_eq!(roll.available, vec![roll.dice[0]; 4]);
        } else {
            assert_eq!(roll.available.len(), 2);
            assert!(roll.available[0] < roll.available[1]);
        }
    }
    assert!(seen[1..].iter().filter(|s| **s).count() >= 2);
}

#[test]
fn an_opening_roll_has_two_different_dice() {
    let mut seen = [false; 7];
    for _ in 0..400 {
        let roll = DiceRoll::opening();
        assert!((1..=6).contains(&roll.dice[0]));
        assert!((1..=6).contains(&roll.dice[1]));
        assert_ne!(roll.dice[0], roll.dice[1]);
        assert_eq!(roll.available.len(), 2);
        seen[usize::from(roll.dice[0])] = true;
    }
    assert!(seen[1..].iter().filter(|s| **s).count() >= 2);
}

#[test]
fn dice_above_six_are_shown_as_numbers() {
    assert_eq!(DiceRoll::from([10, 255]).to_string(), "10-255");
    assert_eq!(DiceRoll::from([0, 6]).to_string(), "0-6");
}
