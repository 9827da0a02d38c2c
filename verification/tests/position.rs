use backgammon::position::{DenormalizedPosition, IndexPosition, NormalizedPosition};
use backgammon::player::Player;
use backgammon::Error;

#[test]
fn position_bad_normalized_position_1() {
    assert_eq!(
        NormalizedPosition::new(27, Player::Black),
        Err(Error::InvalidNormalizedPosition(27, Player::Black))
    );
}

#[test]
fn position_bad_normalized_position_2() {
    assert_eq!(
        NormalizedPosition::new(209, Player::White),
        Err(Error::InvalidNormalizedPosition(209, Player::White))
    );
}

#[test]
fn position_bad_normalized_position_3() {
    assert_eq!(
        NormalizedPosition::new(10, Player::Nobody),
        Err(Error::InvalidNormalizedPosition(10, Player::Nobody))
    );
}

#[test]
fn position_bad_denormalized_position_1() {
    assert_eq!(DenormalizedPosition::try_from(26), Err(Error::InvalidDenormalizedPosition(26)));
}

#[test]
fn position_bad_denormalized_position_2() {
    assert_eq!(DenormalizedPosition::try_from(87), Err(Error::InvalidDenormalizedPosition(87)));
}

#[test]
fn position_bad_index_position_1() {
    assert_eq!(IndexPosition::try_from(24), Err(Error::InvalidIndexPosition(24)));
}

#[test]
fn position_bad_index_position_2() {
    assert_eq!(IndexPosition::try_from(67), Err(Error::InvalidIndexPosition(67)));
}

#[test]
fn position_normalized_position_to_index_1() -> Result<(), Error> {
    assert_eq!(
        NormalizedPosition::new(1, Player::Black)?.to_index(),
        Ok(IndexPosition::try_from(0)?)
    );
    Ok(())
}

#[test]
fn position_normalized_position_to_index_2() -> Result<(), Error> {
    assert_eq!(
        NormalizedPosition::new(20, Player::Black)?.to_index(),
        Ok(IndexPosition::try_from(19)?)
    );
    Ok(())
}

#[test]
fn position_normalized_position_to_index_3() -> Result<(), Error> {
    assert_eq!(
        NormalizedPosition::new(24, Player::White)?.to_index(),
        Ok(IndexPosition::try_from(0)?)
    );
    Ok(())
}

#[test]
fn position_normalized_position_to_index_4() -> Result<(), Error> {
    assert_eq!(
        NormalizedPosition::new(10, Player::White)?.to_index(),
        Ok(IndexPosition::try_from(14)?)
    );
    Ok(())
}

#[test]
fn position_bad_normalized_position_to_index_1() -> Result<(), Error> {
    assert_eq!(
        NormalizedPosition::new(25, Player::Black)?.to_index(),
        Err(Error::InvalidIndexPosition(25))
    );
    Ok(())
}

#[test]
fn position_bad_normalized_bad_position_to_index_2() -> Result<(), Error> {
    assert_eq!(
        NormalizedPosition::new(0, Player::Black)?.to_index(),
        Err(Error::InvalidIndexPosition(0))
    );
    Ok(())
}

#[test]
fn position_bad_normalized_position_to_index_3() -> Result<(), Error> {
    assert_eq!(
        NormalizedPosition::new(25, Player::White)?.to_index(),
        Err(Error::InvalidIndexPosition(25))
    );
    Ok(())
}

#[test]
fn position_bad_normalized_bad_position_to_index_4() -> Result<(), Error> {
    assert_eq!(
        NormalizedPosition::new(0, Player::White)?.to_index(),
        Err(Error::InvalidIndexPosition(0))
    );
    Ok(())
}

#[test]
fn position_index_position_to_normalized_1() -> Result<(), Error> {
    assert_eq!(
        IndexPosition::try_from(0)?.normalize(Player::Black),
        NormalizedPosition::new(1, Player::Black)?
    );
    Ok(())
}

#[test]
fn position_index_position_to_normalized_2() -> Result<(), Error> {
    assert_eq!(
        IndexPosition::try_from(19)?.normalize(Player::Black),
        NormalizedPosition::new(20, Player::Black)?
    );
    Ok(())
}

#[test]
fn position_index_position_to_normalized_3() -> Result<(), Error> {
    assert_eq!(
        IndexPosition::try_from(23)?.normalize(Player::White),
        NormalizedPosition::new(1, Player::White)?
    );
    Ok(())
}

#[test]
fn position_index_position_to_normalized_4() -> Result<(), Error> {
    assert_eq!(
        IndexPosition::try_from(14)?.normalize(Player::White),
        NormalizedPosition::new(10, Player::White)?
    );
    Ok(())
}

#[test]
fn every_index_position_comes_back_from_both_perspectives() {
    for player in [Player::Black, Player::White] {
        for i in 0..24 {
            let index = IndexPosition::try_from(i).unwrap();
            assert_eq!(index.normalize(player).to_index(), Ok(index));
            assert_eq!(index.denormalize().value(), i + 1);
        }
    }
}
