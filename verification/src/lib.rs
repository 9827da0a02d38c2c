//! A rules engine for backgammon: coordinates, board, dice, move notation and
//! the legality of plays and turns, with every rule stated as a contract.

pub mod board;
pub mod dice;
pub mod dice_roll;
pub mod error;
pub mod game;
pub mod grammar;
pub mod legality;
pub mod location;
pub mod notation;
pub mod player;
pub mod position;
pub mod render;
pub mod roll;
pub mod round_trip;
pub mod turn;

pub use error::Error;
