//! Adversarial game-tree search for chess: a static evaluator, a direct-mapped
//! transposition table, alpha-beta search with a capture extension and an
//! iterative-deepening driver, with the rules of the game supplied by the
//! `chess` crate.

pub mod clock;
pub mod moves;
pub mod position;
pub mod evaluate;
pub mod table;
pub mod search;
pub mod driver;
pub mod guarantees;
pub mod isolation;
