//! Deterministic, seed-reproducible dice over the balanced-ternary domain
//! {-1, 0, +1}: an xorshift32 generator, weighted ternary dice, sets and
//! rollers of dice, roll statistics, the integer side of weight
//! rebalancing, and a table of narrative fates.

pub mod dice;
pub mod dice_set;
pub mod fates;
pub mod prng;
pub mod rebalance;
pub mod roller;
pub mod statistics;
pub mod trit;

pub use dice::Dice;
pub use dice_set::DiceSet;
pub use fates::{FatesEntry, FatesTable, Severity};
pub use prng::Prng;
pub use rebalance::rebalanced_weights;
pub use roller::DiceRoller;
pub use statistics::DiceStatistics;
pub use trit::Trit;
