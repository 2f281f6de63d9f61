//! Exhaustive casualty statistics for one round of Risk dice combat.

pub mod combination;
pub mod dice;
pub mod resolution;
pub mod summary;
pub mod tally;

pub use combination::{Attack, Defend, Strategy};
pub use dice::Dice;
pub use resolution::{decide, Losses};
pub use summary::{Aggregator, LossesSummary, StrategySummary};
pub use tally::{resolve_all, tally, tally_all, Matchup};
