//! A small persistence and analytics layer for logging beverage consumption
//! events and tracking them against a user-defined goal.
//!
//! The store keeps two kinds of records: consumption entries and a single
//! current goal. Quantities are fixed-point integers so that every
//! computation is exact: alcohol percentages and volumes are held in
//! hundredths of a unit (a volume of `330.0` ml is stored as `33000`).
//! Dates are ISO-formatted strings ordered lexicographically.

pub mod dates;
pub mod entry;
pub mod error;
pub mod goal;
pub mod ids;
pub mod laws;
pub mod lex;
pub mod seqtools;
pub mod stats;
pub mod store;

pub use entry::BeerEntry;
pub use error::BrewLogError;
pub use goal::ConsumptionGoal;
pub use stats::Baseline;
pub use stats::ProgressStats;
pub use store::BrewLog;
