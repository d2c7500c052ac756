//! What holds of the store as a whole.

pub mod batching;
pub mod committing;
pub mod contents;
pub mod effects;
pub mod ending;
pub mod failing;
pub mod finding;
pub mod importing;
pub mod keeping;
pub mod naming;
pub mod opening;
pub mod order;
pub mod reading;
pub mod selecting;
pub mod sharing;
pub mod views;
pub mod writing;
