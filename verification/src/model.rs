//! The vocabulary of the scoring model: flags, regimes and modes.

pub mod axes;
pub mod flags;
pub mod regimes;
pub mod thresholds;
