//! The stages that lead from a loaded input to the reports, as far as they
//! decide on whole numbers and text.

pub mod stage2_normalize;
pub mod stage6_classify;
pub mod stage7_report;
