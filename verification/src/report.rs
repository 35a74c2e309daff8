//! Text building for the reports.

pub mod json;
