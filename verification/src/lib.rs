//! Ingestion core for single-cell expression matrices: the binary container
//! and text matrix readers, the gene index, the normalization cache format and
//! the content hashes that key it.

pub mod cli;
pub mod input;
pub mod model;
pub mod panels;
pub mod paths;
pub mod pipeline;
pub mod report;
pub mod simd;
pub mod text;
