//! The modes that select a threshold profile.

use vstd::prelude::*;

verus! {

/// How an axis is judged active.
#[derive(Debug, Clone, Copy, PartialEq, Eq, Structural)]
pub enum AxisActivationMode {
    Absolute,
    Relative,
    Hybrid,
}

/// Which scoring rules apply.
#[derive(Debug, Clone, Copy, PartialEq, Eq, Structural)]
pub enum NuclearScoringMode {
    ImmuneAware,
    StrictBulk,
}

} // verus!
