//! The regimes that a cell can be classified into.

use vstd::prelude::*;

verus! {

/// The nuclear regime of a cell.
#[derive(Debug, Clone, Copy, PartialEq, Eq, Structural)]
pub enum NuclearRegime {
    PlasticAdaptive,
    StressAdaptive,
    CommittedState,
    RigidDegenerative,
    TranscriptionallyCollapsed,
    TransientAdaptive,
    Unclassified,
}

} // verus!
