//! Flags that the axis stage raises for a cell.

use vstd::prelude::*;

verus! {

/// What the axis stage found wanting in a cell.
#[derive(Debug, Clone, Copy, PartialEq, Eq, Structural)]
pub struct AxisFlags {
    pub low_tf_signal: bool,
}

impl Default for AxisFlags {
    fn default() -> (flags: AxisFlags)
        ensures
            !flags.low_tf_signal,
    {
        AxisFlags { low_tf_signal: false }
    }
}

} // verus!
