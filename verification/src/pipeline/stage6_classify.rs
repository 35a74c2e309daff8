//! The result of classifying a cell.

use vstd::prelude::*;
use crate::model::flags::Flag;
use crate::model::regimes::NuclearRegime;

verus! {

/// The regime of a cell and the flags raised for it, in reporting order.
#[derive(Debug, Clone)]
pub struct Classification {
    pub regime: NuclearRegime,
    pub flags: Vec<Flag>,
}

} // verus!
