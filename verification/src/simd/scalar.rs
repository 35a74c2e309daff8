//! The scalar backend.

use vstd::prelude::*;

verus! {

/// The name of this backend.
pub fn backend_name() -> (name: &'static str)
    ensures
        name@ == "scalar"@,
{
    "scalar"
}

} // verus!
