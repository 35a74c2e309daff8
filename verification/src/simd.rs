//! The backend of the reduction kernels.

use vstd::prelude::*;

pub mod scalar;

verus! {

/// The name of the library's backend: the scalar one, which takes the
/// values in index order. The library holds no other backend, so the name
/// is the same in every process, whatever the machine offers.
pub fn backend_name() -> (name: &'static str)
    ensures
        name@ == "scalar"@,
{
    scalar::backend_name()
}

} // verus!
