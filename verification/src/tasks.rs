//! Functions as lite tasks.

use vstd::prelude::*;

verus! {

/// A lite task made of a future.
pub struct FnTask<F>(pub F);

} // verus!
