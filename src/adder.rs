use vstd::prelude::*;

verus! {

/// Adds two to `x`.
pub fn add_two(x: u64) -> (r: u64)
    requires
        x <= u64::MAX - 2,
    ensures
        r == x + 2,
{
    x + 2
}

} // verus!
