//! Logic built-ins.

use vstd::prelude::*;

verus! {

/// Logical conjunction of two concrete boolean values.
pub fn and(a: bool, b: bool) -> (r: bool)
    ensures
        r == (a && b),
{
    a && b
}

} // verus!
