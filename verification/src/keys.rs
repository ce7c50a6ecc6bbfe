//! Facts about the integer keys the library's ordered maps use.

use vstd::prelude::*;

verus! {

/// Tax years, being `i32`s, are totally ordered the way `BTreeMap` expects.
pub proof fn years_are_ordered()
    ensures
        vstd::laws_cmp::obeys_cmp::<i32>(),
{
    broadcast use vstd::laws_cmp::group_laws_cmp;
}

} // verus!
