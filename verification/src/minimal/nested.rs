//! A module below the root of the sample, for a type with a longer path.

use vstd::prelude::*;

verus! {

/// A struct without fields that shares its name with one at the root.
pub struct UnitStruct;

} // verus!
