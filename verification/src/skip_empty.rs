//! Predicates that tell whether a field holds its empty value. A field whose
//! value is empty is left out when the structure is written or shown.

use vstd::prelude::*;

verus! {

/// True when the integer is zero.
pub fn i64(v: &i64) -> (empty: bool)
    ensures
        empty == (*v == 0),
{
    *v == 0
}

/// True when the flag is not set.
pub fn bool(v: &bool) -> (empty: bool)
    ensures
        empty == !*v,
{
    !*v
}

/// True when the text has no characters.
pub fn string(v: &String) -> (empty: bool)
    ensures
        empty == (v@.len() == 0),
{
    v.as_str().is_empty()
}

} // verus!
