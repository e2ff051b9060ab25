//! The small functions of the handbook tour.

use vstd::prelude::*;

verus! {

/// The text of the greeting.
pub open spec fn greeting() -> Seq<char> {
    "Hello!"@
}

/// The greeting, as a string that the caller owns.
pub fn hello() -> (s: String)
    ensures
        s@ == greeting(),
{
    String::from_str("Hello!")
}

/// Writes a hundred through an exclusive borrow.
pub fn mutable_borrow(i: &mut i32)
    ensures
        *final(i) == 100,
{
    *i = 100;
}

/// A computation that can fail by design, and here does not: it succeeds
/// with five.
pub fn this_could_be_bad() -> (r: Result<i32, String>)
    ensures
        r == Ok::<i32, String>(5),
{
    Ok(5)
}

} // verus!
