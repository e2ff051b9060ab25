//! The small functions of the guided session: one for each way in which a
//! value is handed to a function, and one for each way in which a function
//! reports a failure.

use vstd::prelude::*;

verus! {

/// A computation that can fail by design, and here does not: it succeeds
/// with five.
pub fn maybe_could_go_wrong() -> (r: Result<i32, String>)
    ensures
        r == Ok::<i32, String>(5),
{
    Ok(5)
}

/// The sum of two numbers. The sum must fit the type.
pub fn add(a: i32, b: i32) -> (sum: i32)
    requires
        i32::MIN <= a + b <= i32::MAX,
    ensures
        sum == a + b,
{
    a + b
}

/// Writes five through an exclusive borrow. The borrow ends with the call;
/// the number that it pointed to stays.
pub fn mutable_borrow(i: &mut i32)
    ensures
        *final(i) == 5,
{
    *i = 5;
}

/// Accepts five and nothing else: for a caller that cannot go on with any
/// other number.
pub fn this_must_be_five(i: i32)
    requires
        i == 5,
{
}

} // verus!
