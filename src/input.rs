//! Checks on numbers that a user typed.
use vstd::prelude::*;

use crate::text::{decimal, push_decimal};

verus! {

/// The last number of the half-open range ending at `end`, as text (`-1`
/// for an empty range ending at 0).
pub open spec fn last_of_range(end: u32) -> Seq<char> {
    if end == 0 {
        "-1"@
    } else {
        decimal((end - 1) as nat)
    }
}

/// The complaint about a number outside `start..end`.
pub open spec fn out_of_range_message(start: u32, end: u32) -> Seq<char> {
    "Invalid number: Expected a number between "@ + decimal(start as nat) + " and "@ + last_of_range(end)
        + "!"@
}

/// `x` if it lies in `r`, else the complaint naming the first and last
/// numbers of `r`.
pub fn get_in_range(x: u32, r: std::ops::Range<u32>) -> (res: Result<u32, String>)
    ensures
        r.start <= x < r.end ==> res == Ok::<u32, String>(x),
        !(r.start <= x < r.end) ==> (res matches Err(m) && m@ == out_of_range_message(r.start, r.end)),
{
    if r.start <= x && x < r.end {
        return Ok(x);
    }
    let mut m = String::from_str("Invalid number: Expected a number between ");
    push_decimal(&mut m, r.start);
    m.append(" and ");
    if r.end == 0 {
        m.append("-1");
    } else {
        push_decimal(&mut m, r.end - 1);
    }
    m.append("!");
    Err(m)
}

} // verus!
