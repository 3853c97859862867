//! Small shared helpers: timezone conversion for naive timestamps and the
//! retry wrapper around fallible operations.

use vstd::prelude::*;

use crate::listing::NaiveDateTime;

verus! {

/// Largest timezone offset magnitude accepted, in seconds (one day).
pub const MAX_TZ_OFFSET: i64 = 86400;

/// UTC seconds of a naive timestamp: the naive value is read in the given
/// fixed offset when one is known, and as UTC otherwise.
pub open spec fn spec_naive_to_utc(naive: int, timezone: Option<i64>) -> int {
    match timezone {
        None => naive,
        Some(offset) => naive - offset,
    }
}

/// Convert a naive timestamp to UTC seconds under an optional fixed offset
/// (seconds east of UTC).
pub fn naive_to_utc(naive: &NaiveDateTime, timezone: Option<i64>) -> (r: i64)
    requires
        i64::MIN + MAX_TZ_OFFSET <= naive.secs <= i64::MAX - MAX_TZ_OFFSET,
        timezone matches Some(o) ==> -MAX_TZ_OFFSET <= o <= MAX_TZ_OFFSET,
    ensures
        r == spec_naive_to_utc(naive.secs as int, timezone),
{
    match timezone {
        None => naive.secs,
        Some(offset) => naive.secs - offset,
    }
}

/// Run `closure` until it succeeds, allowing `retry` additional attempts
/// after the first failure; the result is one the closure itself returned.
pub fn again<T, E, F: Fn() -> Result<T, E>>(closure: F, retry: usize) -> (r: Result<T, E>)
    requires
        retry < usize::MAX,
        closure.requires(()),
    ensures
        closure.ensures((), r),
{
    let mut count: usize = 0;
    loop
        invariant
            count <= retry,
            retry < usize::MAX,
            closure.requires(()),
        decreases retry - count,
    {
        match closure() {
            Ok(x) => {
                return Ok(x);
            },
            Err(e) => {
                count += 1;
                if count > retry {
                    return Err(e);
                }
            },
        }
    }
}

} // verus!
