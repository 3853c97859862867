//! Trusted boundary around `chrono`'s datetime parsing: a naive timestamp
//! read from text under a format string, named as a function of both.

use vstd::prelude::*;

use crate::bytes::text_bytes;
use crate::listing::NaiveDateTime;

verus! {

/// The naive timestamp (seconds since the epoch, on the unspecified clock)
/// that `chrono::NaiveDateTime::parse_from_str` reads from `s` under the
/// format `fmt`; `None` when the text does not fit the format.
pub uninterp spec fn parsed_datetime(s: Seq<u8>, fmt: Seq<u8>) -> Option<int>;

/// Relies on `chrono::NaiveDateTime::parse_from_str`: read a naive timestamp
/// under a strftime-style format.
#[verifier::external_body]
pub fn parse_naive_datetime(s: &str, fmt: &str) -> (r: Option<NaiveDateTime>)
    ensures
        match r {
            Some(t) => parsed_datetime(text_bytes(s@), text_bytes(fmt@)) == Some(t.secs as int),
            None => parsed_datetime(text_bytes(s@), text_bytes(fmt@)) is None,
        },
{
    let parsed = chrono::NaiveDateTime::parse_from_str(s, fmt).ok()?;
    Some(NaiveDateTime { secs: parsed.and_utc().timestamp() })
}

} // verus!
