//! Timezone conversion and the retry wrapper.

use tsumugu::utils::{again, naive_to_utc};
use tsumugu::NaiveDateTime;

#[test]
fn test_naive_to_utc() {
    let parsed = chrono::NaiveDateTime::parse_from_str("2021-01-01 00:00:00", "%Y-%m-%d %H:%M:%S")
        .unwrap();
    let naive = NaiveDateTime::from_timestamp(parsed.and_utc().timestamp());
    let utc = naive_to_utc(&naive, Some(3600 * 8));
    assert_eq!(
        chrono::DateTime::<chrono::Utc>::from_timestamp(utc, 0).unwrap().to_string(),
        "2020-12-31 16:00:00 UTC"
    );
    let utc = naive_to_utc(&naive, None);
    assert_eq!(
        chrono::DateTime::<chrono::Utc>::from_timestamp(utc, 0).unwrap().to_string(),
        "2021-01-01 00:00:00 UTC"
    );
}

#[test]
fn retry_returns_what_the_call_returned() {
    let ok: Result<i32, i32> = again(|| Ok(5), 3);
    assert_eq!(ok, Ok(5));
    let err: Result<i32, i32> = again(|| Err(7), 2);
    assert_eq!(err, Err(7));
}
