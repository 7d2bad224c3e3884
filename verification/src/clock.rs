//! Reading the clocks. Every value here depends on when it is read, so nothing is
//! promised of it; the functions that use these readings are verified for every value.
use vstd::prelude::*;

verus! {

#[verifier::external_type_specification]
#[verifier::external_body]
pub struct ExInstant(std::time::Instant);

/// `std::time::Instant::now`: a reading of the monotonic clock.
#[verifier::external_body]
pub(crate) fn instant_now() -> std::time::Instant {
    std::time::Instant::now()
}

/// `Instant::elapsed` in whole milliseconds (saturating at `u64::MAX`).
#[verifier::external_body]
pub(crate) fn elapsed_millis(since: &std::time::Instant) -> u64 {
    u64::try_from(since.elapsed().as_millis()).unwrap_or(u64::MAX)
}

/// `Instant::elapsed` in whole seconds (`Duration::as_secs`).
#[verifier::external_body]
pub(crate) fn elapsed_secs(since: &std::time::Instant) -> u64 {
    since.elapsed().as_secs()
}

/// `chrono::Utc::now().timestamp_millis()`: milliseconds since the Unix epoch.
#[verifier::external_body]
pub(crate) fn utc_now_millis() -> i64 {
    chrono::Utc::now().timestamp_millis()
}

/// `chrono::Utc::now().timestamp()`: seconds since the Unix epoch.
#[verifier::external_body]
pub(crate) fn utc_now_secs() -> i64 {
    chrono::Utc::now().timestamp()
}

/// `chrono::Utc::now().to_rfc3339()`: the current time as RFC 3339 text.
#[verifier::external_body]
pub(crate) fn utc_now_rfc3339() -> String {
    chrono::Utc::now().to_rfc3339()
}

/// Nanoseconds since the Unix epoch from `std::time::SystemTime`, truncated to 64 bits
/// (0 if the clock is before the epoch).
#[verifier::external_body]
pub(crate) fn system_time_nanos() -> u64 {
    std::time::SystemTime::now()
        .duration_since(std::time::UNIX_EPOCH)
        .unwrap_or_default()
        .as_nanos() as u64
}

/// The UTC time `ms` milliseconds after the Unix epoch, formatted as `%Y-%m-%d %H:%M`
/// by chrono; nothing when chrono cannot represent that instant.
pub uninterp spec fn utc_minute_text(ms: i64) -> Option<Seq<char>>;

/// `chrono::DateTime::<Utc>::from_timestamp_millis(ms)` formatted with
/// `"%Y-%m-%d %H:%M"`. The result is named [`utc_minute_text`]: the same instant always
/// formats to the same text.
#[verifier::external_body]
pub(crate) fn format_utc_minutes(ms: i64) -> (r: Option<String>)
    ensures
        match r {
            Some(s) => utc_minute_text(ms) == Some(s@),
            None => utc_minute_text(ms) is None,
        },
{
    chrono::DateTime::<chrono::Utc>::from_timestamp_millis(ms)
        .map(|t| t.format("%Y-%m-%d %H:%M").to_string())
}

} // verus!
