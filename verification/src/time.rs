//! Clock and minute-bucket helpers.

use chrono::FixedOffset;
use chrono::TimeZone;
use chrono::Utc;
use vstd::prelude::*;

verus! {

/// Milliseconds per minute.
pub const MS_PER_MINUTE: u64 = 60000;

/// Largest millisecond timestamp the readable-time formatters accept;
/// comfortably inside chrono's supported date range.
pub const MAX_FORMAT_MS: u64 = 8_000_000_000_000_000;

/// Largest minute value the readable-time formatters accept.
pub const MAX_FORMAT_MINUTE: u64 = 130_000_000_000;

/// Largest second value the formatters pass to chrono; also comfortably
/// inside chrono's supported date range.
pub const MAX_FORMAT_SECS: u64 = 8_000_000_000_000;

/// Relies on std::time::SystemTime: milliseconds since the Unix epoch.
/// Nothing is promised of a clock reading; callers state what holds for
/// every value handed back.
#[verifier::external_body]
pub fn unix_now() -> u64 {
    match std::time::UNIX_EPOCH.elapsed() {
        Ok(d) => d.as_millis() as u64,
        Err(_) => 0,
    }
}

/// The minute bucket a millisecond timestamp falls in.
pub fn ms_to_minute_scale(ms: u64) -> (r: u64)
    ensures
        r == ms / MS_PER_MINUTE,
{
    ms / MS_PER_MINUTE
}

/// The most recent minute whose verification deadline has fully elapsed at
/// `time` (milliseconds), for a timeout given in seconds: every pending entry
/// created in that minute has already reached its deadline.
pub fn get_latest_finalized_minute(time: u64, timeout: u64) -> (r: u64)
    requires
        timeout <= u64::MAX / 1000,
        time >= timeout * 1000 + MS_PER_MINUTE,
    ensures
        r == spec_finalized_minute(time, timeout),
{
    let cutoff: u64 = time - timeout * 1000;
    cutoff / MS_PER_MINUTE - 1
}

/// Minute identifier of the latest finalized minute: one bucket before the
/// one holding `time` less the timeout window.
pub open spec fn spec_finalized_minute(time: u64, timeout: u64) -> u64 {
    ((time - timeout * 1000) / (MS_PER_MINUTE as int) - 1) as u64
}

/// Name for chrono's second-resolution rendering (UTC+8,
/// `%Y-%m-%d %H:%M:%S`) of a second count; it depends on the seconds alone.
pub uninterp spec fn readable_secs_full(secs: u64) -> Seq<char>;

/// Name for chrono's minute-resolution rendering (UTC+8, `%Y-%m-%d %H:%M`)
/// of a second count; it depends on the seconds alone.
pub uninterp spec fn readable_secs_short(secs: u64) -> Seq<char>;

/// Relies on chrono's `TimeZone::timestamp_opt` and `DateTime::format`:
/// a fixed-offset (UTC+8) rendering, a pure function of the seconds.
/// In range, `timestamp_opt` returns a single value, so no branch panics.
#[verifier::external_body]
fn format_secs_full(secs: u64) -> (r: String)
    requires
        secs <= MAX_FORMAT_SECS,
    ensures
        r@ == readable_secs_full(secs),
{
    Utc.timestamp_opt(secs as i64, 0)
        .unwrap()
        .with_timezone(&FixedOffset::east_opt(8 * 3600).unwrap())
        .format("%Y-%m-%d %H:%M:%S")
        .to_string()
}

/// Relies on chrono's `TimeZone::timestamp_opt` and `DateTime::format`:
/// a fixed-offset (UTC+8) rendering, a pure function of the seconds.
/// In range, `timestamp_opt` returns a single value, so no branch panics.
#[verifier::external_body]
fn format_secs_short(secs: u64) -> (r: String)
    requires
        secs <= MAX_FORMAT_SECS,
    ensures
        r@ == readable_secs_short(secs),
{
    Utc.timestamp_opt(secs as i64, 0)
        .unwrap()
        .with_timezone(&FixedOffset::east_opt(8 * 3600).unwrap())
        .format("%Y-%m-%d %H:%M")
        .to_string()
}

/// Renders a millisecond timestamp at second resolution, UTC+8.
pub fn get_readable_time_from_millisecond(timestamp: u64) -> (r: String)
    requires
        timestamp <= MAX_FORMAT_MS,
    ensures
        r@ == readable_secs_full((timestamp / 1000) as u64),
{
    format_secs_full(timestamp / 1000)
}

/// Renders a minute identifier at minute resolution, UTC+8.
pub fn get_readable_time_from_minute(timestamp: u64) -> (r: String)
    requires
        timestamp <= MAX_FORMAT_MINUTE,
    ensures
        r@ == readable_secs_short((timestamp * 60) as u64),
{
    format_secs_short(timestamp * 60)
}

} // verus!
