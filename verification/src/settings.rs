//! Settings rules: stored unit keys, worker limits, defaults and the cutoffs
//! that settings put on history scans and failed jobs.

use vstd::prelude::*;
use crate::domain::{AppSettings, FailedJobRetentionUnit, TimeWindowUnit};
use crate::text::str_eq;

verus! {

pub const MINUTE_MS: i64 = 60_000;

pub const HOUR_MS: i64 = 3_600_000;

pub const DAY_MS: i64 = 86_400_000;

pub const WEEK_MS: i64 = 604_800_000;

/// The fewest download workers the backend runs.
pub const MIN_DOWNLOAD_WORKERS: i32 = 1;

/// The most download workers the backend runs.
pub const MAX_DOWNLOAD_WORKERS: i32 = 6;

pub open spec fn time_window_unit_text(unit: TimeWindowUnit) -> Seq<char> {
    match unit {
        TimeWindowUnit::Disabled => "none"@,
        TimeWindowUnit::Day => "day"@,
        TimeWindowUnit::Week => "week"@,
        TimeWindowUnit::Month => "month"@,
    }
}

pub open spec fn time_window_unit_from(value: Seq<char>) -> TimeWindowUnit {
    if value == "day"@ {
        TimeWindowUnit::Day
    } else if value == "week"@ {
        TimeWindowUnit::Week
    } else if value == "month"@ {
        TimeWindowUnit::Month
    } else {
        TimeWindowUnit::Disabled
    }
}

pub open spec fn failed_retention_unit_text(unit: FailedJobRetentionUnit) -> Seq<char> {
    match unit {
        FailedJobRetentionUnit::Disabled => "none"@,
        FailedJobRetentionUnit::Minute => "minute"@,
        FailedJobRetentionUnit::Hour => "hour"@,
        FailedJobRetentionUnit::Day => "day"@,
    }
}

pub open spec fn failed_retention_unit_from(value: Seq<char>) -> FailedJobRetentionUnit {
    if value == "minute"@ {
        FailedJobRetentionUnit::Minute
    } else if value == "hour"@ {
        FailedJobRetentionUnit::Hour
    } else if value == "day"@ {
        FailedJobRetentionUnit::Day
    } else {
        FailedJobRetentionUnit::Disabled
    }
}

/// The key under which a time window unit is stored.
pub fn time_window_unit_key(unit: TimeWindowUnit) -> (r: &'static str)
    ensures
        r@ == time_window_unit_text(unit),
{
    match unit {
        TimeWindowUnit::Disabled => "none",
        TimeWindowUnit::Day => "day",
        TimeWindowUnit::Week => "week",
        TimeWindowUnit::Month => "month",
    }
}

/// The time window unit stored under `value`; unknown keys disable the window.
pub fn parse_time_window_unit(value: &str) -> (r: TimeWindowUnit)
    ensures
        r == time_window_unit_from(value@),
{
    if str_eq(value, "day") {
        TimeWindowUnit::Day
    } else if str_eq(value, "week") {
        TimeWindowUnit::Week
    } else if str_eq(value, "month") {
        TimeWindowUnit::Month
    } else {
        TimeWindowUnit::Disabled
    }
}

/// The key under which a failed-job retention unit is stored.
pub fn failed_retention_unit_key(unit: FailedJobRetentionUnit) -> (r: &'static str)
    ensures
        r@ == failed_retention_unit_text(unit),
{
    match unit {
        FailedJobRetentionUnit::Disabled => "none",
        FailedJobRetentionUnit::Minute => "minute",
        FailedJobRetentionUnit::Hour => "hour",
        FailedJobRetentionUnit::Day => "day",
    }
}

/// The retention unit stored under `value`; unknown keys disable retention.
pub fn parse_failed_retention_unit(value: &str) -> (r: FailedJobRetentionUnit)
    ensures
        r == failed_retention_unit_from(value@),
{
    if str_eq(value, "minute") {
        FailedJobRetentionUnit::Minute
    } else if str_eq(value, "hour") {
        FailedJobRetentionUnit::Hour
    } else if str_eq(value, "day") {
        FailedJobRetentionUnit::Day
    } else {
        FailedJobRetentionUnit::Disabled
    }
}

/// A stored time window unit reads back as itself.
pub proof fn law_time_window_unit_round_trip(unit: TimeWindowUnit)
    ensures
        time_window_unit_from(time_window_unit_text(unit)) == unit,
{
    reveal_strlit("none");
    reveal_strlit("day");
    reveal_strlit("week");
    reveal_strlit("month");
    assert("none"@[0] == 'n' && "day"@[0] == 'd' && "week"@[0] == 'w' && "month"@[0] == 'm');
}

/// A stored retention unit reads back as itself.
pub proof fn law_failed_retention_unit_round_trip(unit: FailedJobRetentionUnit)
    ensures
        failed_retention_unit_from(failed_retention_unit_text(unit)) == unit,
{
    reveal_strlit("none");
    reveal_strlit("minute");
    reveal_strlit("hour");
    reveal_strlit("day");
    assert("none"@[0] == 'n' && "minute"@[0] == 'm' && "hour"@[0] == 'h' && "day"@[0] == 'd');
}

pub open spec fn clamped_worker_count(value: i32) -> i32 {
    if value < MIN_DOWNLOAD_WORKERS {
        MIN_DOWNLOAD_WORKERS
    } else if value > MAX_DOWNLOAD_WORKERS {
        MAX_DOWNLOAD_WORKERS
    } else {
        value
    }
}

/// The number of download workers the backend runs for a configured value:
/// between one and six.
pub fn clamp_download_worker_count(value: i32) -> (r: i32)
    ensures
        r == clamped_worker_count(value),
        MIN_DOWNLOAD_WORKERS <= r <= MAX_DOWNLOAD_WORKERS,
        MIN_DOWNLOAD_WORKERS <= value <= MAX_DOWNLOAD_WORKERS ==> r == value,
{
    if value < MIN_DOWNLOAD_WORKERS {
        MIN_DOWNLOAD_WORKERS
    } else if value > MAX_DOWNLOAD_WORKERS {
        MAX_DOWNLOAD_WORKERS
    } else {
        value
    }
}

/// The settings of a first launch, downloading into `destination_root_path`.
pub open spec fn is_default_settings(s: AppSettings, destination_root_path: Seq<char>) -> bool {
    &&& s.homeserver_url@ == "https://matrix.org"@
    &&& s.username@.len() == 0
    &&& s.owner_user_id@.len() == 0
    &&& s.destination_root_path@ == destination_root_path
    &&& s.message_limit == 5_000
    &&& s.time_window_value == 0
    &&& s.time_window_unit == TimeWindowUnit::Disabled
    &&& s.retry_cooldown_minutes == 5
    &&& s.retry_limit == 10
    &&& s.download_worker_count == 1
    &&& s.failed_job_retention_value == 0
    &&& s.failed_job_retention_unit == FailedJobRetentionUnit::Disabled
    &&& !s.desired_power_state
}

/// The settings used when none are stored yet.
pub fn default_settings(destination_root_path: &str) -> (r: AppSettings)
    ensures
        is_default_settings(r, destination_root_path@),
{
    AppSettings {
        homeserver_url: String::from_str("https://matrix.org"),
        username: String::new(),
        owner_user_id: String::new(),
        destination_root_path: destination_root_path.to_owned(),
        message_limit: 5_000,
        time_window_value: 0,
        time_window_unit: TimeWindowUnit::Disabled,
        retry_cooldown_minutes: 5,
        retry_limit: 10,
        download_worker_count: 1,
        failed_job_retention_value: 0,
        failed_job_retention_unit: FailedJobRetentionUnit::Disabled,
        desired_power_state: false,
    }
}

/// How far back in milliseconds the history window reaches, if it is on.
pub open spec fn history_window_ms(settings: AppSettings) -> Option<int> {
    if settings.time_window_value <= 0 {
        None
    } else {
        match settings.time_window_unit {
            TimeWindowUnit::Disabled => None,
            TimeWindowUnit::Day => Some(settings.time_window_value * DAY_MS),
            TimeWindowUnit::Week => Some(settings.time_window_value * WEEK_MS),
            TimeWindowUnit::Month => Some(settings.time_window_value * 30 * DAY_MS),
        }
    }
}

/// How long in milliseconds permanently failed jobs are kept, if retention is on.
pub open spec fn failed_retention_ms(settings: AppSettings) -> Option<int> {
    if settings.failed_job_retention_value <= 0 {
        None
    } else {
        match settings.failed_job_retention_unit {
            FailedJobRetentionUnit::Disabled => None,
            FailedJobRetentionUnit::Minute => Some(settings.failed_job_retention_value * MINUTE_MS),
            FailedJobRetentionUnit::Hour => Some(settings.failed_job_retention_value * HOUR_MS),
            FailedJobRetentionUnit::Day => Some(settings.failed_job_retention_value * DAY_MS),
        }
    }
}

/// Instants the backend computes with: within a quarter million years of 1970.
pub open spec fn sane_instant(t: int) -> bool {
    -8_000_000_000_000_000 <= t <= 8_000_000_000_000_000
}

/// The oldest message time the initial history scan reaches at `now`.
pub fn history_cutoff(settings: &AppSettings, now: i64) -> (r: Option<i64>)
    requires
        sane_instant(now as int),
    ensures
        match history_window_ms(*settings) {
            None => r is None,
            Some(w) => r == Some((now - w) as i64),
        },
{
    if settings.time_window_value <= 0 {
        return None;
    }
    let v = settings.time_window_value as i64;
    match settings.time_window_unit {
        TimeWindowUnit::Disabled => None,
        TimeWindowUnit::Day => Some(now - v * DAY_MS),
        TimeWindowUnit::Week => Some(now - v * WEEK_MS),
        TimeWindowUnit::Month => Some(now - v * 30 * DAY_MS),
    }
}

/// The instant at or before which permanently failed jobs are cleared at
/// `now`, if retention is on.
pub fn failed_job_cutoff_date(settings: &AppSettings, now: i64) -> (r: Option<i64>)
    requires
        sane_instant(now as int),
    ensures
        match failed_retention_ms(*settings) {
            None => r is None,
            Some(w) => r == Some((now - w) as i64),
        },
{
    let value = settings.failed_job_retention_value;
    if value <= 0 {
        return None;
    }
    let v = value as i64;
    match settings.failed_job_retention_unit {
        FailedJobRetentionUnit::Disabled => None,
        FailedJobRetentionUnit::Minute => Some(now - v * MINUTE_MS),
        FailedJobRetentionUnit::Hour => Some(now - v * HOUR_MS),
        FailedJobRetentionUnit::Day => Some(now - v * DAY_MS),
    }
}

/// Permanently failed jobs are kept for the configured count of minutes,
/// hours or days: with a positive count n the retention is n × 60 000,
/// n × 3 600 000 or n × 86 400 000 ms, so the cutoff lies that long before
/// now; a count of zero or less, or retention switched off, keeps them.
pub proof fn law_failed_retention_in_units(settings: AppSettings, now: i64)
    requires
        sane_instant(now as int),
    ensures
        ({
            let n = settings.failed_job_retention_value as int;
            match settings.failed_job_retention_unit {
                FailedJobRetentionUnit::Minute => n > 0 ==> failed_retention_ms(settings) == Some(
                    n * 60_000,
                ),
                FailedJobRetentionUnit::Hour => n > 0 ==> failed_retention_ms(settings) == Some(
                    n * 3_600_000,
                ),
                FailedJobRetentionUnit::Day => n > 0 ==> failed_retention_ms(settings) == Some(
                    n * 86_400_000,
                ),
                FailedJobRetentionUnit::Disabled => failed_retention_ms(settings) is None,
            }
        }),
        settings.failed_job_retention_value <= 0 ==> failed_retention_ms(settings) is None,
{
}

/// The initial history scan reaches back the configured count of days,
/// weeks or 30-day months: with a positive count n the window is
/// n × 86 400 000, n × 604 800 000 or n × 2 592 000 000 ms; a count of zero or
/// less, or the window switched off, sets no limit.
pub proof fn law_history_window_in_units(settings: AppSettings)
    ensures
        ({
            let n = settings.time_window_value as int;
            match settings.time_window_unit {
                TimeWindowUnit::Day => n > 0 ==> history_window_ms(settings) == Some(n * 86_400_000),
                TimeWindowUnit::Week => n > 0 ==> history_window_ms(settings) == Some(n * 604_800_000),
                TimeWindowUnit::Month => n > 0 ==> history_window_ms(settings) == Some(n * 2_592_000_000),
                TimeWindowUnit::Disabled => history_window_ms(settings) is None,
            }
        }),
        settings.time_window_value <= 0 ==> history_window_ms(settings) is None,
{
}

} // verus!
