//! Instants as the archive keeps them: milliseconds since the Unix epoch,
//! stored as RFC 3339 text.

use vstd::prelude::*;
use crate::error::ArchiveError;
use crate::text::{push_signed_decimal, signed_decimal_seq};

verus! {

/// The first instant `chrono` represents, January 1 of the year -262143 at
/// 00:00 UTC, in milliseconds since the Unix epoch.
pub const CHRONO_MIN_MILLIS: i64 = -8_334_601_228_800_000;

/// The last instant `chrono` represents, December 31 of the year 262142 at
/// 23:59:59.999 UTC, in milliseconds since the Unix epoch.
pub const CHRONO_MAX_MILLIS: i64 = 8_210_266_876_799_999;

/// Whether `chrono::DateTime::from_timestamp_millis` accepts a number of
/// milliseconds since the Unix epoch: whether it falls within chrono's
/// calendar, the years -262143 to 262142.
pub open spec fn chrono_millis_valid(ms: i64) -> bool {
    CHRONO_MIN_MILLIS <= ms <= CHRONO_MAX_MILLIS
}

/// Whether `chrono::DateTime::<Utc>::from_timestamp_millis(ms)` gives a time.
/// As chrono's source shows, it does exactly for the instants from the first
/// day of its earliest year (`MIN_YEAR`) to the last millisecond of its
/// latest (`MAX_YEAR`).
#[verifier::external_body]
pub(crate) fn millis_in_chrono_range(ms: i64) -> (r: bool)
    ensures
        r == chrono_millis_valid(ms),
{
    chrono::DateTime::<chrono::Utc>::from_timestamp_millis(ms).is_some()
}

/// What `chrono::DateTime::parse_from_rfc3339` gives for a text, as
/// milliseconds since the Unix epoch: `None` when it does not parse.
pub uninterp spec fn rfc3339_millis_of(text: Seq<char>) -> Option<i64>;

/// Parses RFC 3339 text with `chrono::DateTime::parse_from_rfc3339` and
/// reads its `timestamp_millis`. The contract claims only that the result is
/// a function of the text.
#[verifier::external_body]
fn parse_rfc3339_millis(text: &str) -> (r: Option<i64>)
    ensures
        r == rfc3339_millis_of(text@),
{
    chrono::DateTime::parse_from_rfc3339(text).ok().map(|t| t.timestamp_millis())
}

/// What `to_rfc3339_opts(format, true)` writes for the UTC time `ms`
/// milliseconds after the Unix epoch: with milliseconds
/// (`SecondsFormat::Millis`) or with whole seconds (`SecondsFormat::Secs`).
pub uninterp spec fn rfc3339_text_of(ms: i64, with_millis: bool) -> Seq<char>;

/// Writes the UTC time `ms` as RFC 3339 text with a `Z`, with `chrono`'s
/// `to_rfc3339_opts`; empty for an instant outside chrono's range. The
/// contract claims only that, for an instant in chrono's range, the text is
/// a function of `ms` and the format.
#[verifier::external_body]
fn rfc3339_text(ms: i64, with_millis: bool) -> (r: String)
    ensures
        chrono_millis_valid(ms) ==> r@ == rfc3339_text_of(ms, with_millis),
{
    let format = if with_millis { chrono::SecondsFormat::Millis } else { chrono::SecondsFormat::Secs };
    chrono::DateTime::<chrono::Utc>::from_timestamp_millis(ms)
        .map(|t| t.to_rfc3339_opts(format, true))
        .unwrap_or_default()
}

/// What the `Display` of `chrono::DateTime<Utc>` writes for the time `ms`
/// milliseconds after the Unix epoch.
pub uninterp spec fn utc_display_of(ms: i64) -> Seq<char>;

/// Writes the UTC time `ms` as `chrono`'s `Display` does; empty for an
/// instant outside chrono's range. The contract claims only that, for an
/// instant in chrono's range, the text is a function of `ms`.
#[verifier::external_body]
fn utc_display_text(ms: i64) -> (r: String)
    ensures
        chrono_millis_valid(ms) ==> r@ == utc_display_of(ms),
{
    chrono::DateTime::<chrono::Utc>::from_timestamp_millis(ms).map(|t| t.to_string()).unwrap_or_default()
}

/// An instant as text: RFC 3339 with whole seconds, or as `chrono` displays
/// it; empty for an instant outside chrono's range.
pub open spec fn instant_text_of(ms: i64, rfc3339: bool) -> Seq<char> {
    if !chrono_millis_valid(ms) {
        Seq::empty()
    } else if rfc3339 {
        rfc3339_text_of(ms, false)
    } else {
        utc_display_of(ms)
    }
}

pub fn instant_text(ms: i64, rfc3339: bool) -> (r: String)
    ensures
        r@ == instant_text_of(ms, rfc3339),
{
    if !millis_in_chrono_range(ms) {
        String::new()
    } else if rfc3339 {
        rfc3339_text(ms, false)
    } else {
        utc_display_text(ms)
    }
}

/// The Unix time of `ms` milliseconds: whole seconds (rounded down) and the
/// nanoseconds past them.
pub fn unix_time_parts(ms: i64) -> (r: (i64, u32))
    ensures
        r.0 == ms / 1000,
        r.1 == (ms % 1000) * 1_000_000,
{
    let (q, rem) = if ms >= 0 {
        (ms / 1000, ms % 1000)
    } else {
        let p: i64 = -(ms + 1);
        (-(p / 1000) - 1, 999 - p % 1000)
    };
    proof {
        vstd::arithmetic::div_mod::lemma_fundamental_div_mod_converse(ms as int, 1000, q as int, rem as int);
    }
    (q, (rem as u32) * 1_000_000)
}

/// A stored instant read back: no text is no instant; text that is not
/// RFC 3339 is an invalid timestamp.
pub fn parse_optional_timestamp(value: Option<&str>) -> (r: Result<Option<i64>, ArchiveError>)
    ensures
        value is None ==> r == Ok::<Option<i64>, ArchiveError>(None),
        value matches Some(v) ==> match rfc3339_millis_of(v@) {
            Some(ms) => r == Ok::<Option<i64>, ArchiveError>(Some(ms)),
            None => r matches Err(ArchiveError::InvalidTimestamp { value: e }) && e@ == v@,
        },
{
    match value {
        None => Ok(None),
        Some(v) => match parse_rfc3339_millis(v) {
            Some(ms) => Ok(Some(ms)),
            None => Err(ArchiveError::InvalidTimestamp { value: v.to_owned() }),
        },
    }
}

/// The text an instant is stored as; an instant outside chrono's range is
/// an invalid timestamp.
pub fn timestamp_text(ms: i64) -> (r: Result<String, ArchiveError>)
    ensures
        chrono_millis_valid(ms) ==> (r matches Ok(t) && t@ == rfc3339_text_of(ms, true)),
        !chrono_millis_valid(ms) ==> (r matches Err(ArchiveError::InvalidTimestamp { value })
            && value@ == signed_decimal_seq(ms as int)),
{
    if millis_in_chrono_range(ms) {
        Ok(rfc3339_text(ms, true))
    } else {
        let mut value = String::new();
        push_signed_decimal(&mut value, ms);
        proof {
            assert(value@ =~= signed_decimal_seq(ms as int));
        }
        Err(ArchiveError::InvalidTimestamp { value })
    }
}

} // verus!
