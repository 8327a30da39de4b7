//! Calendar times in UTC, as text.
use vstd::prelude::*;

use crate::lines;

verus! {

/// The first second of the calendar, counted from the Unix epoch.
pub const FIRST_SECOND: i64 = -8_334_601_228_800;

/// The last second of the calendar, counted from the Unix epoch.
pub const LAST_SECOND: i64 = 8_210_266_876_799;

/// The ways in which a time is written.
pub open spec fn known_pattern(pattern: Seq<char>) -> bool {
    ||| pattern == "%Y-%m-%d %H:%M:%S"@
    ||| pattern == "%Y-%m-%d %H:%M:%S UTC"@
    ||| pattern == "%Y%m%d-%H%M%S"@
}

/// What `DateTime::format` of `chrono` writes for the second `seconds` after the Unix epoch, in
/// UTC, by this pattern.
pub uninterp spec fn utc_text(seconds: i64, pattern: Seq<char>) -> Seq<char>;

/// What `DateTime::to_rfc3339_opts` of `chrono` writes for the second `seconds` after the Unix
/// epoch, with whole seconds and a `Z` for the zone.
pub uninterp spec fn utc_rfc3339(seconds: i64) -> Seq<char>;

/// `DateTime::from_timestamp` followed by `DateTime::format` of `chrono`: the time by the pattern.
/// Nothing is claimed of the text but that it is a function of the second and the pattern.
#[verifier::external_body]
fn format_utc(seconds: i64, pattern: &str) -> (r: String)
    requires
        FIRST_SECOND <= seconds <= LAST_SECOND,
        known_pattern(pattern@),
    ensures
        r@ == utc_text(seconds, pattern@),
{
    chrono::DateTime::from_timestamp(seconds, 0).unwrap().format(pattern).to_string()
}

/// `DateTime::from_timestamp` followed by `DateTime::to_rfc3339_opts` of `chrono`. Nothing is
/// claimed of the text but that it is a function of the second and holds no line feed: it is
/// written from digits, signs, colons, a `T` and a `Z`.
#[verifier::external_body]
fn format_rfc3339(seconds: i64) -> (r: String)
    requires
        FIRST_SECOND <= seconds <= LAST_SECOND,
    ensures
        r@ == utc_rfc3339(seconds),
        lines::single_line(r@),
{
    chrono::DateTime::from_timestamp(seconds, 0)
        .unwrap()
        .to_rfc3339_opts(chrono::SecondsFormat::Secs, true)
}

/// A time in UTC, to the second.
#[derive(Clone, Copy)]
pub struct UtcTime {
    seconds: i64,
}

impl View for UtcTime {
    type V = i64;

    closed spec fn view(&self) -> i64 {
        self.seconds
    }
}

impl UtcTime {
    #[verifier::type_invariant]
    closed spec fn in_calendar(&self) -> bool {
        FIRST_SECOND <= self.seconds <= LAST_SECOND
    }

    /// The time `seconds` after the Unix epoch, where the calendar reaches that far.
    pub fn from_timestamp(seconds: i64) -> (r: Option<Self>)
        ensures
            match r {
                Some(time) => time@ == seconds && FIRST_SECOND <= seconds <= LAST_SECOND,
                None => !(FIRST_SECOND <= seconds <= LAST_SECOND),
            },
    {
        if FIRST_SECOND <= seconds && seconds <= LAST_SECOND {
            Some(UtcTime { seconds })
        } else {
            None
        }
    }

    /// The seconds from the Unix epoch to the time.
    pub fn timestamp(&self) -> (r: i64)
        ensures
            r == self@,
    {
        self.seconds
    }

    /// The time as in `2026-08-04 12:34:56`.
    pub fn date_time(&self) -> (r: String)
        ensures
            r@ == utc_text(self@, "%Y-%m-%d %H:%M:%S"@),
    {
        proof {
            use_type_invariant(self);
        }
        format_utc(self.seconds, "%Y-%m-%d %H:%M:%S")
    }

    /// The time as in `2026-08-04 12:34:56 UTC`.
    pub fn date_time_utc(&self) -> (r: String)
        ensures
            r@ == utc_text(self@, "%Y-%m-%d %H:%M:%S UTC"@),
    {
        proof {
            use_type_invariant(self);
        }
        format_utc(self.seconds, "%Y-%m-%d %H:%M:%S UTC")
    }

    /// The time as in `20260804-123456`.
    pub fn compact(&self) -> (r: String)
        ensures
            r@ == utc_text(self@, "%Y%m%d-%H%M%S"@),
    {
        proof {
            use_type_invariant(self);
        }
        format_utc(self.seconds, "%Y%m%d-%H%M%S")
    }

    /// The time as in `2026-08-04T12:34:56Z`.
    pub fn rfc3339(&self) -> (r: String)
        ensures
            r@ == utc_rfc3339(self@),
            lines::single_line(r@),
    {
        proof {
            use_type_invariant(self);
        }
        format_rfc3339(self.seconds)
    }
}

} // verus!
