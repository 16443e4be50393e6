use chrono::{Datelike, Timelike};
use vstd::prelude::*;

verus! {

/// The schema version that this library writes.
pub const ENTRY_VERSION: u32 = 1;

/// The result of a healthcheck ping.
#[derive(Clone, Copy, Debug, PartialEq, Eq, Structural)]
pub enum PingResult {
    /// The target answered with the expected token.
    Success,
    /// The probe failed; the reason is kept beside the result.
    Failure,
}

/// The result of emailing the healthcheck result.
#[derive(Clone, Copy, Debug, PartialEq, Eq, Structural)]
pub enum EmailResult {
    /// The email was sent without issues.
    SentSuccessfully,
    /// An email was attempted and failed; the error is kept beside the result.
    FailedToSend,
    /// No email was sent.
    NotSent,
}

/// A moment in UTC, by its calendar fields.
#[derive(Clone, Copy, Debug, PartialEq, Eq, Structural)]
pub struct Timestamp {
    pub year: u32,
    pub month: u32,
    pub day: u32,
    pub hour: u32,
    pub minute: u32,
    pub second: u32,
    pub nanosecond: u32,
}

impl Timestamp {
    /// The ranges that a stored timestamp keeps: a four-digit year and the usual
    /// calendar and clock fields.
    pub open spec fn wf(self) -> bool {
        &&& self.year <= 9999
        &&& 1 <= self.month <= 12
        &&& 1 <= self.day <= 31
        &&& self.hour < 24
        &&& self.minute < 60
        &&& self.second < 60
        &&& self.nanosecond < 1_000_000_000
    }

    /// Whether `self` comes strictly after `other`.
    pub open spec fn spec_later(self, other: Timestamp) -> bool {
        if self.year != other.year {
            self.year > other.year
        } else if self.month != other.month {
            self.month > other.month
        } else if self.day != other.day {
            self.day > other.day
        } else if self.hour != other.hour {
            self.hour > other.hour
        } else if self.minute != other.minute {
            self.minute > other.minute
        } else if self.second != other.second {
            self.second > other.second
        } else {
            self.nanosecond > other.nanosecond
        }
    }

    /// Builds a timestamp from its fields, when they are in range.
    pub fn from_parts(
        year: u32,
        month: u32,
        day: u32,
        hour: u32,
        minute: u32,
        second: u32,
        nanosecond: u32,
    ) -> (r: Option<Timestamp>)
        ensures
            r is Some <==> (Timestamp { year, month, day, hour, minute, second, nanosecond }).wf(),
            r matches Some(t) ==> t == (Timestamp {
                year,
                month,
                day,
                hour,
                minute,
                second,
                nanosecond,
            }),
    {
        let t = Timestamp { year, month, day, hour, minute, second, nanosecond };
        if year <= 9999 && 1 <= month && month <= 12 && 1 <= day && day <= 31 && hour < 24
            && minute < 60 && second < 60 && nanosecond < 1_000_000_000 {
            Some(t)
        } else {
            None
        }
    }

    /// Whether `self` comes strictly after `other`.
    pub fn later_than(&self, other: &Timestamp) -> (r: bool)
        ensures
            r == self.spec_later(*other),
    {
        if self.year != other.year {
            self.year > other.year
        } else if self.month != other.month {
            self.month > other.month
        } else if self.day != other.day {
            self.day > other.day
        } else if self.hour != other.hour {
            self.hour > other.hour
        } else if self.minute != other.minute {
            self.minute > other.minute
        } else if self.second != other.second {
            self.second > other.second
        } else {
            self.nanosecond > other.nanosecond
        }
    }

    /// The timestamp of a clock reading, when its year has four digits. A leap
    /// second (a nanosecond count of 1e9 or more) is kept as the last nanosecond of
    /// the second before it.
    pub fn from_clock(
        year: i32,
        month: u32,
        day: u32,
        hour: u32,
        minute: u32,
        second: u32,
        nanosecond: u32,
    ) -> (r: Option<Timestamp>)
        ensures
            r is Some <==> 0 <= year && (Timestamp {
                year: year as u32,
                month,
                day,
                hour,
                minute,
                second,
                nanosecond: clamp_nanos(nanosecond),
            }).wf(),
            r matches Some(t) ==> t == (Timestamp {
                year: year as u32,
                month,
                day,
                hour,
                minute,
                second,
                nanosecond: clamp_nanos(nanosecond),
            }),
    {
        if year < 0 {
            return None;
        }
        let nanos = if nanosecond >= 1_000_000_000 {
            999_999_999
        } else {
            nanosecond
        };
        Timestamp::from_parts(year as u32, month, day, hour, minute, second, nanos)
    }

    /// The current time, when its year has four digits (see `from_clock`).
    pub fn now() -> (r: Option<Timestamp>)
        ensures
            r matches Some(t) ==> t.wf(),
    {
        let (year, month, day, hour, minute, second, nanosecond) = utc_now_parts();
        Timestamp::from_clock(year, month, day, hour, minute, second, nanosecond)
    }
}

pub open spec fn clamp_nanos(n: u32) -> u32 {
    if n >= 1_000_000_000 {
        999_999_999
    } else {
        n
    }
}

/// Relies on chrono's `Utc::now` and the `Datelike` / `Timelike` accessors: the
/// year, month (1 to 12), day (1 to 31), hour (0 to 23), minute (0 to 59),
/// second (0 to 59) and nanosecond (under 2e9, leap seconds included) of the
/// current UTC time.
#[verifier::external_body]
fn utc_now_parts() -> (r: (i32, u32, u32, u32, u32, u32, u32))
    ensures
        1 <= r.1 <= 12,
        1 <= r.2 <= 31,
        r.3 < 24,
        r.4 < 60,
        r.5 < 60,
        r.6 < 2_000_000_000,
{
    let now = chrono::Utc::now();
    (now.year(), now.month(), now.day(), now.hour(), now.minute(), now.second(), now.nanosecond())
}

/// What a stored entry holds, with its texts as characters.
pub struct EntryView {
    pub entry_version: u32,
    pub timestamp: Timestamp,
    pub pinged_url: Seq<char>,
    pub request_state: Seq<char>,
    pub ping_result: PingResult,
    pub ping_error: Option<Seq<char>>,
    pub email_result: EmailResult,
    pub email_error: Option<Seq<char>>,
}

/// One row of the stats file: the full record of one probe cycle.
#[derive(Clone, Debug)]
pub struct StatsEntry {
    /// What version of stats file this is, useful if the format changes in the future.
    pub entry_version: u32,
    /// The timestamp of the healthcheck.
    pub timestamp: Timestamp,
    /// The url that was pinged during this healthcheck.
    pub pinged_url: String,
    /// The 'request_state' used for the healthcheck.
    pub request_state: String,
    /// The result of the healthcheck itself.
    pub ping_result: PingResult,
    /// If an error occurred during the ping, contains the error, otherwise None.
    pub ping_error: Option<String>,
    /// The result of sending the email.
    pub email_result: EmailResult,
    /// If an error occurred whilst sending the email, contains the error, otherwise None.
    pub email_error: Option<String>,
}

pub open spec fn opt_view(o: Option<String>) -> Option<Seq<char>> {
    match o {
        Some(s) => Some(s@),
        None => None,
    }
}

impl View for StatsEntry {
    type V = EntryView;

    open spec fn view(&self) -> EntryView {
        EntryView {
            entry_version: self.entry_version,
            timestamp: self.timestamp,
            pinged_url: self.pinged_url@,
            request_state: self.request_state@,
            ping_result: self.ping_result,
            ping_error: opt_view(self.ping_error),
            email_result: self.email_result,
            email_error: opt_view(self.email_error),
        }
    }
}

pub open spec fn entries_view(v: Seq<StatsEntry>) -> Seq<EntryView> {
    v.map_values(|e: StatsEntry| e@)
}

} // verus!
