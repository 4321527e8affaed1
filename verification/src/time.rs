//! Moments and days.

use vstd::prelude::*;

verus! {

/// The seconds of a day.
pub const SECONDS_PER_DAY: i64 = 86400;

/// A moment, as seconds since the start of 1970 in UTC and nanoseconds on top.
#[derive(Clone, Copy, Debug, PartialEq, Eq, Structural)]
pub struct Timestamp {
    pub seconds: i64,
    pub nanos: u32,
}

impl Timestamp {
    /// The day the moment falls on, in days since the start of 1970.
    pub open spec fn spec_day(self) -> int {
        self.seconds as int / SECONDS_PER_DAY as int
    }

    /// The day the moment falls on, in days since the start of 1970.
    pub fn day(&self) -> (day: i64)
        ensures
            day == self.spec_day(),
    {
        if self.seconds >= 0 {
            self.seconds / SECONDS_PER_DAY
        } else {
            let back: i64 = -(self.seconds + 1);
            let day: i64 = -1 - back / SECONDS_PER_DAY;
            proof {
                let b = back as int;
                assert(day as int == (-1 - b) / 86400) by (nonlinear_arith)
                    requires
                        b >= 0,
                        day == -1 - b / 86400,
                ;
            }
            day
        }
    }

    /// Whether this moment is before another.
    pub open spec fn spec_is_before(self, other: Timestamp) -> bool {
        self.seconds < other.seconds || (self.seconds == other.seconds && self.nanos < other.nanos)
    }

    /// Whether this moment is before another.
    pub fn is_before(&self, other: &Timestamp) -> (r: bool)
        ensures
            r == self.spec_is_before(*other),
    {
        self.seconds < other.seconds || (self.seconds == other.seconds && self.nanos < other.nanos)
    }
}

/// What `chrono::DateTime::to_rfc3339` prints for a moment, where `chrono`'s
/// calendar has it.
pub uninterp spec fn rfc3339_text(seconds: i64, nanos: u32) -> Option<Seq<char>>;

/// `chrono::DateTime::from_timestamp`, then `to_rfc3339`.
///
/// Claimed: whether the moment is in `chrono`'s calendar, and its text where it
/// is, is a function of the moment.
#[verifier::external_body]
pub(crate) fn print_rfc3339(moment: Timestamp) -> (r: Option<String>)
    ensures
        r is Some == rfc3339_text(moment.seconds, moment.nanos) is Some,
        r is Some ==> r->0@ == rfc3339_text(moment.seconds, moment.nanos)->0,
{
    match chrono::DateTime::from_timestamp(moment.seconds, moment.nanos) {
        Some(time) => Some(time.to_rfc3339()),
        None => None,
    }
}

/// What `chrono` prints for a moment in UTC, where its calendar has it.
pub uninterp spec fn moment_text(seconds: i64, nanos: u32) -> Option<Seq<char>>;

/// `chrono::DateTime::from_timestamp`, then its `Display`.
///
/// Claimed: whether the moment is in `chrono`'s calendar, and its text where it
/// is, is a function of the moment.
#[verifier::external_body]
pub(crate) fn print_moment(moment: Timestamp) -> (r: Option<String>)
    ensures
        r is Some == moment_text(moment.seconds, moment.nanos) is Some,
        r is Some ==> r->0@ == moment_text(moment.seconds, moment.nanos)->0,
{
    match chrono::DateTime::from_timestamp(moment.seconds, moment.nanos) {
        Some(time) => Some(format!("{}", time)),
        None => None,
    }
}

/// What `chrono` prints for the day of a moment in UTC, where its calendar has
/// it.
pub uninterp spec fn date_text(seconds: i64, nanos: u32) -> Option<Seq<char>>;

/// `chrono::DateTime::from_timestamp`, then the `Display` of its `date_naive`.
///
/// Claimed: whether the moment is in `chrono`'s calendar, and the text of its
/// day where it is, is a function of the moment.
#[verifier::external_body]
pub(crate) fn print_date(moment: Timestamp) -> (r: Option<String>)
    ensures
        r is Some == date_text(moment.seconds, moment.nanos) is Some,
        r is Some ==> r->0@ == date_text(moment.seconds, moment.nanos)->0,
{
    match chrono::DateTime::from_timestamp(moment.seconds, moment.nanos) {
        Some(time) => Some(format!("{}", time.date_naive())),
        None => None,
    }
}

/// What `chrono::DateTime::format` prints for a moment in UTC as year, month
/// and day with hyphens between them, where its calendar has it.
pub uninterp spec fn iso_day_text(seconds: i64, nanos: u32) -> Option<Seq<char>>;

/// `chrono::DateTime::from_timestamp`, then `format`.
///
/// Claimed: whether the moment is in `chrono`'s calendar, and the text of its
/// day where it is, is a function of the moment.
#[verifier::external_body]
pub(crate) fn print_iso_day(moment: Timestamp) -> (r: Option<String>)
    ensures
        r is Some == iso_day_text(moment.seconds, moment.nanos) is Some,
        r is Some ==> r->0@ == iso_day_text(moment.seconds, moment.nanos)->0,
{
    match chrono::DateTime::from_timestamp(moment.seconds, moment.nanos) {
        Some(time) => Some(format!("{}", time.format("%Y-%m-%d"))),
        None => None,
    }
}

/// What `chrono::DateTime::format` prints for a moment in UTC as a date and a
/// time to the second, where its calendar has it.
pub uninterp spec fn second_text(seconds: i64, nanos: u32) -> Option<Seq<char>>;

/// `chrono::DateTime::from_timestamp`, then `format`.
///
/// Claimed: whether the moment is in `chrono`'s calendar, and its text where it
/// is, is a function of the moment.
#[verifier::external_body]
pub(crate) fn print_second(moment: Timestamp) -> (r: Option<String>)
    ensures
        r is Some == second_text(moment.seconds, moment.nanos) is Some,
        r is Some ==> r->0@ == second_text(moment.seconds, moment.nanos)->0,
{
    match chrono::DateTime::from_timestamp(moment.seconds, moment.nanos) {
        Some(time) => Some(format!("{}", time.format("%Y-%m-%dT%H:%M:%SZ"))),
        None => None,
    }
}

/// The day that `chrono::NaiveDate::parse_from_str` reads in a text as year,
/// month and day with hyphens between them, in days since the start of 1970,
/// where it reads one.
pub uninterp spec fn day_read(text: Seq<char>) -> Option<i64>;

/// `chrono::NaiveDate::parse_from_str`.
///
/// Claimed: whether a day is read, and which, is a function of the text.
#[verifier::external_body]
pub(crate) fn read_day(text: &str) -> (r: Option<i64>)
    ensures
        r == day_read(text@),
{
    match chrono::NaiveDate::parse_from_str(text, "%Y-%m-%d") {
        Ok(day) => Some(day.to_epoch_days() as i64),
        Err(_) => None,
    }
}

/// The moment that `chrono::DateTime::parse_from_rfc3339` reads in a text, where
/// it reads one.
pub uninterp spec fn rfc3339_read(text: Seq<char>) -> Option<Timestamp>;

/// `chrono::DateTime::parse_from_rfc3339`.
///
/// Claimed: whether a moment is read, and which, is a function of the text.
#[verifier::external_body]
pub(crate) fn read_rfc3339(text: &str) -> (r: Option<Timestamp>)
    ensures
        r == rfc3339_read(text@),
{
    match chrono::DateTime::parse_from_rfc3339(text) {
        Ok(time) => Some(
            Timestamp { seconds: time.timestamp(), nanos: time.timestamp_subsec_nanos() },
        ),
        Err(_) => None,
    }
}

/// `chrono::Utc::now`.
///
/// Nothing is claimed of the moment that comes back.
#[verifier::external_body]
pub(crate) fn current_time() -> (r: Timestamp) {
    let now = chrono::Utc::now();
    Timestamp { seconds: now.timestamp(), nanos: now.timestamp_subsec_nanos() }
}

/// A day is a much smaller number than a second can be.
pub proof fn lemma_day_is_small(moment: Timestamp)
    ensures
        -0x1000_0000_0000_0000 < moment.spec_day() < 0x1000_0000_0000_0000,
{
    assert(moment.spec_day() * 86400 <= moment.seconds < (moment.spec_day() + 1) * 86400);
}

} // verus!
