//! Points in time as text.

use vstd::prelude::*;

use crate::text;

verus! {

/// A day and a minute, with the zone.
pub const ZONED_MINUTE: &'static str = "%Y-%m-%d %H:%M UTC";

/// A day and a minute.
pub const MINUTE: &'static str = "%Y-%m-%d %H:%M";

/// A day.
pub const DAY: &'static str = "%Y-%m-%d";

/// A day and a second, as in the names of exports.
pub const STAMP: &'static str = "%Y%m%dT%H%M%SZ";

/// A day and a second, as in the names of archives.
pub const ARCHIVE_STAMP: &'static str = "%Y-%m-%d %H-%M-%S";

/// The forms in which points in time are written.
pub open spec fn is_time_form(form: Seq<char>) -> bool {
    form == ZONED_MINUTE@ || form == MINUTE@ || form == DAY@ || form == STAMP@ || form
        == ARCHIVE_STAMP@
}

/// The first second after the year 9999, counted from the Unix epoch.
pub const LAST_SECOND: i64 = 253402300800;

/// The text of a point in time, in seconds since the Unix epoch; none for a time beyond
/// the calendar.
pub uninterp spec fn utc_text(seconds: int, form: Seq<char>) -> Option<Seq<char>>;

/// `chrono::DateTime::from_timestamp` and `DateTime::format`: the text of a point in
/// time is a function of its seconds and of the form. The form is one of those of this
/// module, for which formatting does not fail. A stamp of a year of four digits is read
/// back as the same second.
#[verifier::external_body]
fn format_utc(seconds: i64, form: &str) -> (r: Option<String>)
    requires
        is_time_form(form@),
    ensures
        text::opt_text(r) == utc_text(seconds as int, form@),
        (form@ == STAMP@ && 0 <= seconds && seconds < LAST_SECOND) ==> (r is Some
            && stamp_moment(r->0@) == Some((seconds, 0u32))),
{
    match chrono::DateTime::from_timestamp(seconds, 0) {
        Some(t) => Some(t.format(form).to_string()),
        None => None,
    }
}

/// The text of a point in time, empty beyond the calendar.
pub open spec fn time_text(seconds: int, form: Seq<char>) -> Seq<char> {
    match utc_text(seconds, form) {
        Some(t) => t,
        None => Seq::empty(),
    }
}

/// The text of a point in time.
pub fn write_time(seconds: i64, form: &str) -> (r: String)
    requires
        is_time_form(form@),
    ensures
        r@ == time_text(seconds as int, form@),
        form@ == STAMP@ && 0 <= seconds < LAST_SECOND ==> stamp_moment(r@) == Some(
            (seconds, 0u32),
        ),
{
    match format_utc(seconds, form) {
        Some(t) => t,
        None => String::new(),
    }
}

/// A point in time: seconds since the Unix epoch, and nanoseconds, which pass a second
/// within a leap second.
#[derive(Debug, Clone, Copy, PartialEq, Eq, Structural)]
pub struct Moment {
    pub seconds: i64,
    pub nanos: u32,
}

/// The one moment is before the other.
pub open spec fn moment_less(a: Moment, b: Moment) -> bool {
    a.seconds < b.seconds || (a.seconds == b.seconds && a.nanos < b.nanos)
}

/// Whether the one moment is before the other.
pub fn is_before(a: Moment, b: Moment) -> (r: bool)
    ensures
        r == moment_less(a, b),
{
    a.seconds < b.seconds || (a.seconds == b.seconds && a.nanos < b.nanos)
}

/// The moment of seconds and nanoseconds.
pub open spec fn moment_of(t: Option<(i64, u32)>) -> Option<Moment> {
    match t {
        Some(p) => Some(Moment { seconds: p.0, nanos: p.1 }),
        None => None,
    }
}

/// The day of a moment, counted from the Unix epoch.
pub open spec fn day_of(t: Moment) -> int {
    t.seconds as int / 86400
}

/// The hour of a moment within its day.
pub open spec fn hour_of(t: Moment) -> int {
    (t.seconds as int % 86400) / 3600
}

/// The day of a moment, counted from the Unix epoch.
pub fn read_day(t: Moment) -> (r: i64)
    ensures
        r == day_of(t),
{
    match t.seconds.checked_div_euclid(86400) {
        Some(d) => d,
        None => 0,
    }
}

/// The hour of a moment within its day.
pub fn read_hour(t: Moment) -> (r: i64)
    ensures
        r == hour_of(t),
{
    match t.seconds.checked_rem_euclid(86400) {
        Some(s) => s / 3600,
        None => 0,
    }
}

/// The moment that a date of RFC 3339 tells; none for another text.
pub uninterp spec fn rfc3339_moment(text: Seq<char>) -> Option<(i64, u32)>;

/// `chrono::DateTime::parse_from_rfc3339`: which moment a text tells, if any, is a
/// function of the text.
#[verifier::external_body]
fn parse_rfc3339(text: &str) -> (r: Option<(i64, u32)>)
    ensures
        r == rfc3339_moment(text@),
{
    match chrono::DateTime::parse_from_rfc3339(text) {
        Ok(t) => Some((t.timestamp(), t.timestamp_subsec_nanos())),
        Err(_) => None,
    }
}

/// The moment that a date of RFC 3339 tells.
pub fn read_rfc3339(text: &str) -> (r: Option<Moment>)
    ensures
        r == moment_of(rfc3339_moment(text@)),
{
    match parse_rfc3339(text) {
        Some(p) => Some(Moment { seconds: p.0, nanos: p.1 }),
        None => None,
    }
}

/// The moment that a stamp tells; none for another text.
pub uninterp spec fn stamp_moment(text: Seq<char>) -> Option<(i64, u32)>;

/// `chrono::NaiveDateTime::parse_from_str` with the form of stamps, and
/// `NaiveDateTime::and_utc`: which moment a text tells, if any, is a function of the
/// text.
#[verifier::external_body]
fn parse_stamp(text: &str) -> (r: Option<(i64, u32)>)
    ensures
        r == stamp_moment(text@),
{
    match chrono::NaiveDateTime::parse_from_str(text, STAMP) {
        Ok(t) => Some((t.and_utc().timestamp(), t.and_utc().timestamp_subsec_nanos())),
        Err(_) => None,
    }
}

/// The moment that a stamp tells.
pub fn read_stamp(text: &str) -> (r: Option<Moment>)
    ensures
        r == moment_of(stamp_moment(text@)),
{
    match parse_stamp(text) {
        Some(p) => Some(Moment { seconds: p.0, nanos: p.1 }),
        None => None,
    }
}

/// The date of RFC 3339 of a moment; none for a moment beyond the calendar.
pub uninterp spec fn rfc3339_text(seconds: int, nanos: int) -> Option<Seq<char>>;

/// `chrono::DateTime::from_timestamp` and `DateTime::to_rfc3339`: the date of a moment
/// is a function of its seconds and nanoseconds.
#[verifier::external_body]
fn format_rfc3339(seconds: i64, nanos: u32) -> (r: Option<String>)
    ensures
        text::opt_text(r) == rfc3339_text(seconds as int, nanos as int),
{
    match chrono::DateTime::from_timestamp(seconds, nanos) {
        Some(t) => Some(t.to_rfc3339()),
        None => None,
    }
}

/// The date of RFC 3339 of a moment, empty beyond the calendar.
pub open spec fn moment_text(t: Moment) -> Seq<char> {
    match rfc3339_text(t.seconds as int, t.nanos as int) {
        Some(s) => s,
        None => Seq::empty(),
    }
}

/// The date of RFC 3339 of a moment.
pub fn write_moment(t: Moment) -> (r: String)
    ensures
        r@ == moment_text(t),
{
    match format_rfc3339(t.seconds, t.nanos) {
        Some(s) => s,
        None => String::new(),
    }
}

} // verus!
