//! Which day a report is for: the word `today` or a date written as
//! `YYYY-MM-DD`, resolved to the instant of its local midnight.

use vstd::prelude::*;
use chrono::{Datelike, TimeZone};
use crate::error::TimerError;
use crate::report::ReportWindow;

verus! {

/// A date of the calendar, as plain numbers.
#[derive(Debug, Clone, Copy, PartialEq, Eq, Structural)]
pub struct CalendarDate {
    pub year: i32,
    pub month: u32,
    pub day: u32,
}

/// The day that a report is asked for.
#[derive(Debug, Clone, Copy, PartialEq, Eq, Structural)]
pub enum Day {
    /// The local calendar date of the current instant.
    Today,
    /// A date given in writing.
    Date(CalendarDate),
}

/// What a wall-clock time of the local zone comes to as an instant: none
/// where the local clock skips it, one instant as a rule, two where the
/// local clock is set back over it. Instants are seconds since the epoch.
#[derive(Debug, Clone, Copy, PartialEq, Eq, Structural)]
pub enum LocalInstant {
    Missing,
    Unique(i64),
    Ambiguous(i64, i64),
}

/// The date that `chrono::NaiveDate::parse_from_str` reads from `text` under
/// `format`, or `None` where it reports an error.
pub uninterp spec fn parsed_date(text: Seq<char>, format: Seq<char>) -> Option<CalendarDate>;

/// Calls `chrono::NaiveDate::parse_from_str` and hands back year, month and
/// day of the date it read. The contract claims only that the outcome is
/// the one function of `text` and `format` named `parsed_date`.
#[verifier::external_body]
fn parse_date(text: &str, format: &str) -> (date: Option<CalendarDate>)
    ensures
        date == parsed_date(text@, format@),
{
    match chrono::NaiveDate::parse_from_str(text, format) {
        Ok(date) => Some(CalendarDate { year: date.year(), month: date.month(), day: date.day() }),
        Err(_) => None,
    }
}

/// Calls `chrono::DateTime::from_timestamp_secs` and
/// `chrono::DateTime::with_timezone` with `chrono::Local`, and hands back
/// year, month and day of the local date at `instant`; `None` where chrono
/// cannot hold the instant. The date depends on the time zone that the
/// machine is set to, so nothing is claimed of it.
#[verifier::external_body]
fn local_date(instant: i64) -> (date: Option<CalendarDate>)
{
    match chrono::DateTime::from_timestamp_secs(instant) {
        Some(utc) => {
            let local = utc.with_timezone(&chrono::Local);
            Some(CalendarDate { year: local.year(), month: local.month(), day: local.day() })
        },
        None => None,
    }
}

/// Calls `chrono::TimeZone::with_ymd_and_hms` on `chrono::Local` and hands
/// back the timestamps of what it found. The outcome depends on the time
/// zone that the machine is set to, so nothing is claimed of it.
#[verifier::external_body]
fn local_time(date: &CalendarDate, hour: u32, minute: u32, second: u32) -> (instant: LocalInstant)
{
    match chrono::Local.with_ymd_and_hms(date.year, date.month, date.day, hour, minute, second) {
        chrono::LocalResult::None => LocalInstant::Missing,
        chrono::LocalResult::Single(at) => LocalInstant::Unique(at.timestamp()),
        chrono::LocalResult::Ambiguous(first, last) => LocalInstant::Ambiguous(
            first.timestamp(),
            last.timestamp(),
        ),
    }
}

/// The word that asks for the current day.
pub open spec fn today_word() -> Seq<char> {
    seq!['t', 'o', 'd', 'a', 'y']
}

/// The form in which a date is written: year, month and day, with hyphens
/// between them.
pub open spec fn date_format() -> Seq<char> {
    seq!['%', 'Y', '-', '%', 'm', '-', '%', 'd']
}

/// The day that `text` asks for: the current day for the word `today`, else
/// the date that the text reads as, if it reads as one.
pub open spec fn day_of(text: Seq<char>) -> Option<Day> {
    if text == today_word() {
        Some(Day::Today)
    } else {
        match parsed_date(text, date_format()) {
            Some(date) => Some(Day::Date(date)),
            None => None,
        }
    }
}

/// The day that a parsed date stands for; a text that did not parse is an
/// invalid date.
pub fn explicit_day(parsed: Option<CalendarDate>) -> (day: Result<Day, TimerError>)
    ensures
        day == (match parsed {
            Some(date) => Ok::<Day, TimerError>(Day::Date(date)),
            None => Err(TimerError::InvalidDate),
        }),
{
    match parsed {
        Some(date) => Ok(Day::Date(date)),
        None => Err(TimerError::InvalidDate),
    }
}

/// Reads the day that a report is asked for. The word `today` is never
/// parsed as a date; any other text that is no date is an invalid date and
/// does not fall back to the current day.
pub fn parse_day(text: &str) -> (day: Result<Day, TimerError>)
    ensures
        day == (match day_of(text@) {
            Some(found) => Ok::<Day, TimerError>(found),
            None => Err(TimerError::InvalidDate),
        }),
{
    proof {
        reveal_strlit("today");
        reveal_strlit("%Y-%m-%d");
        assert("today"@ =~= today_word());
        assert("%Y-%m-%d"@ =~= date_format());
    }
    if text.to_owned() == "today".to_owned() {
        Ok(Day::Today)
    } else {
        explicit_day(parse_date(text, "%Y-%m-%d"))
    }
}

/// The current date, from what the local zone made of the current
/// instant; where it made nothing of it, the day cannot be resolved.
pub open spec fn today_of(local: Option<CalendarDate>) -> Result<CalendarDate, TimerError> {
    match local {
        Some(found) => Ok(found),
        None => Err(TimerError::InvalidDate),
    }
}

/// The current date, from what the local zone made of the current instant.
pub fn today_from(local: Option<CalendarDate>) -> (date: Result<CalendarDate, TimerError>)
    ensures
        date == today_of(local),
{
    match local {
        Some(found) => Ok(found),
        None => Err(TimerError::InvalidDate),
    }
}

/// The calendar date of `day`. A written date is taken as it is, whatever
/// `now` is; the current day is the local date at `now`, which depends on
/// the time zone of the machine and may not exist.
pub fn date_of(day: Day, now: i64) -> (date: Result<CalendarDate, TimerError>)
    ensures
        day matches Day::Date(written) ==> date == Ok::<CalendarDate, TimerError>(written),
        date matches Err(e) ==> e == TimerError::InvalidDate,
{
    match day {
        Day::Date(written) => Ok(written),
        Day::Today => today_from(local_date(now)),
    }
}

/// The window of the day whose local midnight is `midnight`. Only a
/// midnight that is one instant gives a window, and only where the window's
/// end is an instant that a timestamp can hold; anything else is an invalid
/// date.
pub open spec fn window_of(midnight: LocalInstant) -> Result<ReportWindow, TimerError> {
    match midnight {
        LocalInstant::Unique(at) => match ReportWindow::of_midnight(at as int) {
            Some(window) => Ok(window),
            None => Err(TimerError::InvalidDate),
        },
        _ => Err(TimerError::InvalidDate),
    }
}

/// The window of the day whose local midnight is `midnight`.
pub fn window_at(midnight: LocalInstant) -> (window: Result<ReportWindow, TimerError>)
    ensures
        window == window_of(midnight),
{
    match midnight {
        LocalInstant::Unique(at) => match ReportWindow::starting_at(at) {
            Some(window) => Ok(window),
            None => Err(TimerError::InvalidDate),
        },
        _ => Err(TimerError::InvalidDate),
    }
}

/// The window of the day that begins at the local midnight of `date`. Which
/// instant that is depends on the time zone of the machine; whatever it is,
/// a window that comes back is exactly one day wide, and a failure is an
/// invalid date.
pub fn window_for(date: &CalendarDate) -> (window: Result<ReportWindow, TimerError>)
    ensures
        window matches Ok(w) ==> ReportWindow::of_midnight(w.low as int) == Some(w),
        window matches Err(e) ==> e == TimerError::InvalidDate,
{
    window_at(local_time(date, 0, 0, 0))
}

/// Resolves the day that `text` asks for to its window, with `now` as the
/// current instant. A text that is neither the word `today` nor a date is an
/// invalid date; so is a day whose local midnight is not one instant. A
/// window that comes back is exactly one day wide.
pub fn resolve_window(text: &str, now: i64) -> (window: Result<ReportWindow, TimerError>)
    ensures
        day_of(text@) is None ==> window == Err::<ReportWindow, TimerError>(TimerError::InvalidDate),
        window matches Ok(w) ==> day_of(text@) is Some && ReportWindow::of_midnight(w.low as int)
            == Some(w),
        window matches Err(e) ==> e == TimerError::InvalidDate,
{
    match parse_day(text) {
        Ok(day) => match date_of(day, now) {
            Ok(date) => window_for(&date),
            Err(e) => Err(e),
        },
        Err(e) => Err(e),
    }
}

/// The word `today` never fails as a date. It always reads as the current
/// day; and wherever the local zone gives the current instant a date, and
/// that date one midnight whose window a timestamp can hold, every step of
/// resolving it succeeds.
pub proof fn lemma_today_resolves(local: Option<CalendarDate>, midnight: LocalInstant)
    requires
        local is Some,
        midnight matches LocalInstant::Unique(at) && ReportWindow::of_midnight(at as int) is Some,
    ensures
        day_of(today_word()) == Some(Day::Today),
        today_of(local) is Ok,
        window_of(midnight) is Ok,
{
}

} // verus!
