//! The clock and the calendar. The clock is the one thing this crate asks of
//! the machine it runs on, and nothing is promised of it: the functions that
//! use an instant take it as an argument and are verified for every value of
//! it. The calendar turns an instant and an offset from universal time into
//! a date and a time of day; which offset holds at an instant is for the
//! caller to find out.

use vstd::prelude::*;
use chrono::TimeZone;

verus! {

/// `std::time::SystemTime`, carried from the clock to the question how far it
/// lies from the epoch. Nothing inside it is visible here.
#[verifier::external_type_specification]
#[verifier::external_body]
pub struct ExSystemTime(std::time::SystemTime);

/// `std::time::SystemTime::now`: the instant that the system clock shows.
/// The contract claims nothing of it.
#[verifier::external_body]
fn system_now() -> std::time::SystemTime {
    std::time::SystemTime::now()
}

/// `std::time::SystemTime::duration_since`, asked of `UNIX_EPOCH`: the time
/// from the epoch to the instant, or `None` where the instant lies before the
/// epoch. The contract claims nothing of it.
#[verifier::external_body]
fn since_epoch(instant: &std::time::SystemTime) -> Option<std::time::Duration> {
    instant.duration_since(std::time::UNIX_EPOCH).ok()
}

/// `std::time::Duration::as_secs`: the whole seconds of a duration. The
/// contract claims nothing of it.
#[verifier::external_body]
fn whole_seconds(elapsed: &std::time::Duration) -> u64 {
    elapsed.as_secs()
}

/// The pattern for the times that a record shows: date, then time of day.
pub open spec fn display_pattern() -> Seq<char> {
    "%Y-%m-%d %H:%M:%S"@
}

/// The pattern for the deletion date of a trash record.
pub open spec fn stamp_pattern() -> Seq<char> {
    "%Y-%m-%dT%H:%M:%S"@
}

/// The last second after the epoch at which every offset still gives a year
/// of four digits: one day before the end of the year 9999.
pub const LAST_PLAIN_SECOND: u64 = 253_402_214_399;

/// The last second after the epoch that a signed count of 64 bits can hold.
pub const LAST_SIGNED_SECOND: u64 = 0x7fff_ffff_ffff_ffff;

/// The seconds in a day, which every offset from universal time stays below.
pub const DAY_SECONDS: i32 = 86_400;

/// One of the ten decimal digits.
pub open spec fn is_decimal_digit(c: char) -> bool {
    c == '0' || c == '1' || c == '2' || c == '3' || c == '4' || c == '5' || c == '6' || c == '7'
        || c == '8' || c == '9'
}

/// The character `c` fits the given place of a date and time: a hyphen
/// between year, month and day, the separator before the time of day, a colon
/// between hour, minute and second, and a digit everywhere else.
pub open spec fn fits_place(place: int, separator: char, c: char) -> bool {
    if place == 4 || place == 7 {
        c == '-'
    } else if place == 10 {
        c == separator
    } else if place == 13 || place == 16 {
        c == ':'
    } else {
        is_decimal_digit(c)
    }
}

/// The text has the form of a date and a time of day: four digits of year,
/// two each of month and day, the separator, and two digits each of hour,
/// minute and second.
pub open spec fn is_date_time_text(text: Seq<char>, separator: char) -> bool {
    &&& text.len() == 19
    &&& forall|place: int| 0 <= place < 19 ==> fits_place(place, separator, #[trigger] text[place])
}

/// The text has the form that the pattern asks for.
pub open spec fn written_by(pattern: Seq<char>, text: Seq<char>) -> bool {
    &&& pattern == display_pattern() ==> is_date_time_text(text, ' ')
    &&& pattern == stamp_pattern() ==> is_date_time_text(text, 'T')
}

/// An offset of local time from universal time, in seconds: less than a day
/// to either side.
pub open spec fn is_offset(offset_secs: i32) -> bool {
    -DAY_SECONDS < offset_secs < DAY_SECONDS
}

/// At the instant `secs` the year has four digits under the offset.
pub open spec fn has_plain_date(secs: u64, offset_secs: i32) -> bool {
    secs <= LAST_PLAIN_SECOND && is_offset(offset_secs)
}

// The date and time of day that chrono writes by the pattern for the instant
// `secs` seconds after the epoch, at the given offset from universal time.
pub uninterp spec fn offset_time_text_of(secs: i64, offset_secs: i32, pattern: Seq<char>) -> Option<Seq<char>>;

/// The instant `secs` written by the pattern at the offset: what the calendar
/// gives, and nothing where the calendar has no date for the instant or a
/// signed count cannot hold it.
pub open spec fn time_text(secs: u64, offset_secs: i32, pattern: Seq<char>) -> Seq<char> {
    if secs > LAST_SIGNED_SECOND {
        Seq::empty()
    } else {
        match offset_time_text_of(secs as i64, offset_secs, pattern) {
            Some(written) => written,
            None => Seq::empty(),
        }
    }
}

/// The instant `secs` as a record shows its times.
pub open spec fn display_text(secs: u64, offset_secs: i32) -> Seq<char> {
    time_text(secs, offset_secs, display_pattern())
}

/// The instant that a deletion date is written for: the instant itself, or
/// the last one with a year of four digits where it lies beyond that.
pub open spec fn stamped_second(secs: u64) -> u64 {
    if secs <= LAST_PLAIN_SECOND {
        secs
    } else {
        LAST_PLAIN_SECOND
    }
}

/// The offset that a deletion date is written at: the offset itself, or
/// universal time where it is no offset.
pub open spec fn stamped_offset(offset_secs: i32) -> i32 {
    if is_offset(offset_secs) {
        offset_secs
    } else {
        0
    }
}

/// The instant `secs` as a trash record gives its deletion date.
pub open spec fn stamp_text(secs: u64, offset_secs: i32) -> Seq<char> {
    time_text(stamped_second(secs), stamped_offset(offset_secs), stamp_pattern())
}

/// `chrono::FixedOffset::east_opt`, then `chrono::TimeZone::timestamp_opt` on
/// that offset, then `chrono::DateTime::format`: the instant `secs` seconds
/// after the epoch, written by the pattern as date and time of day at the
/// given offset from universal time. `None` where chrono takes the number for
/// no offset or has no date for the instant. chrono fails on a pattern that
/// it cannot read, so only the two patterns of this crate are let in.
///
/// The text is a function of the three arguments alone, and the contract
/// gives it a name. Beside the name it claims when there is a text, and the
/// form of the text. chrono takes an offset of less than a day and no other,
/// and has a date for every instant within its calendar, whose years run far
/// beyond 9999. From the epoch to
/// one day before the end of the year 9999 the local year then has four
/// digits. chrono writes such a year in four digits, writes month, day, hour,
/// minute and second in two digits each, padded with zeros, and passes the
/// other characters of the pattern on as they are.
#[verifier::external_body]
fn offset_time_text(secs: i64, offset_secs: i32, pattern: &str) -> (text: Option<String>)
    requires
        pattern@ == display_pattern() || pattern@ == stamp_pattern(),
    ensures
        match text {
            Some(written) => offset_time_text_of(secs, offset_secs, pattern@) == Some(written@),
            None => offset_time_text_of(secs, offset_secs, pattern@) is None,
        },
        match text {
            Some(written) => is_offset(offset_secs) && (0 <= secs <= LAST_PLAIN_SECOND
                ==> written_by(pattern@, written@)),
            None => !(0 <= secs <= LAST_PLAIN_SECOND && is_offset(offset_secs)),
        },
{
    match chrono::FixedOffset::east_opt(offset_secs) {
        Some(offset) => match offset.timestamp_opt(secs, 0) {
            chrono::LocalResult::Single(moment) => Some(moment.format(pattern).to_string()),
            _ => None,
        },
        None => None,
    }
}

/// The seconds that count as the present: those that have passed since the
/// epoch, or zero where the clock stands before the epoch.
fn seconds_or_zero(elapsed: Option<u64>) -> (secs: u64)
    ensures
        secs == match elapsed {
            Some(passed) => passed,
            None => 0,
        },
{
    match elapsed {
        Some(passed) => passed,
        None => 0,
    }
}

/// Seconds since the epoch on the system clock; zero where the clock stands
/// before the epoch.
pub(crate) fn unix_now() -> u64 {
    let instant = system_now();
    let elapsed = match since_epoch(&instant) {
        Some(elapsed) => Some(whole_seconds(&elapsed)),
        None => None,
    };
    seconds_or_zero(elapsed)
}

/// The instant `secs` seconds after the epoch, written by the pattern at the
/// offset. Empty where the instant lies beyond the calendar.
fn local_time(secs: u64, offset_secs: i32, pattern: &str) -> (text: String)
    requires
        pattern@ == display_pattern() || pattern@ == stamp_pattern(),
    ensures
        text@ == time_text(secs, offset_secs, pattern@),
        has_plain_date(secs, offset_secs) ==> written_by(pattern@, text@),
        !is_offset(offset_secs) ==> text@.len() == 0,
{
    if secs > LAST_SIGNED_SECOND {
        return String::new();
    }
    match offset_time_text(secs as i64, offset_secs, pattern) {
        Some(text) => text,
        None => String::new(),
    }
}

/// `text` shows the instant `secs` at the offset as far as its form goes: it
/// has the plain form of date and time of day up to the year 9999, and it is
/// empty where the offset is none or a signed count cannot hold the instant.
/// In between, the year takes a sign and more digits.
pub open spec fn shows_instant(secs: u64, offset_secs: i32, text: Seq<char>) -> bool {
    &&& has_plain_date(secs, offset_secs) ==> is_date_time_text(text, ' ')
    &&& !is_offset(offset_secs) || secs > LAST_SIGNED_SECOND ==> text.len() == 0
}

/// The instant `secs` seconds after the epoch as date and time of day at the
/// offset, for display.
pub(crate) fn display_time(secs: u64, offset_secs: i32) -> (text: String)
    ensures
        text@ == display_text(secs, offset_secs),
        shows_instant(secs, offset_secs, text@),
{
    local_time(secs, offset_secs, "%Y-%m-%d %H:%M:%S")
}

/// The instant `secs` seconds after the epoch as the deletion date of a trash
/// record, which always has the one form. An instant beyond the year 9999 is
/// dated at the last second before it, and what is no offset counts as
/// universal time.
pub(crate) fn stamp_at(secs: u64, offset_secs: i32) -> (text: String)
    ensures
        text@ == stamp_text(secs, offset_secs),
        is_date_time_text(text@, 'T'),
{
    let second = if secs <= LAST_PLAIN_SECOND {
        secs
    } else {
        LAST_PLAIN_SECOND
    };
    let offset = if -DAY_SECONDS < offset_secs && offset_secs < DAY_SECONDS {
        offset_secs
    } else {
        0
    };
    local_time(second, offset, "%Y-%m-%dT%H:%M:%S")
}

/// The present moment as the deletion date of a trash record: the date of
/// whatever instant the clock shows, in the one form.
pub(crate) fn deletion_stamp(offset_secs: i32) -> (text: String)
    ensures
        exists|now: u64| text@ == #[trigger] stamp_text(now, offset_secs),
        is_date_time_text(text@, 'T'),
{
    let now = unix_now();
    let text = stamp_at(now, offset_secs);
    assert(text@ == stamp_text(now, offset_secs));
    text
}

} // verus!
