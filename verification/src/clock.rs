use vstd::prelude::*;
use crate::chars::{is_digit, digit_val};
use crate::error::TodoError;
use vstd::string::StrSliceExecFns;

verus! {

/// Earliest instant the library stores: 0000-01-01T00:00:00Z.
pub const TS_MIN: i64 = -62167219200;

/// Latest instant the library stores: 9999-12-31T23:59:59Z.
pub const TS_MAX: i64 = 253402300799;

pub open spec fn ts_ok(t: i64) -> bool {
    TS_MIN <= t <= TS_MAX
}

pub open spec fn opt_ts_ok(t: Option<i64>) -> bool {
    match t {
        Some(d) => ts_ok(d),
        None => true,
    }
}

/// The RFC 3339 notation of the instant `t` seconds after the epoch.
pub uninterp spec fn iso_of(t: int) -> Seq<char>;

/// The instant, seconds after the epoch, at which the calendar day
/// (`y`, `m`, `d`) ends, that is its 23:59:59.
pub uninterp spec fn day_end_epoch(y: int, m: int, d: int) -> int;

/// Relies on std::time::SystemTime::now for the current time, as whole
/// seconds since the epoch, read by `duration_since` in whichever
/// direction the clock stands — a clock set before the epoch gives a
/// negative count, never a panic.  Nothing is promised of the value: it
/// is whatever the machine's clock says.
#[verifier::external_body]
fn now_epoch_raw() -> i64 {
    match std::time::SystemTime::now().duration_since(std::time::UNIX_EPOCH) {
        Ok(since) => since.as_secs() as i64,
        Err(before) => -(before.duration().as_secs() as i64),
    }
}

/// The current time as seconds since the epoch, brought into the
/// library's storable range.
pub fn now_epoch() -> (r: i64)
    ensures
        ts_ok(r),
{
    let t = now_epoch_raw();
    if t < TS_MIN {
        TS_MIN
    } else if t > TS_MAX {
        TS_MAX
    } else {
        t
    }
}

/// Relies on chrono: `DateTime::<Utc>::from_timestamp_secs` yields an
/// instant for every count of seconds in this range, and
/// `DateTime::to_rfc3339` writes it as a function of the instant alone,
/// using only digits, '-', ':', 'T', '+' and '.': never empty, never a
/// quote, never a backslash.
#[verifier::external_body]
pub(crate) fn format_timestamp(t: i64) -> (r: String)
    requires
        ts_ok(t),
    ensures
        r@ == iso_of(t as int),
        r@.len() >= 1,
        forall|i: int| 0 <= i < r@.len() ==> r@[i] != '"' && r@[i] != '\\',
{
    match chrono::DateTime::<chrono::Utc>::from_timestamp_secs(t) {
        Some(d) => d.to_rfc3339(),
        None => String::new(),
    }
}

/// What chrono reads out of a would-be RFC 3339 notation: the instant's
/// seconds, or nothing where it refuses the text.
pub uninterp spec fn rfc3339_reading(s: Seq<char>) -> Option<int>;

/// A text chrono reads as an instant the library can store.
pub open spec fn instant_readable(s: Seq<char>) -> bool {
    match rfc3339_reading(s) {
        Some(c) => TS_MIN <= c <= TS_MAX,
        None => false,
    }
}

/// Relies on chrono::DateTime::parse_from_rfc3339: the reading depends
/// on the text alone, and parsing the RFC 3339 notation of an instant
/// gives exactly that instant back.
#[verifier::external_body]
pub(crate) fn parse_timestamp(s: &str) -> (r: Option<i64>)
    ensures
        r matches Some(t) ==> rfc3339_reading(s@) == Some(t as int),
        r is None ==> rfc3339_reading(s@) is None,
        forall|t: i64| ts_ok(t) && s@ == iso_of(t as int) ==> r == Some(t),
{
    match chrono::DateTime::parse_from_rfc3339(s) {
        Ok(d) => Some(d.timestamp()),
        Err(_) => None,
    }
}

pub open spec fn is_leap_year(y: int) -> bool {
    (y % 4 == 0 && y % 100 != 0) || y % 400 == 0
}

pub open spec fn days_in_month(y: int, m: int) -> int {
    if m == 1 || m == 3 || m == 5 || m == 7 || m == 8 || m == 10 || m == 12 {
        31
    } else if m == 4 || m == 6 || m == 9 || m == 11 {
        30
    } else if is_leap_year(y) {
        29
    } else {
        28
    }
}

/// A calendar day of the proleptic Gregorian calendar, within the years
/// the library stores.
pub open spec fn valid_ymd(y: int, m: int, d: int) -> bool {
    0 <= y <= 9999 && 1 <= m <= 12 && 1 <= d <= days_in_month(y, m)
}

/// Relies on chrono: `NaiveDate::from_ymd_opt` yields a date exactly for
/// a valid proleptic-Gregorian calendar day, `and_hms_opt(23, 59, 59)`
/// always succeeds on one, and `timestamp` of the result depends on the
/// day alone.
#[verifier::external_body]
fn ymd_day_end(y: u32, m: u32, d: u32) -> (r: Option<i64>)
    requires
        y <= 9999,
    ensures
        r is Some <==> valid_ymd(y as int, m as int, d as int),
        r matches Some(t) ==> t == day_end_epoch(y as int, m as int, d as int) && ts_ok(t),
{
    match chrono::NaiveDate::from_ymd_opt(y as i32, m, d) {
        Some(date) => match date.and_hms_opt(23, 59, 59) {
            Some(dt) => Some(dt.and_utc().timestamp()),
            None => None,
        },
        None => None,
    }
}

/// A due date as the user writes it: exactly `YYYY-MM-DD`.
pub open spec fn date_format_ok(s: Seq<char>) -> bool {
    &&& s.len() == 10
    &&& is_digit(s[0])
    &&& is_digit(s[1])
    &&& is_digit(s[2])
    &&& is_digit(s[3])
    &&& s[4] == '-'
    &&& is_digit(s[5])
    &&& is_digit(s[6])
    &&& s[7] == '-'
    &&& is_digit(s[8])
    &&& is_digit(s[9])
}

pub open spec fn date_year(s: Seq<char>) -> int {
    digit_val(s[0]) * 1000 + digit_val(s[1]) * 100 + digit_val(s[2]) * 10 + digit_val(s[3])
}

pub open spec fn date_month(s: Seq<char>) -> int {
    digit_val(s[5]) * 10 + digit_val(s[6])
}

pub open spec fn date_day(s: Seq<char>) -> int {
    digit_val(s[8]) * 10 + digit_val(s[9])
}

/// Whether `s` is a well-formed `YYYY-MM-DD` naming of a valid calendar day.
pub open spec fn due_date_ok(s: Seq<char>) -> bool {
    date_format_ok(s) && valid_ymd(date_year(s), date_month(s), date_day(s))
}

fn digit_at(s: &str, i: usize) -> (r: Option<u32>)
    requires
        i < s@.len(),
    ensures
        r matches Some(v) ==> is_digit(s@[i as int]) && v == digit_val(s@[i as int]) && v < 10,
        r is None ==> !is_digit(s@[i as int]),
{
    let c = s.get_char(i);
    let u = c as u32;
    if 48 <= u && u <= 57 {
        Some(u - 48)
    } else {
        None
    }
}

/// Reads a user-supplied due date, `YYYY-MM-DD`, as the instant at which
/// that day ends.  Anything else is rejected as `InvalidDateFormat`
/// carrying the offending text.
pub fn parse_date(s: &str) -> (r: Result<i64, TodoError>)
    ensures
        due_date_ok(s@) ==> (r matches Ok(t) && t == day_end_epoch(
            date_year(s@),
            date_month(s@),
            date_day(s@),
        ) && ts_ok(t)),
        !due_date_ok(s@) ==> (r matches Err(e) && e matches TodoError::InvalidDateFormat(m)
            && m@ == s@),
        r matches Ok(t) ==> ts_ok(t),
{
    let n = s.unicode_len();
    if n != 10 {
        return Err(TodoError::InvalidDateFormat(s.to_owned()));
    }
    if !(s.get_char(4) == '-' && s.get_char(7) == '-') {
        return Err(TodoError::InvalidDateFormat(s.to_owned()));
    }
    let (d0, d1, d2, d3) = (digit_at(s, 0), digit_at(s, 1), digit_at(s, 2), digit_at(s, 3));
    let (d5, d6) = (digit_at(s, 5), digit_at(s, 6));
    let (d8, d9) = (digit_at(s, 8), digit_at(s, 9));
    match (d0, d1, d2, d3, d5, d6, d8, d9) {
        (
            Some(y0),
            Some(y1),
            Some(y2),
            Some(y3),
            Some(m0),
            Some(m1),
            Some(dd0),
            Some(dd1),
        ) => {
            let y = y0 * 1000 + y1 * 100 + y2 * 10 + y3;
            let m = m0 * 10 + m1;
            let d = dd0 * 10 + dd1;
            match ymd_day_end(y, m, d) {
                Some(t) => Ok(t),
                None => Err(TodoError::InvalidDateFormat(s.to_owned())),
            }
        },
        _ => Err(TodoError::InvalidDateFormat(s.to_owned())),
    }
}

} // verus!
