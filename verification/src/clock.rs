//! The wall clock, and the UTC date and time of a moment given in seconds
//! since the Unix epoch.
use vstd::prelude::*;
use chrono::Datelike;
use crate::bgg::opt_view;
use crate::text::is_ascii_digit;

verus! {

#[verifier::external_type_specification]
#[verifier::external_body]
pub struct ExSystemTime(std::time::SystemTime);

/// `std::time::SystemTime::now()`: the clock's current reading. Nothing is
/// stated of it.
#[verifier::external_body]
fn system_now() -> std::time::SystemTime {
    std::time::SystemTime::now()
}

/// `t.duration_since(UNIX_EPOCH)` in whole seconds (`Duration::as_secs`),
/// or `None` where std returns its error, when `t` is earlier than the
/// epoch. The reading `t` is opaque, so nothing is stated of the result.
#[verifier::external_body]
fn seconds_since_epoch(t: &std::time::SystemTime) -> Option<u64> {
    match t.duration_since(std::time::UNIX_EPOCH) {
        Ok(d) => Some(d.as_secs()),
        Err(_) => None,
    }
}

/// The format of the time stamps on the pages.
pub open spec fn stamp_format() -> Seq<char> {
    seq!['%', 'Y', '-', '%', 'm', '-', '%', 'd', ' ', '%', 'H', ':', '%', 'M', ' ', 'U', 'T', 'C']
}

/// Whether `s` has the shape of a `%Y-%m-%d %H:%M UTC` stamp: a year of at
/// least four characters, then `-MM-DD HH:MM UTC` with two-digit fields.
pub open spec fn is_utc_stamp(s: Seq<char>) -> bool {
    let n = s.len() as int;
    &&& n >= 20
    &&& s[n - 16] == '-'
    &&& is_ascii_digit(s[n - 15]) && is_ascii_digit(s[n - 14])
    &&& s[n - 13] == '-'
    &&& is_ascii_digit(s[n - 12]) && is_ascii_digit(s[n - 11])
    &&& s[n - 10] == ' '
    &&& is_ascii_digit(s[n - 9]) && is_ascii_digit(s[n - 8])
    &&& s[n - 7] == ':'
    &&& is_ascii_digit(s[n - 6]) && is_ascii_digit(s[n - 5])
    &&& s.subrange(n - 4, n) == seq![' ', 'U', 'T', 'C']
}

/// The last second of the year 9999, in seconds since the Unix epoch.
pub open spec fn last_second_of_9999() -> int {
    253402300799
}

/// What `DateTime::from_timestamp(secs, 0)` formatted with `fmt` gives:
/// `None` where the moment is out of chrono's range.
pub uninterp spec fn utc_stamp(secs: i64, fmt: Seq<char>) -> Option<Seq<char>>;

/// What `DateTime::from_timestamp(secs, 0)` gives as its year: `None` where
/// the moment is out of chrono's range.
pub uninterp spec fn utc_year(secs: i64) -> Option<i32>;

/// `chrono::DateTime::from_timestamp(secs, 0)`, formatted with the stamp
/// format (`format(fmt).to_string()`). The text is named `utc_stamp`; stated
/// besides: chrono writes the year with at least four characters (a sign
/// first outside 0..=9999), month, day, hour and minute as two zero-padded
/// digits and the literal text as it stands, so the text has the stamp's
/// shape; and every moment from the epoch to the end of the year 9999 is
/// within chrono's range.
#[verifier::external_body]
fn stamp_at(secs: i64, fmt: &str) -> (r: Option<String>)
    requires
        fmt@ == stamp_format(),
    ensures
        opt_view(r) == utc_stamp(secs, fmt@),
        r matches Some(s) ==> is_utc_stamp(s@),
        0 <= secs <= last_second_of_9999() ==> r is Some,
{
    chrono::DateTime::from_timestamp(secs, 0).map(|t| t.format(fmt).to_string())
}

/// `chrono::DateTime::from_timestamp(secs, 0)` and its `year()`, named
/// `utc_year`; every moment from the epoch to the end of the year 9999 is
/// within chrono's range.
#[verifier::external_body]
fn year_at(secs: i64) -> (r: Option<i32>)
    ensures
        r == utc_year(secs),
        0 <= secs <= last_second_of_9999() ==> r is Some,
{
    chrono::DateTime::from_timestamp(secs, 0).map(|t| t.year())
}

/// The clock's reading in whole seconds since the Unix epoch; `None` if it
/// reads before the epoch. Nothing more is stated: it depends on the clock.
pub(crate) fn now_seconds() -> Option<u64> {
    let t = system_now();
    seconds_since_epoch(&t)
}

/// The stamp of a moment given in seconds since the Unix epoch.
pub open spec fn stamp_from_seconds(secs: u64) -> Option<Seq<char>> {
    if secs <= i64::MAX {
        utc_stamp(secs as i64, stamp_format())
    } else {
        None
    }
}

/// The UTC year, cut to 16 bits, of a moment given in seconds since the
/// Unix epoch.
pub open spec fn year_from_seconds(secs: u64) -> Option<u16> {
    if secs <= i64::MAX {
        match utc_year(secs as i64) {
            Some(y) => Some(y as u16),
            None => None,
        }
    } else {
        None
    }
}

/// The stamp (`%Y-%m-%d %H:%M UTC`) of a moment given in seconds since the
/// Unix epoch; `None` where chrono cannot represent it.
pub fn stamp_of_seconds(secs: u64) -> (r: Option<String>)
    ensures
        opt_view(r) == stamp_from_seconds(secs),
        r matches Some(s) ==> is_utc_stamp(s@),
        secs <= last_second_of_9999() ==> r is Some,
{
    if secs <= 9223372036854775807 {
        let fmt = "%Y-%m-%d %H:%M UTC";
        proof {
            reveal_strlit("%Y-%m-%d %H:%M UTC");
        }
        assert(fmt@ =~= stamp_format());
        stamp_at(secs as i64, fmt)
    } else {
        None
    }
}

/// A year cut to 16 bits (`y as u16`).
pub fn year_u16(y: i32) -> (r: u16)
    ensures
        r == y as u16,
{
    y as u16
}

/// The UTC year of a moment given in seconds since the Unix epoch, cut to
/// 16 bits; `None` where chrono cannot represent the moment.
pub fn year_of_seconds(secs: u64) -> (r: Option<u16>)
    ensures
        r == year_from_seconds(secs),
        secs <= last_second_of_9999() ==> r is Some,
{
    if secs <= 9223372036854775807 {
        match year_at(secs as i64) {
            Some(y) => Some(year_u16(y)),
            None => None,
        }
    } else {
        None
    }
}

} // verus!
