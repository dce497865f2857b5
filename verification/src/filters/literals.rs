//! Literals whose text is read and written by other crates: decimals by
//! `bigdecimal`, UUIDs by `uuid`, dates and times by `chrono`, named time
//! zones by `chrono-tz`.
//!
//! Each function here makes one such call and is believed, not verified. What
//! a call returns depends on its arguments alone. The text of a UUID is
//! stated in full; what the other calls return is given a name, and the
//! grammar and the renderer are stated over these names.

use vstd::prelude::*;
use super::grammar::{
    date_shape, datetime_value, fraction_text, instant_shape, is_digit, is_plain_fraction, time,
    uuid_shape,
};
use super::errors::ParseError;
use super::uuids::{uuid_of_text, uuid_to_text};
use super::model::{
    is_date, is_instant, is_integer_text, is_plain_instant, is_time, Date, DateTime, Number, Time,
    ValueView,
};
use std::cmp::Ordering;
use std::str::FromStr;
use chrono::{Datelike, Timelike};

verus! {

/// Whether `u` writes a natural number as `bigdecimal` writes it: decimal
/// digits, one at least, and no `0` before another digit.
pub open spec fn is_canonical_digits(u: Seq<char>) -> bool {
    &&& u.len() > 0
    &&& forall|i: int| 0 <= i < u.len() ==> is_digit(#[trigger] u[i])
    &&& u.len() == 1 || u[0] != '0'
}

/// The decimal that `bigdecimal` reads from `text`: its unscaled integer in
/// decimal digits, and its scale.
pub uninterp spec fn decimal_of_text(text: Seq<char>) -> Option<(Seq<char>, i64)>;

/// The text that `bigdecimal` writes for the decimal of this unscaled integer
/// and scale; `None` where `unscaled` is not the text of an integer.
pub uninterp spec fn decimal_to_text(unscaled: Seq<char>, scale: i64) -> Option<Seq<char>>;

/// How `bigdecimal` orders two decimals, each given by its unscaled integer
/// and its scale: -1 where the first is the smaller number, 0 where the two
/// are the same number, 1 where the first is the greater. `None` where one of
/// the two unscaled integers is not the text of an integer.
pub uninterp spec fn order_of_decimals(
    unscaled: Seq<char>,
    scale: i64,
    other_unscaled: Seq<char>,
    other_scale: i64,
) -> Option<i8>;

/// The date that `chrono` reads from `text` under the format `format`.
pub uninterp spec fn date_of_text(text: Seq<char>, format: Seq<char>) -> Option<Date>;

/// The text that `chrono` writes for this date; `None` where there is no such
/// date.
pub uninterp spec fn date_to_text(year: i32, month: u32, day: u32) -> Option<Seq<char>>;

/// The time of day that `chrono` reads from `text` under the format `format`.
pub uninterp spec fn time_of_text(text: Seq<char>, format: Seq<char>) -> Option<Time>;

/// The text that `chrono` writes for this time of day; `None` where there is
/// no such time.
pub uninterp spec fn time_to_text(second_of_day: u32, nanosecond: u32) -> Option<Seq<char>>;

/// The offset from UTC that `chrono` reads from `text`, in seconds, east
/// positive.
pub uninterp spec fn offset_of_text(text: Seq<char>) -> Option<i32>;

/// Whether `chrono-tz` knows a time zone of this name.
pub uninterp spec fn zone_is_known(name: Seq<char>) -> bool;

/// The earliest instant at which the clocks of a place `offset` seconds east
/// of UTC show this date and time; `None` where there is no such date, time,
/// offset or instant.
pub uninterp spec fn instant_at_offset(
    year: i32,
    month: u32,
    day: u32,
    second_of_day: u32,
    nanosecond: u32,
    offset: i32,
) -> Option<DateTime>;

/// The earliest instant at which the clocks of the time zone `zone` show this
/// date and time; `None` where there is no such date, time, zone or instant.
pub uninterp spec fn instant_in_zone(
    year: i32,
    month: u32,
    day: u32,
    second_of_day: u32,
    nanosecond: u32,
    zone: Seq<char>,
) -> Option<DateTime>;

/// The RFC 3339 text that `chrono` writes for this instant in UTC, with three
/// digits of the fraction of the second, and with `Z` for the offset if
/// `use_z`; `None` where there is no such instant.
pub uninterp spec fn instant_to_text(seconds: i64, nanoseconds: u32, use_z: bool) -> Option<
    Seq<char>,
>;

/// `BigDecimal::from_str`, the result taken apart into its unscaled integer
/// and its scale.
#[verifier::external_body]
pub(crate) fn read_decimal(text: &str) -> (r: Option<Number>)
    ensures
        match r {
            Some(n) => decimal_of_text(text@) == Some((n.unscaled@, n.scale)),
            None => decimal_of_text(text@) is None,
        },
{
    let (unscaled, scale) = bigdecimal::BigDecimal::from_str(text).ok()?.into_bigint_and_exponent();
    Some(Number { unscaled: unscaled.to_string(), scale })
}

/// `Display` of a `BigDecimal`, which is built from the unscaled integer and
/// the scale. `BigInt::from_str` reads the unscaled integer, and reads every
/// text of digits with or without `-` before them. A natural number with the
/// scale 0 is written as its digits, and `BigDecimal::from_str` reads it back
/// from them. A positive integer with a scale from 1 to the count of its
/// digits is written as its digits with a point before the last of them, as
/// many as the scale says, and with `0` before the point where no digit is
/// left there; `BigDecimal::from_str` reads it back from that.
#[verifier::external_body]
pub(crate) fn write_decimal(number: &Number) -> (r: Option<String>)
    ensures
        match r {
            Some(s) => decimal_to_text(number.unscaled@, number.scale) == Some(s@),
            None => decimal_to_text(number.unscaled@, number.scale) is None,
        },
        is_integer_text(number.unscaled@) ==> r is Some,
        r matches Some(s) ==> (number.scale == 0 && is_canonical_digits(number.unscaled@) ==> s@
            == number.unscaled@ && decimal_of_text(s@) == Some((s@, 0i64))),
        r matches Some(s) ==> (is_plain_fraction(number.unscaled@, number.scale) ==> s@
            == fraction_text(number.unscaled@, number.scale) && decimal_of_text(s@) == Some(
            (number.unscaled@, number.scale),
        )),
{
    let unscaled = bigdecimal::num_bigint::BigInt::from_str(&number.unscaled).ok()?;
    Some(bigdecimal::BigDecimal::new(unscaled, number.scale).to_string())
}

/// `Ord::cmp` of two `BigDecimal`s, each built from an unscaled integer and a
/// scale: the order that it finds, as a number.
#[verifier::external_body]
pub(crate) fn order_decimals(a: &Number, b: &Number) -> (r: Option<i8>)
    ensures
        r == order_of_decimals(a.unscaled@, a.scale, b.unscaled@, b.scale),
{
    let x = bigdecimal::num_bigint::BigInt::from_str(&a.unscaled).ok()?;
    let y = bigdecimal::num_bigint::BigInt::from_str(&b.unscaled).ok()?;
    let first = bigdecimal::BigDecimal::new(x, a.scale);
    Some(
        match first.cmp(&bigdecimal::BigDecimal::new(y, b.scale)) {
            Ordering::Less => -1i8,
            Ordering::Equal => 0i8,
            Ordering::Greater => 1i8,
        },
    )
}

/// `Uuid::parse_str`, the result as its 128 bits: from 36 characters of the
/// shape of a UUID it reads the number that the 32 hexadecimal digits write,
/// in either case of the letters.
#[verifier::external_body]
pub(crate) fn read_uuid(text: &str) -> (r: Option<u128>)
    requires
        text@.len() == 36,
        uuid_shape(text@, 0),
    ensures
        r == Some(uuid_of_text(text@)),
{
    Some(uuid::Uuid::parse_str(text).ok()?.as_u128())
}

/// `Display` of a `Uuid`, which is built from its 128 bits: their 32
/// hexadecimal digits in lower case, in five groups with hyphens between
/// them.
#[verifier::external_body]
pub(crate) fn write_uuid(value: u128) -> (r: String)
    ensures
        r@ == uuid_to_text(value),
{
    uuid::Uuid::from_u128(value).to_string()
}

/// `NaiveDate::parse_from_str`, the result as year, month and day.
#[verifier::external_body]
pub(crate) fn read_date(text: &str, format: &str) -> (r: Option<Date>)
    ensures
        r == date_of_text(text@, format@),
{
    let date = chrono::NaiveDate::parse_from_str(text, format).ok()?;
    Some(Date { year: date.year(), month: date.month(), day: date.day() })
}

/// `Display` of a `NaiveDate`, which `NaiveDate::from_ymd_opt` builds from
/// year, month and day: for the dates of the calendar in the years that
/// `chrono` holds, and for no others. A date of the years 0 to 9999 is
/// written as `YYYY-MM-DD`, from which `NaiveDate::parse_from_str` reads it
/// back under `%Y-%m-%d`.
#[verifier::external_body]
pub(crate) fn write_date(date: Date) -> (r: Option<String>)
    ensures
        match r {
            Some(s) => date_to_text(date.year, date.month, date.day) == Some(s@),
            None => date_to_text(date.year, date.month, date.day) is None,
        },
        r is Some <==> is_date(date),
        r matches Some(s) ==> (0 <= date.year <= 9999 ==> s@.len() == 10 && date_shape(s@, 0)
            && date_of_text(s@, "%Y-%m-%d"@) == Some(date)),
{
    Some(chrono::NaiveDate::from_ymd_opt(date.year, date.month, date.day)?.to_string())
}

/// `NaiveTime::parse_from_str`, the result as seconds since midnight and
/// nanoseconds.
#[verifier::external_body]
pub(crate) fn read_time(text: &str, format: &str) -> (r: Option<Time>)
    ensures
        r == time_of_text(text@, format@),
{
    let time = chrono::NaiveTime::parse_from_str(text, format).ok()?;
    Some(Time { second_of_day: time.num_seconds_from_midnight(), nanosecond: time.nanosecond() })
}

/// `Display` of a `NaiveTime`, which
/// `NaiveTime::from_num_seconds_from_midnight_opt` builds from seconds since
/// midnight and nanoseconds: for the times of day, and for no others. A time
/// is written as `HH:MM:SS`, with 3, 6 or 9 digits of its fraction after a
/// point if it has one; the grammar's rule for a time takes all of that, and
/// `NaiveTime::parse_from_str` reads the time back from it.
#[verifier::external_body]
pub(crate) fn write_time(t: Time) -> (r: Option<String>)
    ensures
        match r {
            Some(s) => time_to_text(t.second_of_day, t.nanosecond) == Some(s@),
            None => time_to_text(t.second_of_day, t.nanosecond) is None,
        },
        r is Some <==> is_time(t),
        r matches Some(s) ==> time(s@, 0) == Some((Ok::<Time, ParseError>(t), s@.len())),
{
    let time = chrono::NaiveTime::from_num_seconds_from_midnight_opt(
        t.second_of_day,
        t.nanosecond,
    )?;
    Some(time.to_string())
}

/// `FixedOffset::from_str`, the result in seconds east of UTC.
#[verifier::external_body]
pub(crate) fn read_offset(text: &str) -> (r: Option<i32>)
    ensures
        r == offset_of_text(text@),
{
    Some(chrono::FixedOffset::from_str(text).ok()?.local_minus_utc())
}

/// `Tz::from_str` of `chrono-tz`: whether it finds a time zone.
#[verifier::external_body]
pub(crate) fn knows_zone(name: &str) -> (r: bool)
    ensures
        r == zone_is_known(name@),
{
    chrono_tz::Tz::from_str(name).is_ok()
}

/// `NaiveDateTime::and_local_timezone` with a `FixedOffset`, then
/// `MappedLocalTime::earliest`, the result in UTC as seconds and nanoseconds
/// since the epoch.
#[verifier::external_body]
pub(crate) fn resolve_at_offset(date: Date, time: Time, offset: i32) -> (r: Option<DateTime>)
    ensures
        r == instant_at_offset(
            date.year,
            date.month,
            date.day,
            time.second_of_day,
            time.nanosecond,
            offset,
        ),
{
    let d = chrono::NaiveDate::from_ymd_opt(date.year, date.month, date.day)?;
    let t = chrono::NaiveTime::from_num_seconds_from_midnight_opt(
        time.second_of_day,
        time.nanosecond,
    )?;
    let zone = chrono::FixedOffset::east_opt(offset)?;
    let instant = d.and_time(t).and_local_timezone(zone).earliest()?.to_utc();
    Some(DateTime { seconds: instant.timestamp(), nanoseconds: instant.timestamp_subsec_nanos() })
}

/// `NaiveDateTime::and_local_timezone` with the `Tz` of this name, then
/// `MappedLocalTime::earliest`, the result in UTC as seconds and nanoseconds
/// since the epoch.
#[verifier::external_body]
pub(crate) fn resolve_in_zone(date: Date, time: Time, zone: &str) -> (r: Option<DateTime>)
    ensures
        r == instant_in_zone(
            date.year,
            date.month,
            date.day,
            time.second_of_day,
            time.nanosecond,
            zone@,
        ),
{
    let d = chrono::NaiveDate::from_ymd_opt(date.year, date.month, date.day)?;
    let t = chrono::NaiveTime::from_num_seconds_from_midnight_opt(
        time.second_of_day,
        time.nanosecond,
    )?;
    let zone = chrono_tz::Tz::from_str(zone).ok()?;
    let instant = d.and_time(t).and_local_timezone(zone).earliest()?.to_utc();
    Some(DateTime { seconds: instant.timestamp(), nanoseconds: instant.timestamp_subsec_nanos() })
}

/// `DateTime::to_rfc3339_opts` with `SecondsFormat::Millis`, on the instant
/// that `DateTime::from_timestamp` builds. It builds every instant of the
/// years 0 to 9999, and others that this contract does not name. With `Z`
/// for UTC, an instant of those years at a whole millisecond and in no leap
/// second is written as `YYYY-MM-DDTHH:MM:SS.mmmZ`; the grammar's rule for a
/// date and time takes all of that, and from its date, its time and the
/// offset `+0000` the instant is built again.
#[verifier::external_body]
pub(crate) fn write_instant(instant: DateTime, use_z: bool) -> (r: Option<String>)
    ensures
        match r {
            Some(s) => instant_to_text(instant.seconds, instant.nanoseconds, use_z) == Some(s@),
            None => instant_to_text(instant.seconds, instant.nanoseconds, use_z) is None,
        },
        is_instant(instant) ==> r is Some,
        r matches Some(s) ==> (use_z && is_plain_instant(instant) ==> instant_shape(s@)
            && datetime_value(s@, 0) == Some(
            (Ok::<ValueView, ParseError>(ValueView::DateTime(instant)), 24nat),
        )),
{
    let t = chrono::DateTime::from_timestamp(instant.seconds, instant.nanoseconds)?;
    Some(t.to_rfc3339_opts(chrono::SecondsFormat::Millis, use_z))
}

} // verus!
