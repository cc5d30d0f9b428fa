//! The bridge between TOML's date-times and the host's dates and times.
//!
//! A TOML date-time has up to three parts. Which of them are present decides
//! what the host gets: a zoned date-time, a naive one, a date or a time. The
//! host keeps microseconds where TOML keeps nanoseconds, so the way to the
//! host cuts the fraction short, and the way back multiplies.

use vstd::prelude::*;
use vstd::string::StringExecFns;
use crate::error::{ParseError, ParseErrorView};
use crate::host::{HostDateTime, HostTime, HostValue, HostView, TzInfo};
use crate::text::{push_two_digits, two_digits};
use crate::value::{Date, DateTimeValue, Offset, Time};

verus! {

/// Whether `year` has a 29th of February.
pub open spec fn is_leap_year(year: int) -> bool {
    year % 4 == 0 && (year % 100 != 0 || year % 400 == 0)
}

/// The number of days of a month, for `month` from 1 to 12.
pub open spec fn days_in_month(year: int, month: int) -> int {
    if month == 2 {
        if is_leap_year(year) {
            29
        } else {
            28
        }
    } else if month == 4 || month == 6 || month == 9 || month == 11 {
        30
    } else {
        31
    }
}

/// The date is a day of the calendar, in a year from 1 to 9999.
pub open spec fn date_exists(d: Date) -> bool {
    &&& 1 <= d.year <= 9999
    &&& 1 <= d.month <= 12
    &&& 1 <= d.day <= days_in_month(d.year as int, d.month as int)
}

/// The time is a moment of a day.
pub open spec fn time_exists(t: HostTime) -> bool {
    &&& t.hour < 24
    &&& t.minute < 60
    &&& t.second < 60
    &&& t.microsecond < 1_000_000
}

/// The offset has less than sixty minutes.
pub open spec fn tz_exists(tz: TzInfo) -> bool {
    tz.minutes < 60
}

/// Date, time and, where there is one, offset are all in range.
pub open spec fn datetime_exists(dt: HostDateTime) -> bool {
    &&& date_exists(dt.date)
    &&& time_exists(dt.time)
    &&& dt.tzinfo matches Some(tz) ==> tz_exists(tz)
}

/// The host's time for a TOML time: the fraction is cut to microseconds.
pub open spec fn host_time_of(t: Time) -> HostTime {
    HostTime {
        hour: t.hour,
        minute: t.minute,
        second: t.second,
        microsecond: t.nanosecond / 1000,
    }
}

/// The host's offset for a TOML offset: `Z` is zero hours and zero minutes.
pub open spec fn tz_of(offset: Offset) -> TzInfo {
    match offset {
        Offset::Z => TzInfo { hours: 0, minutes: 0 },
        Offset::Custom { hours, minutes } => TzInfo { hours, minutes },
    }
}

/// What a TOML date-time is on the host.
///
/// With a date and a time it is a date-time, zoned if and only if there is
/// an offset. With one of the two it is a date or a time, and an offset, if
/// any, is not looked at. With neither, or where the parts name a day or a
/// moment that does not exist, it is `InvalidDatetime`.
pub open spec fn spec_parse(d: DateTimeValue) -> Result<HostView, ParseErrorView> {
    match (d.date, d.time) {
        (Some(date), Some(time)) => {
            let dt = HostDateTime {
                date,
                time: host_time_of(time),
                tzinfo: match d.offset {
                    Some(offset) => Some(tz_of(offset)),
                    None => None,
                },
            };
            if datetime_exists(dt) {
                Ok(HostView::DateTime(dt))
            } else {
                Err(ParseErrorView::InvalidDatetime)
            }
        },
        (Some(date), None) => if date_exists(date) {
            Ok(HostView::Date(date))
        } else {
            Err(ParseErrorView::InvalidDatetime)
        },
        (None, Some(time)) => if time_exists(host_time_of(time)) {
            Ok(HostView::Time(host_time_of(time)))
        } else {
            Err(ParseErrorView::InvalidDatetime)
        },
        (None, None) => Err(ParseErrorView::InvalidDatetime),
    }
}

/// The TOML time for a host time: microseconds become nanoseconds.
pub open spec fn toml_time_of(t: HostTime) -> Time {
    Time {
        hour: t.hour,
        minute: t.minute,
        second: t.second,
        nanosecond: (t.microsecond * 1000) as u32,
    }
}

/// The TOML offset for a host offset: `Z` where it is zero, else the signed
/// hour and the minute.
pub open spec fn offset_of(tz: TzInfo) -> Offset {
    if tz.hours == 0 && tz.minutes == 0 {
        Offset::Z
    } else {
        Offset::Custom { hours: tz.hours, minutes: tz.minutes }
    }
}

/// The TOML date-time for a date-time of the host, `None` where the host's
/// value names a day or a moment that does not exist.
pub open spec fn spec_datetime_value(dt: HostDateTime) -> Option<DateTimeValue> {
    if datetime_exists(dt) {
        Some(
            DateTimeValue {
                date: Some(dt.date),
                time: Some(toml_time_of(dt.time)),
                offset: match dt.tzinfo {
                    Some(tz) => Some(offset_of(tz)),
                    None => None,
                },
            },
        )
    } else {
        None
    }
}

/// The TOML date-time for a date of the host, `None` where the day does not
/// exist.
pub open spec fn spec_date_value(d: Date) -> Option<DateTimeValue> {
    if date_exists(d) {
        Some(DateTimeValue { date: Some(d), time: None, offset: None })
    } else {
        None
    }
}

/// The TOML date-time for a time of the host, `None` where the moment does
/// not exist.
pub open spec fn spec_time_value(t: HostTime) -> Option<DateTimeValue> {
    if time_exists(t) {
        Some(DateTimeValue { date: None, time: Some(toml_time_of(t)), offset: None })
    } else {
        None
    }
}

/// The offset that a zone stands for, in seconds: the hours and the minutes
/// both carry the sign of the hours.
pub open spec fn zone_seconds(tz: TzInfo) -> int {
    if tz.hours < 0 {
        tz.hours * 3600 - tz.minutes * 60
    } else {
        tz.hours * 3600 + tz.minutes * 60
    }
}

/// The zone of an offset of `seconds` seconds from UTC: the whole hours,
/// signed, and the minutes that are left. `None` where the offset is no
/// whole number of minutes, is a day or more, or lies west of UTC by less
/// than an hour: signed hours and unsigned minutes cannot hold such an
/// offset.
pub open spec fn zone_of_seconds(seconds: int) -> Option<TzInfo> {
    let size = if seconds < 0 {
        -seconds
    } else {
        seconds
    };
    if size % 60 != 0 || size >= 86400 || (seconds < 0 && size < 3600) {
        None
    } else {
        Some(
            TzInfo {
                hours: (if seconds < 0 {
                    -(size / 3600)
                } else {
                    size / 3600
                }) as i8,
                minutes: ((size % 3600) / 60) as u8,
            },
        )
    }
}

/// The magnitude of a signed hour count.
pub open spec fn magnitude(hours: i8) -> nat {
    if hours < 0 {
        (-hours) as nat
    } else {
        hours as nat
    }
}

/// How an offset is written: `UTC` where it is zero, else `UTC`, the sign of
/// the hours, the hours and the minutes with two digits each and a colon
/// between them.
pub open spec fn tz_text(tz: TzInfo) -> Seq<char> {
    if tz.hours == 0 && tz.minutes == 0 {
        "UTC"@
    } else {
        "UTC"@ + seq![if tz.hours < 0 { '-' } else { '+' }] + two_digits(magnitude(tz.hours))
            + seq![':'] + two_digits(tz.minutes as nat)
    }
}

/// Whether `year` has a 29th of February.
pub fn leap_year(year: u16) -> (leap: bool)
    ensures
        leap == is_leap_year(year as int),
{
    year % 4 == 0 && (year % 100 != 0 || year % 400 == 0)
}

/// Whether the date is a day of the calendar.
pub fn date_is_valid(d: &Date) -> (valid: bool)
    ensures
        valid == date_exists(*d),
{
    if d.year < 1 || d.year > 9999 || d.month < 1 || d.month > 12 || d.day < 1 {
        return false;
    }
    let last: u8 = if d.month == 2 {
        if leap_year(d.year) {
            29
        } else {
            28
        }
    } else if d.month == 4 || d.month == 6 || d.month == 9 || d.month == 11 {
        30
    } else {
        31
    };
    d.day <= last
}

/// Whether the time is a moment of a day.
pub fn time_is_valid(t: &HostTime) -> (valid: bool)
    ensures
        valid == time_exists(*t),
{
    t.hour < 24 && t.minute < 60 && t.second < 60 && t.microsecond < 1_000_000
}

/// Whether date, time and offset of a date-time are all in range.
pub fn datetime_is_valid(dt: &HostDateTime) -> (valid: bool)
    ensures
        valid == datetime_exists(*dt),
{
    let zone_ok = match dt.tzinfo {
        Some(tz) => tz.minutes < 60,
        None => true,
    };
    date_is_valid(&dt.date) && time_is_valid(&dt.time) && zone_ok
}

/// Turns a TOML date-time into the host's value for it.
///
/// Gives a date-time, a date or a time, by the parts that are present, and
/// `InvalidDatetime` where neither a date nor a time is present or where the
/// parts name a day or a moment that does not exist. The host's microseconds
/// are the TOML nanoseconds divided by a thousand, the remainder dropped.
pub fn parse(datetime: &DateTimeValue) -> (r: Result<HostValue, ParseError>)
    ensures
        match r {
            Ok(h) => spec_parse(*datetime) == Ok::<HostView, ParseErrorView>(h@),
            Err(e) => spec_parse(*datetime) == Err::<HostView, ParseErrorView>(e@),
        },
{
    match (datetime.date, datetime.time) {
        (Some(date), Some(t)) => {
            let tzinfo = match datetime.offset {
                Some(offset) => {
                    let tz = match offset {
                        Offset::Z => TzInfo::new(0, 0),
                        Offset::Custom { hours, minutes } => TzInfo::new(hours, minutes),
                    };
                    Some(tz)
                },
                None => None,
            };
            let dt = HostDateTime {
                date,
                time: HostTime {
                    hour: t.hour,
                    minute: t.minute,
                    second: t.second,
                    microsecond: t.nanosecond / 1000,
                },
                tzinfo,
            };
            if datetime_is_valid(&dt) {
                Ok(HostValue::DateTime(dt))
            } else {
                Err(ParseError::InvalidDatetime)
            }
        },
        (Some(date), None) => {
            if date_is_valid(&date) {
                Ok(HostValue::Date(date))
            } else {
                Err(ParseError::InvalidDatetime)
            }
        },
        (None, Some(t)) => {
            let time = HostTime {
                hour: t.hour,
                minute: t.minute,
                second: t.second,
                microsecond: t.nanosecond / 1000,
            };
            if time_is_valid(&time) {
                Ok(HostValue::Time(time))
            } else {
                Err(ParseError::InvalidDatetime)
            }
        },
        (None, None) => Err(ParseError::InvalidDatetime),
    }
}

/// The TOML time for a time of the host that exists.
fn toml_time(t: &HostTime) -> (r: Time)
    requires
        time_exists(*t),
    ensures
        r == toml_time_of(*t),
{
    Time { hour: t.hour, minute: t.minute, second: t.second, nanosecond: t.microsecond * 1000 }
}

/// Turns a date-time of the host into a TOML date-time: zoned where the host
/// value has an offset, with `Z` for the zero offset. `None` where the value
/// names a day or a moment that does not exist.
pub fn datetime_value(dt: &HostDateTime) -> (r: Option<DateTimeValue>)
    ensures
        r == spec_datetime_value(*dt),
{
    if !datetime_is_valid(dt) {
        return None;
    }
    let offset = match dt.tzinfo {
        Some(tz) => {
            if tz.hours == 0 && tz.minutes == 0 {
                Some(Offset::Z)
            } else {
                Some(Offset::Custom { hours: tz.hours, minutes: tz.minutes })
            }
        },
        None => None,
    };
    Some(DateTimeValue { date: Some(dt.date), time: Some(toml_time(&dt.time)), offset })
}

/// Turns a date of the host into a TOML local date, `None` where the day
/// does not exist.
pub fn date_value(d: &Date) -> (r: Option<DateTimeValue>)
    ensures
        r == spec_date_value(*d),
{
    if date_is_valid(d) {
        Some(DateTimeValue { date: Some(*d), time: None, offset: None })
    } else {
        None
    }
}

/// Turns a time of the host into a TOML local time, `None` where the moment
/// does not exist.
pub fn time_value(t: &HostTime) -> (r: Option<DateTimeValue>)
    ensures
        r == spec_time_value(*t),
{
    if time_is_valid(t) {
        Some(DateTimeValue { date: None, time: Some(toml_time(t)), offset: None })
    } else {
        None
    }
}

impl TzInfo {
    /// An offset of `hours` hours and `minutes` minutes.
    pub fn new(hours: i8, minutes: u8) -> (tz: Self)
        ensures
            tz == (TzInfo { hours, minutes }),
    {
        TzInfo { hours, minutes }
    }

    /// The zone of an offset of `seconds` seconds from UTC, where signed
    /// hours and unsigned minutes can hold it.
    pub fn from_seconds(seconds: i64) -> (r: Option<Self>)
        ensures
            r == zone_of_seconds(seconds as int),
    {
        if seconds <= -86400 || seconds >= 86400 {
            return None;
        }
        let size: i64 = if seconds < 0 {
            -seconds
        } else {
            seconds
        };
        if size % 60 != 0 || (seconds < 0 && size < 3600) {
            return None;
        }
        let whole: i64 = size / 3600;
        let minutes: i64 = (size % 3600) / 60;
        let hours: i64 = if seconds < 0 {
            -whole
        } else {
            whole
        };
        Some(TzInfo { hours: hours as i8, minutes: minutes as u8 })
    }

    /// The offset in seconds: the hours times 3600 and the minutes times 60,
    /// the minutes counted westward where the hours are.
    pub fn seconds(&self) -> (s: i32)
        ensures
            s == zone_seconds(*self),
    {
        if self.hours < 0 {
            (self.hours as i32) * 3600 - (self.minutes as i32) * 60
        } else {
            (self.hours as i32) * 3600 + (self.minutes as i32) * 60
        }
    }

    /// The offset from UTC of any moment in this zone, in seconds.
    pub fn utcoffset(&self) -> (s: i32)
        ensures
            s == zone_seconds(*self),
    {
        self.seconds()
    }

    /// The name of the zone: `UTC`, or `UTC` with the signed offset.
    pub fn tzname(&self) -> (name: String)
        ensures
            name@ == tz_text(*self),
    {
        let mut name = String::from_str("UTC");
        if self.hours == 0 && self.minutes == 0 {
            return name;
        }
        let ghost start = name@;
        let size: u8 = if self.hours < 0 {
            name.push('-');
            (-(self.hours as i16)) as u8
        } else {
            name.push('+');
            self.hours as u8
        };
        push_two_digits(&mut name, size);
        name.push(':');
        push_two_digits(&mut name, self.minutes);
        proof {
            assert(size as nat == magnitude(self.hours));
            assert(name@ =~= tz_text(*self));
        }
        name
    }

    /// The daylight saving adjustment of the zone: a fixed offset has none.
    pub fn dst(&self) -> (adjustment: Option<i32>)
        ensures
            adjustment is None,
    {
        None
    }

    /// The zone as a developer is shown it: its name inside `TzInfo(` and `)`.
    pub fn repr(&self) -> (text: String)
        ensures
            text@ == "TzInfo("@ + tz_text(*self) + ")"@,
    {
        let mut text = String::from_str("TzInfo(");
        let name = self.tzname();
        text.append(name.as_str());
        text.append(")");
        text
    }
}

/// A date-time of the host that exists comes back unchanged from TOML: the
/// parts that were present are present again, the zero offset is `Z` on the
/// way and zero again after it, and the microseconds survive the detour over
/// nanoseconds.
pub proof fn lemma_datetime_round_trip(dt: HostDateTime)
    requires
        datetime_exists(dt),
    ensures
        spec_datetime_value(dt) is Some,
        spec_parse(spec_datetime_value(dt)->0) == Ok::<HostView, ParseErrorView>(
            HostView::DateTime(dt),
        ),
{
    let d = spec_datetime_value(dt)->0;
    let t = d.time->0;
    assert(t.nanosecond == dt.time.microsecond * 1000);
    assert(host_time_of(t) == dt.time);
    match dt.tzinfo {
        Some(tz) => {
            assert(tz_of(offset_of(tz)) == tz);
        },
        None => {},
    }
}

/// A date of the host that exists comes back unchanged from TOML.
pub proof fn lemma_date_round_trip(d: Date)
    requires
        date_exists(d),
    ensures
        spec_date_value(d) is Some,
        spec_parse(spec_date_value(d)->0) == Ok::<HostView, ParseErrorView>(HostView::Date(d)),
{
}

/// A time of the host that exists comes back unchanged from TOML.
pub proof fn lemma_time_round_trip(t: HostTime)
    requires
        time_exists(t),
    ensures
        spec_time_value(t) is Some,
        spec_parse(spec_time_value(t)->0) == Ok::<HostView, ParseErrorView>(HostView::Time(t)),
{
    let d = spec_time_value(t)->0;
    assert(d.time->0.nanosecond == t.microsecond * 1000);
    assert(host_time_of(d.time->0) == t);
}

/// The fraction of a second is cut, never rounded: whatever a TOML date-time
/// becomes on the host, the microseconds of a time in it are the nanoseconds
/// divided by a thousand, and less than a microsecond is lost.
pub proof fn lemma_fraction_truncates(d: DateTimeValue)
    requires
        d.time is Some,
    ensures
        spec_parse(d) matches Ok(HostView::DateTime(dt)) ==> {
            &&& dt.time.microsecond == d.time->0.nanosecond / 1000
            &&& dt.time.microsecond * 1000 <= d.time->0.nanosecond < dt.time.microsecond * 1000
                + 1000
        },
        spec_parse(d) matches Ok(HostView::Time(t)) ==> {
            &&& t.microsecond == d.time->0.nanosecond / 1000
            &&& t.microsecond * 1000 <= d.time->0.nanosecond < t.microsecond * 1000 + 1000
        },
{
}

/// A zoned TOML date-time keeps its offset across the host: what the host
/// holds writes out as the same signed hour and minute, or as `Z` where the
/// offset is zero.
pub proof fn lemma_offset_round_trip(d: DateTimeValue)
    requires
        d.offset is Some,
        spec_parse(d) matches Ok(HostView::DateTime(_)),
    ensures
        ({
            let dt = spec_parse(d)->Ok_0->DateTime_0;
            let back = spec_datetime_value(dt);
            &&& dt.tzinfo == Some(tz_of(d.offset->0))
            &&& back is Some
            &&& back->0.offset == Some(offset_of(tz_of(d.offset->0)))
            &&& tz_of(back->0.offset->0) == tz_of(d.offset->0)
        }),
{
}

/// A zone of less than a day and with less than sixty minutes is found
/// again from its seconds.
pub proof fn lemma_zone_of_seconds(tz: TzInfo)
    requires
        -24 < tz.hours < 24,
        tz.minutes < 60,
    ensures
        zone_of_seconds(zone_seconds(tz)) == Some(tz),
{
}

/// The zone that is found for an offset stands for that offset.
pub proof fn lemma_seconds_of_zone(seconds: int)
    requires
        zone_of_seconds(seconds) is Some,
    ensures
        zone_seconds(zone_of_seconds(seconds)->0) == seconds,
{
}

} // verus!
