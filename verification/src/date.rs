//! Calendar dates, times of day and their encodings.

use crate::arith::{low_i32, low_u32, narrow_i32, narrow_u32, trunc_div, trunc_rem};
use crate::endian::{
    i32_le_bytes, le_u32, lemma_signed32_round_trip, read_i32_le, signed32, u32_le, unsigned32,
};
use crate::error::Error;
use crate::reader::ByteReader;
use crate::text::{
    all_digits, chars_of, decimal_u32, decimal_value, is_digit, lemma_decimal_value_bound,
    lemma_zero_padded, parse_decimal, pow10, zero_padded, zero_padded_string,
};
use vstd::prelude::*;
use vstd::slice::slice_subrange;
use vstd::string::StringExecFns;

verus! {

/// First year that `Date::new` accepts.
pub const MIN_YEAR: u32 = 1900;

/// Last year that `Date::new` accepts.
pub const MAX_YEAR: u32 = 2155;

/// A day of the calendar. A value need not name a day that exists: only
/// `new` checks its arguments.
#[derive(Debug, Copy, Clone, PartialEq, Eq, Structural)]
pub struct Date {
    pub year: u32,
    pub month: u32,
    pub day: u32,
}

/// Whether `year` has a 29th of February in the Gregorian calendar.
pub open spec fn is_leap_year(year: int) -> bool {
    (year % 4 == 0 && year % 100 != 0) || year % 400 == 0
}

/// Number of days of `month` in `year`, for a month from 1 to 12.
pub open spec fn days_in_month(year: int, month: int) -> int {
    if month == 2 {
        if is_leap_year(year) {
            29
        } else {
            28
        }
    } else if month == 4 || month == 6 || month == 9 || month == 11 {
        30
    } else {
        31
    }
}

impl Date {
    /// Whether the fields lie in the ranges that `new` accepts.
    pub open spec fn is_valid(self) -> bool {
        1 <= self.month <= 12 && 1 <= self.day <= 31 && MIN_YEAR <= self.year <= MAX_YEAR
    }

    /// Whether the date is valid and its month has that day.
    pub open spec fn is_calendar_date(self) -> bool {
        self.is_valid() && self.day <= days_in_month(self.year as int, self.month as int)
    }

    /// The Julian Day Number of the date, counted in the proleptic
    /// Gregorian calendar with the year taken to start in March. Divisions
    /// round toward zero.
    pub open spec fn julian_day_number(self) -> int {
        let month = if self.month > 2 {
            self.month - 3
        } else {
            self.month + 9
        };
        let year = if self.month > 2 {
            self.year as int
        } else {
            self.year - 1
        };
        let century = trunc_div(year, 100);
        let decade = year - 100 * century;
        trunc_div(146097 * century, 4) + trunc_div(1461 * decade, 4) + (153 * month + 2) / 5
            + self.day + 1721119
    }

    /// The date of the Julian Day Number `jdn` in the proleptic Gregorian
    /// calendar. Divisions round toward zero, and each field keeps the low
    /// 32 bits of what was computed.
    pub open spec fn of_julian_day_number(jdn: int) -> Date {
        let f = jdn + 1401 + trunc_div(trunc_div(4 * jdn + 274277, 146097) * 3, 4) - 38;
        let e = 4 * f + 3;
        let g = trunc_div(trunc_rem(e, 1461), 4);
        let h = 5 * g + 2;
        let day = trunc_div(trunc_rem(h, 153), 5) + 1;
        let month = trunc_rem(trunc_div(h, 153) + 2, 12) + 1;
        let year = trunc_div(e, 1461) - 4716 + trunc_div(14 - month, 12);
        Date { year: low_u32(year), month: low_u32(month), day: low_u32(day) }
    }

    /// The date that three bytes of a table header stand for: years since
    /// 1900, month, day.
    pub open spec fn of_bytes(bytes: Seq<u8>) -> Date {
        Date { year: (1900 + bytes[0]) as u32, month: bytes[1] as u32, day: bytes[2] as u32 }
    }

    /// The three bytes that stand for the date in a table header; each
    /// keeps the low eight bits of its number.
    pub open spec fn header_bytes(self) -> Seq<u8> {
        seq![
            ((self.year - 1900) % 256) as u8,
            (self.month % 256) as u8,
            (self.day % 256) as u8,
        ]
    }

    /// The date as text: the year in at least four digits, then month and
    /// day in at least two each, zeros in front where a number is short.
    pub open spec fn text(self) -> Seq<char> {
        zero_padded(self.year as nat, 4) + zero_padded(self.month as nat, 2) + zero_padded(
            self.day as nat,
            2,
        )
    }

    /// The date that the text `s` writes: four digits of year, two of
    /// month, two of day, and whatever follows them left unread.
    pub open spec fn parse_text(s: Seq<char>) -> Result<Date, Error> {
        if s.len() >= 8 && all_digits(s.take(8)) {
            Ok(
                Date {
                    year: decimal_value(s.subrange(0, 4)) as u32,
                    month: decimal_value(s.subrange(4, 6)) as u32,
                    day: decimal_value(s.subrange(6, 8)) as u32,
                },
            )
        } else {
            Err(Error::ParseIntError)
        }
    }

    /// A date with month from 1 to 12, day from 1 to 31 and year from 1900
    /// to 2155; `InvalidDate` for anything else.
    pub fn new(day: u32, month: u32, year: u32) -> (r: Result<Self, Error>)
        ensures
            r == if (Date { year, month, day }).is_valid() {
                Ok::<Date, Error>(Date { year, month, day })
            } else {
                Err::<Date, Error>(Error::InvalidDate)
            },
    {
        if month < 1 || month > 12 || day < 1 || day > 31 || year < MIN_YEAR || year > MAX_YEAR {
            Err(Error::InvalidDate)
        } else {
            Ok(Self { year, month, day })
        }
    }

    /// The year.
    pub fn year(&self) -> (r: u32)
        ensures
            r == self.year,
    {
        self.year
    }

    /// The month, from 1 for January.
    pub fn month(&self) -> (r: u32)
        ensures
            r == self.month,
    {
        self.month
    }

    /// The day of the month.
    pub fn day(&self) -> (r: u32)
        ensures
            r == self.day,
    {
        self.day
    }

    /// Reads the three-byte form. Nothing is checked: any byte is taken.
    pub fn from_bytes(bytes: [u8; 3]) -> (r: Self)
        ensures
            r == Self::of_bytes(bytes@),
    {
        Self { year: 1900u32 + bytes[0] as u32, month: bytes[1] as u32, day: bytes[2] as u32 }
    }

    /// Appends the three-byte form to `dest`.
    pub fn write_to(&self, dest: &mut Vec<u8>)
        ensures
            final(dest)@ == old(dest)@ + self.header_bytes(),
    {
        let since: i64 = self.year as i64 - 1900;
        let low: i64 = since % 256;
        let first: u8 = if low < 0 {
            (low + 256) as u8
        } else {
            low as u8
        };
        dest.push(first);
        dest.push((self.month % 256) as u8);
        dest.push((self.day % 256) as u8);
        assert(final(dest)@ =~= old(dest)@ + self.header_bytes());
    }

    /// The date of a Julian Day Number.
    pub fn julian_day_number_to_gregorian_date(jdn: i32) -> (r: Date)
        ensures
            r == Self::of_julian_day_number(jdn as int),
    {
        let jdn: i64 = jdn as i64;
        let a: i64 = (4 * jdn + 274277) / 146097;
        assert(a == trunc_div(4 * jdn + 274277, 146097));
        let b: i64 = (a * 3) / 4;
        assert(b == trunc_div(a * 3, 4));
        let f: i64 = jdn + 1401 + b - 38;
        let e: i64 = 4 * f + 3;
        let years: i64 = e / 1461;
        assert(years == trunc_div(e as int, 1461));
        let past_year: i64 = e % 1461;
        assert(past_year == trunc_rem(e as int, 1461));
        let g: i64 = past_year / 4;
        assert(g == trunc_div(past_year as int, 4));
        let h: i64 = 5 * g + 2;
        let months: i64 = h / 153;
        assert(months == trunc_div(h as int, 153));
        let past_month: i64 = h % 153;
        assert(past_month == trunc_rem(h as int, 153));
        let day: i64 = past_month / 5 + 1;
        assert(day == trunc_div(past_month as int, 5) + 1);
        let month: i64 = ((months + 2) % 12) + 1;
        assert(month == trunc_rem(months + 2, 12) + 1);
        let year: i64 = years - 4716 + (14 - month) / 12;
        assert(year == years - 4716 + trunc_div(14 - month, 12));
        Date { year: narrow_u32(year), month: narrow_u32(month), day: narrow_u32(day) }
    }

    /// The Julian Day Number of the date, narrowed to 32 bits.
    pub fn to_julian_day_number(&self) -> (r: i32)
        ensures
            r == low_i32(self.julian_day_number()),
    {
        let (month, year): (i64, i64) = if self.month > 2 {
            (self.month as i64 - 3, self.year as i64)
        } else {
            (self.month as i64 + 9, self.year as i64 - 1)
        };
        let century: i64 = year / 100;
        let decade: i64 = year - 100 * century;
        let number: i64 = (146097 * century) / 4 + (1461 * decade) / 4 + (153 * month + 2) / 5
            + self.day as i64 + 1721119;
        narrow_i32(number as u64)
    }
}

impl std::string::ToString for Date {
    /// The date as text, `YYYYMMDD` for a year below 10000 and month and
    /// day below 100.
    fn to_string(&self) -> (r: String)
        ensures
            r@ == self.text(),
    {
        let mut out = zero_padded_string(self.year, 4);
        let month = zero_padded_string(self.month, 2);
        let day = zero_padded_string(self.day, 2);
        out.append(month.as_str());
        out.append(day.as_str());
        out
    }
}

impl std::str::FromStr for Date {
    type Err = Error;

    /// Reads a date from text that starts with eight digits, `YYYYMMDD`.
    /// Shorter text, or anything but a digit among the eight, gives
    /// `ParseIntError`; no range is checked.
    fn from_str(s: &str) -> (r: Result<Date, Error>)
        ensures
            r == Self::parse_text(s@),
    {
        let chars = chars_of(s);
        if chars.len() < 8 {
            return Err(Error::ParseIntError);
        }
        let year = parse_decimal(slice_subrange(chars.as_slice(), 0, 4));
        let month = parse_decimal(slice_subrange(chars.as_slice(), 4, 6));
        let day = parse_decimal(slice_subrange(chars.as_slice(), 6, 8));
        proof {
            lemma_digit_groups(s@);
        }
        match (year, month, day) {
            (Some(year), Some(month), Some(day)) => Ok(Date { year, month, day }),
            _ => Err(Error::ParseIntError),
        }
    }
}

/// Eight leading digits are three groups of digits, and each group writes a
/// number that fits in 32 bits.
proof fn lemma_digit_groups(s: Seq<char>)
    requires
        s.len() >= 8,
    ensures
        all_digits(s.take(8)) <==> decimal_u32(s.subrange(0, 4)) is Some && decimal_u32(
            s.subrange(4, 6),
        ) is Some && decimal_u32(s.subrange(6, 8)) is Some,
        all_digits(s.take(8)) ==> decimal_u32(s.subrange(0, 4)) == Some(
            decimal_value(s.subrange(0, 4)) as u32,
        ) && decimal_u32(s.subrange(4, 6)) == Some(decimal_value(s.subrange(4, 6)) as u32)
            && decimal_u32(s.subrange(6, 8)) == Some(decimal_value(s.subrange(6, 8)) as u32),
{
    let year = s.subrange(0, 4);
    let month = s.subrange(4, 6);
    let day = s.subrange(6, 8);
    let head = s.take(8);
    assert(pow10(4) == 10000 && pow10(2) == 100) by {
        assert(pow10(0) == 1);
        assert(pow10(1) == 10);
        assert(pow10(2) == 100);
        assert(pow10(3) == 1000);
    }
    if all_digits(head) {
        assert forall|i: int| 0 <= i < year.len() implies is_digit(#[trigger] year[i]) by {
            assert(year[i] == head[i]);
        }
        assert forall|i: int| 0 <= i < month.len() implies is_digit(#[trigger] month[i]) by {
            assert(month[i] == head[i + 4]);
        }
        assert forall|i: int| 0 <= i < day.len() implies is_digit(#[trigger] day[i]) by {
            assert(day[i] == head[i + 6]);
        }
        lemma_decimal_value_bound(year);
        lemma_decimal_value_bound(month);
        lemma_decimal_value_bound(day);
    }
    if all_digits(year) && all_digits(month) && all_digits(day) {
        assert forall|i: int| 0 <= i < head.len() implies is_digit(#[trigger] head[i]) by {
            if i < 4 {
                assert(head[i] == year[i]);
            } else if i < 6 {
                assert(head[i] == month[i - 4]);
            } else {
                assert(head[i] == day[i - 6]);
            }
        }
    }
}

/// Written as text and read back, a date in the accepted range is the
/// same date.
pub proof fn lemma_text_round_trip(d: Date)
    requires
        d.is_valid(),
    ensures
        d.text().len() == 8,
        all_digits(d.text()),
        Date::parse_text(d.text()) == Ok::<Date, Error>(d),
{
    assert(pow10(4) == 10000 && pow10(2) == 100) by {
        assert(pow10(0) == 1);
        assert(pow10(1) == 10);
        assert(pow10(2) == 100);
        assert(pow10(3) == 1000);
    }
    lemma_zero_padded(d.year as nat, 4);
    lemma_zero_padded(d.month as nat, 2);
    lemma_zero_padded(d.day as nat, 2);
    let t = d.text();
    assert(t.subrange(0, 4) =~= zero_padded(d.year as nat, 4));
    assert(t.subrange(4, 6) =~= zero_padded(d.month as nat, 2));
    assert(t.subrange(6, 8) =~= zero_padded(d.day as nat, 2));
    assert(t.take(8) =~= t);
    assert forall|i: int| 0 <= i < t.len() implies is_digit(#[trigger] t[i]) by {
        if i < 4 {
            assert(t[i] == zero_padded(d.year as nat, 4)[i]);
        } else if i < 6 {
            assert(t[i] == zero_padded(d.month as nat, 2)[i - 4]);
        } else {
            assert(t[i] == zero_padded(d.day as nat, 2)[i - 6]);
        }
    }
}

/// Day of the year that starts in March, counted from 1, for `month` months
/// after March and the given day of the month.
pub open spec fn day_of_march_year(month: int, day: int) -> int {
    (153 * month + 2) / 5 + day
}

/// Number of days of the month that lies `month` months after March; the
/// last one, February, is given its 29 days.
pub open spec fn march_month_len(month: int) -> int {
    if month == 11 {
        29
    } else if month == 1 || month == 3 || month == 6 || month == 8 {
        30
    } else {
        31
    }
}

/// The day of the March year splits back into its month and day.
proof fn lemma_split_day_of_year(month: int, day: int)
    requires
        0 <= month <= 11,
        1 <= day <= march_month_len(month),
    ensures
        1 <= day_of_march_year(month, day) <= 366,
        day_of_march_year(month, day) == 366 ==> month == 11 && day == 29,
        (5 * (day_of_march_year(month, day) - 1) + 2) / 153 == month,
        ((5 * (day_of_march_year(month, day) - 1) + 2) % 153) / 5 + 1 == day,
{
    if month == 0 {
    } else if month == 1 {
    } else if month == 2 {
    } else if month == 3 {
    } else if month == 4 {
    } else if month == 5 {
    } else if month == 6 {
    } else if month == 7 {
    } else if month == 8 {
    } else if month == 9 {
    } else if month == 10 {
    } else {
    }
}

/// The day count of a century, a year within it and a day of that year
/// splits back into the year and the day.
proof fn lemma_split_day_count(century: int, decade: int, day: int)
    requires
        18 <= century <= 21,
        0 <= decade <= 99,
        1 <= day <= 366,
        day == 366 ==> decade % 4 == 3 && (decade == 99 ==> century % 4 == 3),
    ensures
        ({
            let jdn = (146097 * century) / 4 + (1461 * decade) / 4 + day + 1721119;
            let f = jdn + 1401 + (((4 * jdn + 274277) / 146097) * 3) / 4 - 38;
            let e = 4 * f + 3;
            &&& 2378556 <= jdn <= 2524653
            &&& e / 1461 == 100 * century + decade + 4716
            &&& (e % 1461) / 4 == day - 1
        }),
{
    let jdn = (146097 * century) / 4 + (1461 * decade) / 4 + day + 1721119;
    let quarter = (1461 * decade) / 4;
    assert(4 * quarter == 1461 * decade - decade % 4);
    let a = (4 * jdn + 274277) / 146097;
    let three = (a * 3) / 4;
    if century == 18 {
        assert(a == 67);
        assert(three == 50);
    } else if century == 19 {
        assert(a == 68 || a == 69);
        assert(three == 51);
    } else if century == 20 {
        assert(a == 69);
        assert(three == 51);
    } else {
        assert(a == 70);
        assert(three == 52);
    }
    let f = jdn + 1401 + three - 38;
    let e = 4 * f + 3;
    let years = 100 * century + decade + 4716;
    let rest = 4 * (day - 1) + 3 - decade % 4;
    assert(e == 1461 * years + rest);
    assert(0 <= rest < 1461);
    assert(e / 1461 == years && e % 1461 == rest) by {
        lemma_quotient_and_rest(e, 1461, years, rest);
    }
}

/// A number written as a multiple of `b` and a rest below `b` has that
/// multiple as its quotient.
proof fn lemma_quotient_and_rest(a: int, b: int, q: int, r: int)
    requires
        b > 0,
        a == b * q + r,
        0 <= r < b,
    ensures
        a / b == q,
        a % b == r,
{
    assert(b * q == q * b) by (nonlinear_arith);
    vstd::arithmetic::div_mod::lemma_fundamental_div_mod_converse(a, b, q, r);
}

/// The Julian Day Number of a calendar date, told by the century and the
/// year within it of the year that starts in March, and by the day of
/// that year.
proof fn lemma_julian_day_number_parts(d: Date, month: int, year: int)
    requires
        d.is_calendar_date(),
        month == if d.month > 2 {
            d.month - 3
        } else {
            d.month + 9
        },
        year == if d.month > 2 {
            d.year as int
        } else {
            d.year - 1
        },
    ensures
        d.julian_day_number() == (146097 * (year / 100)) / 4 + (1461 * (year % 100)) / 4
            + day_of_march_year(month, d.day as int) + 1721119,
{
    let century = year / 100;
    assert(trunc_div(year, 100) == century);
    assert(year - 100 * century == year % 100);
    assert(trunc_div(146097 * century, 4) == (146097 * century) / 4);
    assert(trunc_div(1461 * (year % 100), 4) == (1461 * (year % 100)) / 4);
}

/// The date of a Julian Day Number, told by what its day count splits
/// into: the years since the year -4716, and the month and day of the year
/// that starts in March.
proof fn lemma_date_of_parts(jdn: int, years: int, month: int, day: int)
    requires
        0 <= jdn <= i32::MAX,
        4716 <= years <= 10000,
        0 <= month <= 11,
        1 <= day <= 31,
        ({
            let f = jdn + 1401 + (((4 * jdn + 274277) / 146097) * 3) / 4 - 38;
            let e = 4 * f + 3;
            let h = 5 * ((e % 1461) / 4) + 2;
            &&& e / 1461 == years
            &&& h / 153 == month
            &&& (h % 153) / 5 + 1 == day
        }),
    ensures
        Date::of_julian_day_number(jdn) == (Date {
            year: (if month >= 10 {
                years - 4715
            } else {
                years - 4716
            }) as u32,
            month: (if month >= 10 {
                month - 9
            } else {
                month + 3
            }) as u32,
            day: day as u32,
        }),
{
    let a = (4 * jdn + 274277) / 146097;
    assert(trunc_div(4 * jdn + 274277, 146097) == a);
    assert(trunc_div(a * 3, 4) == (a * 3) / 4);
    let f = jdn + 1401 + (a * 3) / 4 - 38;
    let e = 4 * f + 3;
    assert(e >= 0);
    assert(trunc_div(e, 1461) == e / 1461);
    assert(trunc_rem(e, 1461) == e % 1461);
    let g = (e % 1461) / 4;
    assert(trunc_div(e % 1461, 4) == g);
    let h = 5 * g + 2;
    assert(trunc_div(h, 153) == h / 153);
    assert(trunc_rem(h, 153) == h % 153);
    assert(trunc_div(h % 153, 5) == (h % 153) / 5);
    assert(trunc_rem(month + 2, 12) == (month + 2) % 12);
    let back_month = (month + 2) % 12 + 1;
    assert(back_month == if month >= 10 {
        month - 9
    } else {
        month + 3
    });
    assert(trunc_div(14 - back_month, 12) == if month >= 10 {
        1int
    } else {
        0int
    });
    let back_year = years - 4716 + trunc_div(14 - back_month, 12);
    assert(low_u32(back_year) == back_year);
    assert(low_u32(back_month) == back_month);
    assert(low_u32(day) == day);
}

/// From a date to its Julian Day Number and back gives the date again,
/// for every day that the calendar has from 1900 to 2155. The number fits
/// in 32 bits, so the narrowing in `to_julian_day_number` changes nothing.
pub proof fn lemma_julian_day_round_trip(d: Date)
    requires
        d.is_calendar_date(),
    ensures
        0 <= d.julian_day_number() <= i32::MAX,
        low_i32(d.julian_day_number()) as int == d.julian_day_number(),
        Date::of_julian_day_number(d.julian_day_number()) == d,
{
    let month: int = if d.month > 2 {
        d.month - 3
    } else {
        d.month + 9
    };
    let year: int = if d.month > 2 {
        d.year as int
    } else {
        d.year - 1
    };
    let century = year / 100;
    let decade = year % 100;
    let day = day_of_march_year(month, d.day as int);
    assert(d.day <= march_month_len(month));
    lemma_split_day_of_year(month, d.day as int);
    assert(day == 366 ==> decade % 4 == 3 && (decade == 99 ==> century % 4 == 3)) by {
        if day == 366 {
            assert(is_leap_year(d.year as int));
        }
    }
    lemma_split_day_count(century, decade, day);
    lemma_julian_day_number_parts(d, month, year);
    let jdn = d.julian_day_number();
    lemma_date_of_parts(jdn, year + 4716, month, d.day as int);
}

/// A time of day, to the second.
#[derive(Debug, Copy, Clone, PartialEq, Eq, Structural)]
pub struct Time {
    pub hours: u32,
    pub minutes: u32,
    pub seconds: u32,
}

impl Time {
    /// The time that `word` milliseconds since midnight stand for: whole
    /// hours, then whole minutes of what is left, then whole seconds of
    /// what is left of that. Divisions round toward zero, and each field
    /// keeps the low 32 bits of what was computed.
    pub open spec fn of_word(word: int) -> Time {
        let hours = trunc_div(word, 3_600_000);
        let past_hour = trunc_rem(word, 3_600_000);
        let minutes = trunc_div(past_hour, 60_000);
        let past_minute = trunc_rem(past_hour, 60_000);
        let seconds = trunc_div(past_minute, 1_000);
        Time { hours: low_u32(hours), minutes: low_u32(minutes), seconds: low_u32(seconds) }
    }

    /// Milliseconds from midnight to this time.
    pub open spec fn milliseconds(self) -> int {
        self.hours * 3_600_000 + self.minutes * 60_000 + self.seconds * 1_000
    }

    /// Splits milliseconds since midnight into hours, minutes and seconds;
    /// what is left below a second is dropped.
    pub fn from_word(time_word: i32) -> (r: Self)
        ensures
            r == Self::of_word(time_word as int),
    {
        let word: i64 = time_word as i64;
        let hours: i64 = word / 3_600_000;
        let past_hour: i64 = word - hours * 3_600_000;
        let minutes: i64 = past_hour / 60_000;
        let past_minute: i64 = past_hour - minutes * 60_000;
        let seconds: i64 = past_minute / 1_000;
        Time {
            hours: narrow_u32(hours),
            minutes: narrow_u32(minutes),
            seconds: narrow_u32(seconds),
        }
    }

    /// Milliseconds from midnight to this time, narrowed to 32 bits.
    pub fn to_time_word(&self) -> (r: i32)
        ensures
            r == low_i32(self.milliseconds()),
    {
        let word: u64 = self.hours as u64 * 3_600_000 + self.minutes as u64 * 60_000
            + self.seconds as u64 * 1_000;
        narrow_i32(word)
    }
}

/// Split and put together again, milliseconds since midnight lose what
/// they held below a second and nothing else.
pub proof fn lemma_time_word_round_trip(word: int)
    requires
        0 <= word <= i32::MAX,
    ensures
        Time::of_word(word).milliseconds() == word - word % 1000,
        low_i32(Time::of_word(word).milliseconds()) as int == word - word % 1000,
        Time::of_word(word).minutes < 60,
        Time::of_word(word).seconds < 60,
{
}

/// A date and a time of day.
#[derive(Debug, Copy, Clone, PartialEq, Eq, Structural)]
pub struct DateTime {
    pub date: Date,
    pub time: Time,
}

impl DateTime {
    /// The date and time that eight bytes stand for: a Julian Day Number
    /// and milliseconds since midnight, each a little-endian signed 32-bit
    /// integer.
    pub open spec fn decode(bytes: Seq<u8>) -> DateTime {
        DateTime {
            date: Date::of_julian_day_number(signed32(le_u32(bytes))),
            time: Time::of_word(signed32(le_u32(bytes.skip(4)))),
        }
    }

    /// The eight bytes that stand for the date and time.
    pub open spec fn encoding(self) -> Seq<u8> {
        u32_le(unsigned32(low_i32(self.date.julian_day_number()) as int)) + u32_le(
            unsigned32(low_i32(self.time.milliseconds()) as int),
        )
    }

    /// Reads eight bytes of `src` as a date and time.
    pub fn read_from(src: &mut ByteReader) -> (r: Result<Self, Error>)
        ensures
            final(src).bytes() == old(src).bytes(),
            r == if old(src).remaining().len() >= 8 {
                Ok::<DateTime, Error>(Self::decode(old(src).remaining()))
            } else {
                Err::<DateTime, Error>(Error::UnexpectedEof)
            },
            r is Ok ==> final(src).remaining() == old(src).remaining().skip(8),
            r is Err ==> final(src).pos() == old(src).bytes().len(),
    {
        let ghost all = src.remaining();
        let first = src.read_exact(4)?;
        let second = src.read_exact(4)?;
        proof {
            assert(le_u32(first@) == le_u32(all));
            assert(le_u32(second@) == le_u32(all.skip(4)));
            assert(all.skip(4).skip(4) =~= all.skip(8));
        }
        let julian_day_number = read_i32_le(first.as_slice());
        let time_word = read_i32_le(second.as_slice());
        let time = Time::from_word(time_word);
        let date = Date::julian_day_number_to_gregorian_date(julian_day_number);
        Ok(Self { date, time })
    }

    /// Appends the eight bytes that stand for the date and time.
    pub fn write_to(&self, dest: &mut Vec<u8>)
        ensures
            final(dest)@ == old(dest)@ + self.encoding(),
    {
        let day = i32_le_bytes(self.date.to_julian_day_number());
        let time = i32_le_bytes(self.time.to_time_word());
        dest.extend_from_slice(&day);
        dest.extend_from_slice(&time);
        assert(final(dest)@ =~= old(dest)@ + self.encoding());
    }
}

/// For a word that is not negative the fields are plain quotients.
pub proof fn lemma_time_of_word(word: int)
    requires
        0 <= word <= i32::MAX,
    ensures
        Time::of_word(word).hours == word / 3_600_000,
        Time::of_word(word).minutes == (word % 3_600_000) / 60_000,
        Time::of_word(word).seconds == ((word % 3_600_000) % 60_000) / 1_000,
{
}

/// A time with minutes and seconds below sixty is the time of its
/// milliseconds.
pub proof fn lemma_time_of_milliseconds(t: Time)
    requires
        t.minutes < 60,
        t.seconds < 60,
    ensures
        Time::of_word(t.milliseconds()) == t,
{
    let ms = t.milliseconds();
    let past_hour = t.minutes * 60_000 + t.seconds * 1_000;
    lemma_quotient_and_rest(ms, 3_600_000, t.hours as int, past_hour);
    lemma_quotient_and_rest(past_hour, 60_000, t.minutes as int, t.seconds * 1_000);
    lemma_quotient_and_rest(t.seconds * 1_000, 1_000, t.seconds as int, 0);
    assert(trunc_div(ms, 3_600_000) == t.hours);
    assert(trunc_rem(ms, 3_600_000) == past_hour);
    assert(trunc_div(past_hour, 60_000) == t.minutes);
    assert(trunc_rem(past_hour, 60_000) == t.seconds * 1_000);
}

/// A calendar date from 1900 to 2155 with a time of day, written and read
/// back, is the same date and time.
pub proof fn lemma_date_time_round_trip(dt: DateTime)
    requires
        dt.date.is_calendar_date(),
        dt.time.hours < 24,
        dt.time.minutes < 60,
        dt.time.seconds < 60,
    ensures
        dt.encoding().len() == 8,
        DateTime::decode(dt.encoding()) == dt,
{
    lemma_julian_day_round_trip(dt.date);
    lemma_time_of_milliseconds(dt.time);
    let jdn = dt.date.julian_day_number();
    let ms = dt.time.milliseconds();
    assert(0 <= ms < 86_400_000);
    assert(low_i32(ms) as int == ms);
    lemma_two_words(jdn, ms);
}

/// Two signed 32-bit numbers written one after the other read back, the
/// first from the start and the second four bytes on.
proof fn lemma_two_words(first: int, second: int)
    requires
        -0x8000_0000 <= first < 0x8000_0000,
        -0x8000_0000 <= second < 0x8000_0000,
    ensures
        ({
            let bytes = u32_le(unsigned32(first)) + u32_le(unsigned32(second));
            &&& bytes.len() == 8
            &&& signed32(le_u32(bytes)) == first
            &&& signed32(le_u32(bytes.skip(4))) == second
        }),
{
    lemma_signed32_round_trip(first);
    lemma_signed32_round_trip(second);
    let head = u32_le(unsigned32(first));
    let tail = u32_le(unsigned32(second));
    let bytes = head + tail;
    assert(le_u32(bytes) == le_u32(head));
    assert(bytes.skip(4) =~= tail);
}

} // verus!
