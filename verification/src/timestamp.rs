use crate::claim_path::decimal_value;
use crate::claim_path::is_digit;
use crate::claim_path::read_index;
use crate::text::chars_of;
use vstd::prelude::*;

verus! {

/// Whether `year` of the Gregorian calendar is a leap year.
pub open spec fn is_leap(year: int) -> bool {
    year % 4 == 0 && (year % 100 != 0 || year % 400 == 0)
}

/// The number of days of `year`.
pub open spec fn days_in_year(year: int) -> int {
    if is_leap(year) {
        366
    } else {
        365
    }
}

/// The number of days of `month` of `year`, January being 1.
pub open spec fn days_in_month(year: int, month: int) -> int {
    if month == 2 {
        if is_leap(year) {
            29
        } else {
            28
        }
    } else if month == 4 || month == 6 || month == 9 || month == 11 {
        30
    } else {
        31
    }
}

/// The number of days from the first day of 1970 to the first day of
/// `year`: negative for the years before.
pub open spec fn days_to_year(year: int) -> int
    decreases
            (if year >= 1970 {
                year - 1970
            } else {
                1970 - year
            }),
{
    if year == 1970 {
        0
    } else if year > 1970 {
        days_to_year(year - 1) + days_in_year(year - 1)
    } else {
        days_to_year(year + 1) - days_in_year(year)
    }
}

/// The number of days from the first day of `year` to the first day of its
/// `month`.
pub open spec fn days_to_month(year: int, month: int) -> int
    decreases month,
{
    if month <= 1 {
        0
    } else {
        days_to_month(year, month - 1) + days_in_month(year, month - 1)
    }
}

/// A date and a time of day in UTC, field by field.
pub struct CivilTime {
    pub year: int,
    pub month: int,
    pub day: int,
    pub hour: int,
    pub minute: int,
    pub second: int,
}

impl CivilTime {
    /// Whether the fields name a day of the calendar and a second of the
    /// day.
    pub open spec fn is_valid(self) -> bool {
        &&& 0 <= self.year <= 9999
        &&& 1 <= self.month <= 12
        &&& 1 <= self.day <= days_in_month(self.year, self.month)
        &&& 0 <= self.hour < 24
        &&& 0 <= self.minute < 60
        &&& 0 <= self.second < 60
    }

    /// The seconds from the start of 1970 to this time.
    pub open spec fn seconds(self) -> int {
        (days_to_year(self.year) + days_to_month(self.year, self.month) + self.day - 1) * 86400
            + self.hour * 3600 + self.minute * 60 + self.second
    }
}

/// Whether the `count` characters of `s` from `from` on are decimal digits.
pub open spec fn are_digits(s: Seq<char>, from: int, count: int) -> bool {
    forall|i: int| from <= i < from + count ==> is_digit(#[trigger] s[i])
}

/// The number that the `count` digits of `s` from `from` on write.
pub open spec fn field(s: Seq<char>, from: int, count: int) -> int {
    decimal_value(s.subrange(from, from + count)) as int
}

/// The fields of a timestamp `YYYY-MM-DDThh:mm:ssZ`, where `s` is of that
/// form.
pub open spec fn civil_of(s: Seq<char>) -> Option<CivilTime> {
    if s.len() == 20 && are_digits(s, 0, 4) && s[4] == '-' && are_digits(s, 5, 2) && s[7] == '-'
        && are_digits(s, 8, 2) && s[10] == 'T' && are_digits(s, 11, 2) && s[13] == ':'
        && are_digits(s, 14, 2) && s[16] == ':' && are_digits(s, 17, 2) && s[19] == 'Z' {
        Some(
            CivilTime {
                year: field(s, 0, 4),
                month: field(s, 5, 2),
                day: field(s, 8, 2),
                hour: field(s, 11, 2),
                minute: field(s, 14, 2),
                second: field(s, 17, 2),
            },
        )
    } else {
        None
    }
}

/// The seconds from the start of 1970 to the time that a timestamp
/// `YYYY-MM-DDThh:mm:ssZ` writes, where it writes a valid one.
pub open spec fn timestamp_of(s: Seq<char>) -> Option<int> {
    match civil_of(s) {
        Some(time) => if time.is_valid() {
            Some(time.seconds())
        } else {
            None
        },
        None => None,
    }
}

/// A year is at most 366 days long, so the first day of a year lies within
/// 366 days for each year that parts it from 1970.
pub proof fn lemma_days_to_year_bounds(year: int)
    ensures
        year >= 1970 ==> 365 * (year - 1970) <= days_to_year(year) <= 366 * (year - 1970),
        year <= 1970 ==> -366 * (1970 - year) <= days_to_year(year) <= -365 * (1970 - year),
    decreases
            (if year >= 1970 {
                year - 1970
            } else {
                1970 - year
            }),
{
    if year > 1970 {
        lemma_days_to_year_bounds(year - 1);
    } else if year < 1970 {
        lemma_days_to_year_bounds(year + 1);
    }
}

/// The first day of a month lies within the first 335 days of its year.
pub proof fn lemma_days_to_month_bounds(year: int, month: int)
    requires
        1 <= month <= 12,
    ensures
        0 <= days_to_month(year, month) <= 31 * (month - 1),
    decreases month,
{
    if month > 1 {
        lemma_days_to_month_bounds(year, month - 1);
    }
}

/// Whether `year` is a leap year.
fn leap(year: u32) -> (yes: bool)
    ensures
        yes == is_leap(year as int),
{
    year % 4 == 0 && (year % 100 != 0 || year % 400 == 0)
}

/// The number of days of `month` of `year`.
fn month_length(year: u32, month: u32) -> (days: i64)
    ensures
        days == days_in_month(year as int, month as int),
{
    if month == 2 {
        if leap(year) {
            29
        } else {
            28
        }
    } else if month == 4 || month == 6 || month == 9 || month == 11 {
        30
    } else {
        31
    }
}

/// The number of days from the first day of 1970 to the first day of `year`.
fn days_before_year(year: u32) -> (days: i64)
    requires
        year <= 9999,
    ensures
        days == days_to_year(year as int),
{
    let mut days: i64 = 0;
    let mut y: u32 = 1970;
    if year >= 1970 {
        while y < year
            invariant
                1970 <= y <= year <= 9999,
                days == days_to_year(y as int),
            decreases year - y,
        {
            proof {
                lemma_days_to_year_bounds(y as int);
            }
            days = days + (if leap(y) {
                366
            } else {
                365
            });
            y = y + 1;
        }
    } else {
        while y > year
            invariant
                year <= y <= 1970,
                days == days_to_year(y as int),
            decreases y,
        {
            proof {
                lemma_days_to_year_bounds(y as int);
            }
            y = y - 1;
            days = days - (if leap(y) {
                366
            } else {
                365
            });
        }
    }
    days
}

/// The number of days from the first day of `year` to the first day of its
/// `month`.
fn days_before_month(year: u32, month: u32) -> (days: i64)
    requires
        1 <= month <= 12,
    ensures
        days == days_to_month(year as int, month as int),
{
    let mut days: i64 = 0;
    let mut m: u32 = 1;
    while m < month
        invariant
            1 <= m <= month <= 12,
            days == days_to_month(year as int, m as int),
        decreases month - m,
    {
        proof {
            lemma_days_to_month_bounds(year as int, m as int);
        }
        days = days + month_length(year, m);
        m = m + 1;
    }
    days
}

/// The value of a string of one to four decimal digits is below ten
/// thousand.
proof fn lemma_short_field(s: Seq<char>)
    requires
        s.len() <= 4,
        forall|i: int| 0 <= i < s.len() ==> is_digit(#[trigger] s[i]),
    ensures
        s.len() == 0 ==> decimal_value(s) == 0,
        s.len() == 1 ==> decimal_value(s) < 10,
        s.len() == 2 ==> decimal_value(s) < 100,
        s.len() == 3 ==> decimal_value(s) < 1000,
        s.len() == 4 ==> decimal_value(s) < 10000,
    decreases s.len(),
{
    if s.len() > 0 {
        lemma_short_field(s.drop_last());
        assert(is_digit(s[s.len() - 1]));
    }
}

/// Reads the `count` digits of `chars` from `from` on.
fn read_field(chars: &Vec<char>, from: usize, count: usize) -> (out: Option<u32>)
    requires
        1 <= count <= 4,
        from + count <= chars.len(),
    ensures
        out is Some == are_digits(chars@, from as int, count as int),
        out matches Some(v) ==> v == field(chars@, from as int, count as int) && v < 10000,
{
    let ghost digits = chars@.subrange(from as int, from + count);
    proof {
        if are_digits(chars@, from as int, count as int) {
            assert forall|i: int| 0 <= i < digits.len() implies is_digit(#[trigger] digits[i]) by {
                assert(digits[i] == chars@[from + i]);
            }
            lemma_short_field(digits);
        }
    }
    match read_index(chars, from, from + count) {
        Some(v) => {
            proof {
                assert forall|i: int| from <= i < from + count implies is_digit(
                    #[trigger] chars@[i],
                ) by {
                    assert(chars@[i] == digits[i - from]);
                }
                lemma_short_field(digits);
            }
            Some(v as u32)
        },
        None => None,
    }
}

/// Reads a timestamp `YYYY-MM-DDThh:mm:ssZ` as seconds from the start of
/// 1970, UTC. Answers `None` where the text is not of that form or names no
/// day of the calendar or no second of the day.
pub fn parse_timestamp(text: &str) -> (out: Option<i64>)
    ensures
        match timestamp_of(text@) {
            Some(seconds) => out == Some(seconds as i64) && i64::MIN <= seconds <= i64::MAX,
            None => out is None,
        },
{
    let chars = chars_of(text);
    if chars.len() != 20 {
        return None;
    }
    if chars[4] != '-' || chars[7] != '-' || chars[10] != 'T' || chars[13] != ':' || chars[16]
        != ':' || chars[19] != 'Z' {
        return None;
    }
    let year = match read_field(&chars, 0, 4) {
        Some(v) => v,
        None => {
            return None;
        },
    };
    let month = match read_field(&chars, 5, 2) {
        Some(v) => v,
        None => {
            return None;
        },
    };
    let day = match read_field(&chars, 8, 2) {
        Some(v) => v,
        None => {
            return None;
        },
    };
    let hour = match read_field(&chars, 11, 2) {
        Some(v) => v,
        None => {
            return None;
        },
    };
    let minute = match read_field(&chars, 14, 2) {
        Some(v) => v,
        None => {
            return None;
        },
    };
    let second = match read_field(&chars, 17, 2) {
        Some(v) => v,
        None => {
            return None;
        },
    };
    if month < 1 || month > 12 || day < 1 || hour >= 24 || minute >= 60 || second >= 60 {
        return None;
    }
    if day as i64 > month_length(year, month) {
        return None;
    }
    proof {
        lemma_days_to_year_bounds(year as int);
        lemma_days_to_month_bounds(year as int, month as int);
    }
    let days = days_before_year(year) + days_before_month(year, month) + (day as i64 - 1);
    Some(days * 86400 + hour as i64 * 3600 + minute as i64 * 60 + second as i64)
}

} // verus!
