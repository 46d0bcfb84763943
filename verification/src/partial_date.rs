//! A year, a month or a day, and the period of days that it covers.

use vstd::prelude::*;
use crate::date::Date;
use crate::date::Period;
use crate::text::all_digits;
use crate::text::chars_of;
use crate::text::digits_value;
use crate::text::parse_unsigned;
use crate::text::unsigned_number;

verus! {

/// A date of which the day, or the month and the day, may be left open.
#[derive(Clone, Copy, Debug, PartialEq, Eq, Structural)]
pub enum PartialDate {
    Year { year: u16 },
    Month { year: u16, month: u8 },
    Day { year: u16, month: u8, day: u8 },
}

/// Whether `year` is a leap year of the Gregorian calendar.
pub open spec fn is_leap_year(year: u16) -> bool {
    year % 4 == 0 && (year % 100 != 0 || year % 400 == 0)
}

/// The number of days of the month `month` of the year `year`.
pub open spec fn days_in_month(year: u16, month: u8) -> u8 {
    if month == 2 {
        if is_leap_year(year) {
            29
        } else {
            28
        }
    } else if month == 4 || month == 6 || month == 9 || month == 11 {
        30
    } else {
        31
    }
}

/// The number of days of the month `month` of the year `year`.
pub fn month_length(year: u16, month: u8) -> (days: u8)
    ensures
        days == days_in_month(year, month),
{
    if month == 2 {
        if year % 4 == 0 && (year % 100 != 0 || year % 400 == 0) {
            29
        } else {
            28
        }
    } else if month == 4 || month == 6 || month == 9 || month == 11 {
        30
    } else {
        31
    }
}

/// Whether the date is a day of the calendar, in a year of at most four digits.
pub open spec fn is_calendar_day(date: Date) -> bool {
    &&& date.year <= 9999
    &&& 1 <= date.month <= 12
    &&& 1 <= date.day <= days_in_month(date.year, date.month)
}

/// The first day of the month after the month `month` of the year `year`.
pub open spec fn month_after(year: u16, month: u8) -> Date {
    if month >= 12 {
        Date { year: (year + 1) as u16, month: 1, day: 1 }
    } else {
        Date { year, month: (month + 1) as u8, day: 1 }
    }
}

/// The day after `date`.
pub open spec fn day_after(date: Date) -> Date {
    if date.day >= days_in_month(date.year, date.month) {
        month_after(date.year, date.month)
    } else {
        Date { day: (date.day + 1) as u8, ..date }
    }
}

impl PartialDate {
    /// Whether the date names a year of at most four digits and, as far as
    /// it is given, a month and a day of the calendar.
    pub open spec fn wf(self) -> bool {
        match self {
            PartialDate::Year { year } => year <= 9999,
            PartialDate::Month { year, month } => year <= 9999 && 1 <= month <= 12,
            PartialDate::Day { year, month, day } => is_calendar_day(Date { year, month, day }),
        }
    }

    /// The period that the date covers: the year, the month or the day.
    pub open spec fn spec_range(self) -> Period {
        match self {
            PartialDate::Year { year } => Period {
                start: Date { year, month: 1, day: 1 },
                end: Date { year: (year + 1) as u16, month: 1, day: 1 },
            },
            PartialDate::Month { year, month } => Period {
                start: Date { year, month, day: 1 },
                end: month_after(year, month),
            },
            PartialDate::Day { year, month, day } => Period {
                start: Date { year, month, day },
                end: day_after(Date { year, month, day }),
            },
        }
    }

    /// The period that the date covers.
    pub fn as_range(self) -> (period: Period)
        requires
            self.wf(),
        ensures
            period == self.spec_range(),
            period.start.rank() < period.end.rank(),
    {
        match self {
            PartialDate::Year { year } => Period {
                start: Date { year, month: 1, day: 1 },
                end: Date { year: year + 1, month: 1, day: 1 },
            },
            PartialDate::Month { year, month } => Period {
                start: Date { year, month, day: 1 },
                end: first_of_next_month(year, month),
            },
            PartialDate::Day { year, month, day } => {
                let end = if day >= month_length(year, month) {
                    first_of_next_month(year, month)
                } else {
                    Date { year, month, day: day + 1 }
                };
                Period { start: Date { year, month, day }, end }
            },
        }
    }

    /// The date that `text` writes as `YYYY`, `YYYY-MM` or `YYYY-MM-DD`, where
    /// the month and the day that it names are of the calendar.
    pub open spec fn spec_parse(text: Seq<char>) -> Option<PartialDate> {
        if text.len() == 4 && all_digits(text) {
            Some(PartialDate::Year { year: digits_value(text) as u16 })
        } else if text.len() == 7 && all_digits(text.take(4)) && text[4] == '-' && all_digits(
            text.skip(5),
        ) {
            let year = digits_value(text.take(4));
            let month = digits_value(text.skip(5));
            if 1 <= month <= 12 {
                Some(PartialDate::Month { year: year as u16, month: month as u8 })
            } else {
                None
            }
        } else if text.len() == 10 && all_digits(text.take(4)) && text[4] == '-' && all_digits(
            text.subrange(5, 7),
        ) && text[7] == '-' && all_digits(text.skip(8)) {
            let year = digits_value(text.take(4));
            let month = digits_value(text.subrange(5, 7));
            let day = digits_value(text.skip(8));
            if 1 <= month <= 12 && 1 <= day <= days_in_month(year as u16, month as u8) {
                Some(PartialDate::Day { year: year as u16, month: month as u8, day: day as u8 })
            } else {
                None
            }
        } else {
            None
        }
    }

    /// Reads a date written as `YYYY`, `YYYY-MM` or `YYYY-MM-DD`.
    pub fn parse(text: &str) -> (date: Option<PartialDate>)
        ensures
            date == Self::spec_parse(text@),
            date matches Some(date) ==> date.wf(),
    {
        let chars = chars_of(text);
        let len = chars.len();
        if len != 4 && len != 7 && len != 10 {
            return None;
        }
        let year = match digits(&chars, 0, 4) {
            Some(year) => year,
            None => {
                return None;
            },
        };
        proof {
            assert(chars@.subrange(0, 4) == chars@.take(4));
            if len == 4 {
                assert(chars@.take(4) == chars@);
            }
        }
        if len == 4 {
            return Some(PartialDate::Year { year: year as u16 });
        }
        if chars[4] != '-' {
            return None;
        }
        let month = match digits(&chars, 5, 7) {
            Some(month) => month,
            None => {
                return None;
            },
        };
        proof {
            if len == 7 {
                assert(chars@.subrange(5, 7) == chars@.skip(5));
            }
        }
        if len == 7 {
            if 1 <= month && month <= 12 {
                return Some(PartialDate::Month { year: year as u16, month: month as u8 });
            }
            return None;
        }
        if chars[7] != '-' {
            return None;
        }
        let day = match digits(&chars, 8, 10) {
            Some(day) => day,
            None => {
                return None;
            },
        };
        proof {
            assert(chars@.subrange(8, 10) == chars@.skip(8));
        }
        if 1 <= month && month <= 12 && 1 <= day && day <= month_length(
            year as u16,
            month as u8,
        ) as u64 {
            return Some(PartialDate::Day { year: year as u16, month: month as u8, day: day as u8 });
        }
        None
    }
}

/// The first day of the month after the month `month` of the year `year`.
fn first_of_next_month(year: u16, month: u8) -> (date: Date)
    requires
        year <= 9999,
        month <= 12,
    ensures
        date == month_after(year, month),
{
    if month >= 12 {
        Date { year: year + 1, month: 1, day: 1 }
    } else {
        Date { year, month: month + 1, day: 1 }
    }
}

/// A row of as many nines as there are digits writes the greatest number of that many digits.
proof fn lemma_digits_bound(digits: Seq<char>)
    requires
        all_digits(digits),
        digits.len() <= 4,
    ensures
        digits_value(digits) <= 9999,
{
    reveal_with_fuel(digits_value, 5);
    if digits.len() > 0 {
        assert(crate::text::is_digit(digits[digits.len() - 1]));
        let a = digits.drop_last();
        if a.len() > 0 {
            assert(crate::text::is_digit(a[a.len() - 1]));
            assert(a[a.len() - 1] == digits[digits.len() - 2]);
            let b = a.drop_last();
            if b.len() > 0 {
                assert(b[b.len() - 1] == digits[digits.len() - 3]);
                assert(crate::text::is_digit(b[b.len() - 1]));
                let c = b.drop_last();
                if c.len() > 0 {
                    assert(c[c.len() - 1] == digits[digits.len() - 4]);
                    assert(crate::text::is_digit(c[c.len() - 1]));
                }
            }
        }
    }
}

/// Reads `chars[from..to]`, at most four characters, as a row of digits.
fn digits(chars: &Vec<char>, from: usize, to: usize) -> (number: Option<u64>)
    requires
        from < to <= chars.len(),
        to - from <= 4,
    ensures
        match number {
            Some(n) => all_digits(chars@.subrange(from as int, to as int)) && n == digits_value(
                chars@.subrange(from as int, to as int),
            ) && n <= 9999,
            None => !all_digits(chars@.subrange(from as int, to as int)),
        },
{
    let ghost text = chars@.subrange(from as int, to as int);
    assert(text[0] == chars@[from as int]);
    if chars[from] == '+' {
        assert(!crate::text::is_digit(text[0]));
        return None;
    }
    proof {
        if all_digits(text) {
            lemma_digits_bound(text);
        }
    }
    parse_unsigned(chars, from, to, 9999)
}

} // verus!
