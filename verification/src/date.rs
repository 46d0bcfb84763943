//! Calendar dates and half-open periods of dates.

use vstd::prelude::*;
use crate::text::padded;
use crate::text::push_padded;

verus! {

/// A calendar date.
#[derive(Clone, Copy, Debug, PartialEq, Eq, Structural)]
pub struct Date {
    pub year: u16,
    pub month: u8,
    pub day: u8,
}

impl Date {
    /// The position of the date in the chronological order of all dates.
    pub open spec fn rank(self) -> int {
        (self.year as int * 256 + self.month as int) * 256 + self.day as int
    }

    /// The date as text: the year in at least four digits, the month and the
    /// day in two, with hyphens between them.
    pub open spec fn spec_text(self) -> Seq<char> {
        padded(self.year as nat, 4) + seq!['-'] + padded(self.month as nat, 2) + seq!['-'] + padded(
            self.day as nat,
            2,
        )
    }

    /// The date as text, as in `2024-01-31`.
    pub fn text(self) -> (text: String)
        ensures
            text@ == self.spec_text(),
    {
        let mut text = String::new();
        push_padded(&mut text, self.year as u64, 4);
        text.push('-');
        push_padded(&mut text, self.month as u64, 2);
        text.push('-');
        push_padded(&mut text, self.day as u64, 2);
        assert(text@ == self.spec_text());
        text
    }

    /// Whether `self` comes strictly before `other`.
    pub open spec fn spec_before(self, other: Date) -> bool {
        self.rank() < other.rank()
    }

    /// Whether `self` comes strictly before `other`.
    #[verifier::when_used_as_spec(spec_before)]
    pub fn before(self, other: Date) -> (result: bool)
        ensures
            result == self.spec_before(other),
    {
        if self.year != other.year {
            self.year < other.year
        } else if self.month != other.month {
            self.month < other.month
        } else {
            self.day < other.day
        }
    }
}

/// Dates are ordered by year, then month, then day, and two dates of equal rank are equal.
pub proof fn lemma_rank_orders_dates(a: Date, b: Date)
    ensures
        a.rank() == b.rank() <==> a == b,
        a.rank() < b.rank() <==> (a.year < b.year || (a.year == b.year && (a.month < b.month || (
            a.month == b.month && a.day < b.day)))),
{
}

/// A half-open range of dates: `start` belongs to it, `end` does not.
#[derive(Clone, Copy, Debug, PartialEq, Eq, Structural)]
pub struct Period {
    pub start: Date,
    pub end: Date,
}

impl Period {
    /// Whether `date` lies in the period.
    pub open spec fn spec_contains(self, date: Date) -> bool {
        self.start.rank() <= date.rank() < self.end.rank()
    }

    /// Whether `date` lies in the period.
    #[verifier::when_used_as_spec(spec_contains)]
    pub fn contains(self, date: Date) -> (result: bool)
        ensures
            result == self.spec_contains(date),
    {
        !date.before(self.start) && date.before(self.end)
    }
}

} // verus!
