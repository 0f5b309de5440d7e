//! Calendar dates and day-times, ordered chronologically.
//!
//! A date is a plain (year, month, day) triple; a day-time adds the second
//! of the day. Comparisons are lexicographic, which for well-formed values
//! coincides with chronological order.

use vstd::prelude::*;

verus! {

/// A calendar date.
#[derive(Clone, Copy, Debug, PartialEq, Eq, Structural)]
pub struct Date {
    pub year: i32,
    pub month: u32,
    pub day: u32,
}

impl Date {
    /// A well-formed date has a month and day in calendar range.
    pub open spec fn wf(self) -> bool {
        1 <= self.month <= 12 && 1 <= self.day <= 31
    }

    /// A single integer that orders dates chronologically.
    pub open spec fn key(self) -> int {
        self.year * 10000 + self.month * 100 + self.day
    }

    pub fn new(year: i32, month: u32, day: u32) -> (r: Date)
        requires
            1 <= month <= 12,
            1 <= day <= 31,
        ensures
            r == (Date { year, month, day }),
            r.wf(),
    {
        Date { year, month, day }
    }

    /// Chronological `<=`.
    pub fn le(&self, other: &Date) -> (r: bool)
        requires
            self.wf(),
            other.wf(),
        ensures
            r == (self.key() <= other.key()),
    {
        if self.year != other.year {
            self.year < other.year
        } else if self.month != other.month {
            self.month < other.month
        } else {
            self.day <= other.day
        }
    }

    /// Chronological `<`.
    pub fn lt(&self, other: &Date) -> (r: bool)
        requires
            self.wf(),
            other.wf(),
        ensures
            r == (self.key() < other.key()),
    {
        if self.year != other.year {
            self.year < other.year
        } else if self.month != other.month {
            self.month < other.month
        } else {
            self.day < other.day
        }
    }
}

/// A date with a time of day, as used by price records.
#[derive(Clone, Copy, Debug, PartialEq, Eq, Structural)]
pub struct DateTime {
    pub date: Date,
    /// Second of the day.
    pub seconds: u32,
}

impl DateTime {
    pub open spec fn wf(self) -> bool {
        self.date.wf() && self.seconds < 86400
    }

    /// A single integer that orders day-times chronologically.
    pub open spec fn key(self) -> int {
        self.date.key() * 100000 + self.seconds
    }

    /// The day-time at the very start of a date.
    pub fn midnight(date: Date) -> (r: DateTime)
        ensures
            r.date == date,
            r.seconds == 0,
    {
        DateTime { date, seconds: 0 }
    }

    /// Chronological `<=`.
    pub fn le(&self, other: &DateTime) -> (r: bool)
        requires
            self.wf(),
            other.wf(),
        ensures
            r == (self.key() <= other.key()),
    {
        proof {
            lemma_datetime_key_order(*self, *other);
        }
        if self.date != other.date {
            self.date.lt(&other.date)
        } else {
            self.seconds <= other.seconds
        }
    }
}

/// Date order dominates the day-time key.
proof fn lemma_datetime_key_order(a: DateTime, b: DateTime)
    requires
        a.wf(),
        b.wf(),
    ensures
        a.date.key() < b.date.key() ==> a.key() < b.key(),
        a.date.key() == b.date.key() ==> (a.key() <= b.key() <==> a.seconds <= b.seconds),
        a.date.key() > b.date.key() ==> a.key() > b.key(),
{
    if a.date.key() < b.date.key() {
        assert(a.date.key() * 100000 + 100000 <= b.date.key() * 100000) by (nonlinear_arith)
            requires
                a.date.key() < b.date.key(),
        ;
    }
    if a.date.key() > b.date.key() {
        assert(b.date.key() * 100000 + 100000 <= a.date.key() * 100000) by (nonlinear_arith)
            requires
                b.date.key() < a.date.key(),
        ;
    }
}

} // verus!
