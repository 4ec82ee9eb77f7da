//! Calendar dates as the ledger stores them.
//!
//! A snapshot's date comes in as a `YYYY-MM-DD` string; parsing it is the
//! job of an outside date library, and everything after the parse works on
//! the plain year/month/day triple below.

use vstd::prelude::*;
use chrono::Datelike;

verus! {

/// A calendar date, held as plain year, month and day.
#[derive(Clone, Copy, PartialEq, Eq, Structural, Debug)]
pub struct Date {
    pub year: i32,
    pub month: u8,
    pub day: u8,
}

/// The year/month/day triple that the outside date parser yields for a
/// string, or `None` when the string is not a date it accepts.
pub uninterp spec fn date_of(s: Seq<char>) -> Option<(int, int, int)>;

/// Relies on chrono's `FromStr` for `NaiveDate`, which parses the
/// `%Y-%m-%d` format, and on its `Datelike` accessors: the result depends
/// on the characters of the string alone, and a parsed date is a valid
/// calendar date, so its month is 1..=12 and its day 1..=31.
#[verifier::external_body]
pub(crate) fn parse_ymd(s: &str) -> (r: Option<Date>)
    ensures
        match r {
            Some(d) => date_of(s@) == Some((d.year as int, d.month as int, d.day as int))
                && 1 <= d.month <= 12 && 1 <= d.day <= 31,
            None => date_of(s@) is None,
        },
{
    match s.parse::<chrono::NaiveDate>() {
        Ok(d) => Some(Date { year: d.year(), month: d.month() as u8, day: d.day() as u8 }),
        Err(_) => None,
    }
}

impl Date {
    /// A date whose month and day lie in their calendar ranges.
    pub open spec fn wf(self) -> bool {
        1 <= self.month <= 12 && 1 <= self.day <= 31
    }

    /// Strict calendar order: year first, then month, then day.
    pub open spec fn spec_before(self, other: Date) -> bool {
        self.year < other.year
            || (self.year == other.year && self.month < other.month)
            || (self.year == other.year && self.month == other.month && self.day < other.day)
    }

    /// Whether this date falls strictly before `other`.
    pub fn before(&self, other: &Date) -> (r: bool)
        ensures
            r == self.spec_before(*other),
    {
        self.year < other.year
            || (self.year == other.year && self.month < other.month)
            || (self.year == other.year && self.month == other.month && self.day < other.day)
    }
}

/// Calendar order is a strict total order: exactly one of `a` before `b`,
/// `b` before `a`, or `a == b` holds, and the order is transitive.
pub proof fn lemma_before_total(a: Date, b: Date, c: Date)
    ensures
        a.spec_before(b) || b.spec_before(a) || a == b,
        !(a.spec_before(b) && b.spec_before(a)),
        a.spec_before(b) ==> !(a == b),
        a.spec_before(b) && b.spec_before(c) ==> a.spec_before(c),
{
}

} // verus!
