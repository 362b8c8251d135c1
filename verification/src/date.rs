//! Calendar dates as plain year/month/day values. The ledger never does
//! calendar arithmetic; it only stores dates, compares them for report
//! filters, and renders them in ISO `YYYY-MM-DD` form.

use vstd::prelude::*;

use crate::strings::{chars_to_string, padded_decimal_chars, push_chars, spec_padded_digits};

verus! {

/// A calendar date.
#[derive(Clone, Copy, Debug, PartialEq, Eq, Structural)]
pub struct Date {
    pub year: u32,
    pub month: u32,
    pub day: u32,
}

impl Date {
    /// A plausible calendar date; the ledger does not validate month lengths.
    pub open spec fn valid(self) -> bool {
        1 <= self.month <= 12 && 1 <= self.day <= 31 && self.year <= 9999
    }

    /// Chronological order, never later than.
    pub open spec fn spec_le(self, other: Date) -> bool {
        if self.year != other.year {
            self.year < other.year
        } else if self.month != other.month {
            self.month < other.month
        } else {
            self.day <= other.day
        }
    }

    /// Whether `self` is on or before `other`.
    pub fn le(&self, other: &Date) -> (r: bool)
        ensures
            r == self.spec_le(*other),
    {
        if self.year != other.year {
            self.year < other.year
        } else if self.month != other.month {
            self.month < other.month
        } else {
            self.day <= other.day
        }
    }

    /// The ISO rendering `YYYY-MM-DD` of a date.
    pub open spec fn spec_iso(self) -> Seq<char> {
        spec_padded_digits(self.year as nat, 4) + seq!['-'] + spec_padded_digits(
            self.month as nat,
            2,
        ) + seq!['-'] + spec_padded_digits(self.day as nat, 2)
    }

    /// Renders the date as `YYYY-MM-DD`.
    pub fn to_iso_string(&self) -> (s: String)
        ensures
            s@ == self.spec_iso(),
    {
        let mut v = padded_decimal_chars(self.year as u64, 4);
        v.push('-');
        let m = padded_decimal_chars(self.month as u64, 2);
        push_chars(&mut v, &m);
        v.push('-');
        let d = padded_decimal_chars(self.day as u64, 2);
        push_chars(&mut v, &d);
        proof {
            assert(v@ =~= self.spec_iso());
        }
        chars_to_string(&v)
    }
}

} // verus!
