//! Money arithmetic and display. Every amount in the ledger is a whole number
//! of cents held in an `i64`, so sums and comparisons are exact: the rounding
//! policy (half-up, applied once at the point of computation) is the only
//! place where anything is rounded, and the comparison epsilon is zero.

use vstd::prelude::*;

use crate::strings::{
    chars_to_string, decimal_chars, push_chars, repeat_char, spec_dec_digits, spec_digit_char,
    spec_padded_digits, str_to_chars,
};

verus! {

/// Upper bound on a single line-item amount and on an invoice subtotal,
/// in cents. Totals stay below `2 * MAX_AMOUNT_CENTS` even with 100% tax.
pub const MAX_AMOUNT_CENTS: i64 = 500_000_000_000_000;

/// Upper bound on any amount stored in the ledger, in cents.
pub const MAX_TOTAL_CENTS: i64 = 1_000_000_000_000_000;

/// Upper bound on a catalog rate, in cents per unit.
pub const MAX_RATE_CENTS: i64 = 1_000_000_000;

/// Upper bound on a line-item quantity, in thousandths of a unit.
pub const MAX_QTY_MILS: i64 = 1_000_000_000;

/// Half-up rounding of the quotient `n / d`, for non-negative `n`.
pub open spec fn spec_round_half_up(n: int, d: int) -> int {
    (n + d / 2) / d
}

/// Divide `n` by `d`, rounding half-up.
pub fn round_half_up(n: i64, d: i64) -> (r: i64)
    requires
        0 <= n,
        0 < d,
        n + d / 2 <= i64::MAX,
    ensures
        r == spec_round_half_up(n as int, d as int),
{
    (n + d / 2) / d
}

/// Digits grouped in threes from the right with `','` between groups.
pub open spec fn spec_grouped(ds: Seq<char>) -> Seq<char>
    decreases ds.len(),
{
    if ds.len() <= 3 {
        ds
    } else {
        spec_grouped(ds.take(ds.len() - 3)) + seq![','] + ds.skip(ds.len() - 3)
    }
}

/// The magnitude of `v`, as a mathematical integer.
pub open spec fn spec_abs(v: int) -> int {
    if v < 0 {
        -v
    } else {
        v
    }
}

/// The decimal rendering of `v` with thousands separators and a leading
/// sign for negative values.
pub open spec fn spec_grouped_int(v: int) -> Seq<char> {
    if v < 0 {
        seq!['-'] + spec_grouped(spec_dec_digits(spec_abs(v) as nat))
    } else {
        spec_grouped(spec_dec_digits(v as nat))
    }
}

/// The first `upto` digits of `ds`, grouped in threes from the right.
fn grouped_prefix(ds: &Vec<char>, upto: usize) -> (v: Vec<char>)
    requires
        upto <= ds@.len(),
    ensures
        v@ == spec_grouped(ds@.take(upto as int)),
    decreases upto,
{
    if upto <= 3 {
        let mut v: Vec<char> = Vec::new();
        let mut i: usize = 0;
        while i < upto
            invariant
                i <= upto <= ds@.len(),
                v@ == ds@.take(upto as int).take(i as int),
            decreases upto - i,
        {
            v.push(ds[i]);
            proof {
                assert(ds@.take(upto as int).take(i + 1) =~= ds@.take(upto as int).take(
                    i as int,
                ).push(ds@[i as int]));
            }
            i = i + 1;
        }
        proof {
            assert(ds@.take(upto as int).take(upto as int) =~= ds@.take(upto as int));
        }
        v
    } else {
        let mut v = grouped_prefix(ds, upto - 3);
        v.push(',');
        v.push(ds[upto - 3]);
        v.push(ds[upto - 2]);
        v.push(ds[upto - 1]);
        proof {
            let whole = ds@.take(upto as int);
            assert(whole.take(whole.len() - 3) =~= ds@.take(upto - 3));
            assert(whole.skip(whole.len() - 3) =~= seq![
                ds@[upto - 3],
                ds@[upto - 2],
                ds@[upto - 1],
            ]);
            assert(v@ =~= spec_grouped(whole.take(whole.len() - 3)) + seq![','] + whole.skip(
                whole.len() - 3,
            ));
        }
        v
    }
}

/// The magnitude of `value` as a `u64`.
fn abs_u64(value: i64) -> (r: u64)
    ensures
        r == spec_abs(value as int),
{
    if value < 0 {
        if value == i64::MIN {
            9223372036854775808u64
        } else {
            (-value) as u64
        }
    } else {
        value as u64
    }
}

/// The grouped digits of `value`, with a leading `'-'` when negative.
pub fn grouped_int_chars(value: i64) -> (v: Vec<char>)
    ensures
        v@ == spec_grouped_int(value as int),
{
    let mag = abs_u64(value);
    let ds = decimal_chars(mag);
    proof {
        assert(ds@.take(ds@.len() as int) =~= ds@);
    }
    let grouped = grouped_prefix(&ds, ds.len());
    if value < 0 {
        let mut v: Vec<char> = Vec::new();
        v.push('-');
        push_chars(&mut v, &grouped);
        proof {
            assert(v@ =~= seq!['-'] + grouped@);
        }
        v
    } else {
        grouped
    }
}

/// Inserts a `','` every three digits from the right, preserving a leading
/// sign; used only for display.
pub fn format_grouped_int(value: i64) -> (s: String)
    ensures
        s@ == spec_grouped_int(value as int),
{
    let v = grouped_int_chars(value);
    chars_to_string(&v)
}

/// `cents` rounded to whole currency units, halves away from zero.
pub open spec fn spec_whole_units(cents: int) -> int {
    if cents < 0 {
        -spec_round_half_up(-cents, 100)
    } else {
        spec_round_half_up(cents, 100)
    }
}

/// The display form `symbol` + grouped whole units right-aligned to width 6.
pub open spec fn spec_whole_money(cents: int, symbol: Seq<char>) -> Seq<char> {
    let grouped = spec_grouped_int(spec_whole_units(cents));
    if grouped.len() < 6 {
        symbol + Seq::new((6 - grouped.len()) as nat, |i: int| ' ') + grouped
    } else {
        symbol + grouped
    }
}

/// Formats `cents` as whole currency units, grouped, right-aligned to width
/// 6 after the currency symbol.
pub fn format_whole_money(cents: i64, currency_symbol: &str) -> (s: String)
    ensures
        s@ == spec_whole_money(cents as int, currency_symbol@),
{
    let mag = abs_u64(cents);
    let units_mag = (mag + 50) / 100;
    let units: i64 = if cents < 0 {
        -((units_mag) as i64)
    } else {
        units_mag as i64
    };
    proof {
        assert(units == spec_whole_units(cents as int));
    }
    let grouped = grouped_int_chars(units);
    let mut v = str_to_chars(currency_symbol);
    if grouped.len() < 6 {
        let pad = repeat_char(' ', 6 - grouped.len());
        push_chars(&mut v, &pad);
        push_chars(&mut v, &grouped);
        proof {
            assert(v@ =~= currency_symbol@ + Seq::new((6 - grouped@.len()) as nat, |i: int| ' ')
                + grouped@);
        }
    } else {
        push_chars(&mut v, &grouped);
    }
    chars_to_string(&v)
}

/// The display form of `cents` with two decimal places, no grouping, and a
/// leading sign for negative values.
pub open spec fn spec_cents_plain(cents: int) -> Seq<char> {
    let sign: Seq<char> = if cents < 0 {
        seq!['-']
    } else {
        Seq::<char>::empty()
    };
    sign + spec_dec_digits((spec_abs(cents) / 100) as nat) + seq!['.'] + spec_padded_digits(
        (spec_abs(cents) % 100) as nat,
        2,
    )
}

/// The display form of `cents` with two decimal places and thousands
/// separators in the whole part.
pub open spec fn spec_cents_grouped(cents: int) -> Seq<char> {
    let sign: Seq<char> = if cents < 0 {
        seq!['-']
    } else {
        Seq::<char>::empty()
    };
    sign + spec_grouped(spec_dec_digits((spec_abs(cents) / 100) as nat)) + seq![
        '.',
    ] + spec_padded_digits((spec_abs(cents) % 100) as nat, 2)
}

/// The fractional part of `cents`, zero-padded to two digits.
fn frac_chars(mag: u64) -> (v: Vec<char>)
    ensures
        v@ == seq!['.'] + spec_padded_digits((mag % 100) as nat, 2),
{
    let mut v: Vec<char> = Vec::new();
    v.push('.');
    let frac = crate::strings::padded_decimal_chars(mag % 100, 2);
    push_chars(&mut v, &frac);
    proof {
        assert(v@ =~= seq!['.'] + spec_padded_digits((mag % 100) as nat, 2));
    }
    v
}

/// Formats `cents` with two decimal places, e.g. for payment amounts.
pub fn format_cents_plain(cents: i64) -> (s: String)
    ensures
        s@ == spec_cents_plain(cents as int),
{
    let mag = abs_u64(cents);
    let mut v: Vec<char> = Vec::new();
    if cents < 0 {
        v.push('-');
    }
    let whole = decimal_chars(mag / 100);
    push_chars(&mut v, &whole);
    let frac = frac_chars(mag);
    push_chars(&mut v, &frac);
    proof {
        assert(v@ =~= spec_cents_plain(cents as int));
    }
    chars_to_string(&v)
}

/// Formats `cents` with two decimal places and thousands separators in the
/// whole part.
pub fn format_report_amount(cents: i64) -> (s: String)
    ensures
        s@ == spec_cents_grouped(cents as int),
{
    let mag = abs_u64(cents);
    let mut v: Vec<char> = Vec::new();
    if cents < 0 {
        v.push('-');
    }
    let ds = decimal_chars(mag / 100);
    proof {
        assert(ds@.take(ds@.len() as int) =~= ds@);
    }
    let whole = grouped_prefix(&ds, ds.len());
    push_chars(&mut v, &whole);
    let frac = frac_chars(mag);
    push_chars(&mut v, &frac);
    proof {
        assert(v@ =~= spec_cents_grouped(cents as int));
    }
    chars_to_string(&v)
}

} // verus!
