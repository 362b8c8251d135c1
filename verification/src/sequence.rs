//! The sequence allocator: the next invoice number for a calendar year, and
//! the rendering of that number through the configured template.

use vstd::prelude::*;

use crate::state::Counter;
use crate::strings::{
    chars_to_string, padded_decimal_chars, replace_chars, spec_dec_digits, spec_padded_digits,
    spec_replaced, str_to_chars, u64_to_string,
};

verus! {

/// The next sequence number: one more than the last within the same year, or
/// back to 1 when the calendar year has changed.
pub open spec fn spec_next_seq(c: Counter, current_year: u32) -> int {
    if c.last_year == current_year {
        c.last_number + 1
    } else {
        1
    }
}

/// Computes the next sequence number for the current year without mutating
/// the counter; the caller commits it together with the new entry.
pub fn next_seq(counter: &Counter, current_year: u32) -> (n: u32)
    requires
        counter.last_year == current_year ==> counter.last_number < u32::MAX,
    ensures
        n == spec_next_seq(*counter, current_year),
{
    if counter.last_year == current_year {
        counter.last_number + 1
    } else {
        1
    }
}

/// The counter as committed after issuing sequence number `n` in
/// `current_year`.
pub open spec fn spec_committed(current_year: u32, n: u32) -> Counter {
    Counter { last_number: n, last_year: current_year }
}

/// Law: within one calendar year the allocator never repeats — each
/// allocation committed to the counter makes the next one strictly larger —
/// and a year change resets the sequence to 1 no matter how high the counter
/// stood.
pub proof fn lemma_sequence_allocation(c: Counter, year: u32, n: u32, later_year: u32)
    requires
        n == spec_next_seq(c, year),
    ensures
        c.last_year == year ==> n == c.last_number + 1 > c.last_number,
        c.last_year != year ==> n == 1,
        spec_next_seq(spec_committed(year, n), year) == n + 1 > n,
        later_year != year ==> spec_next_seq(spec_committed(year, n), later_year) == 1,
{
}

/// The invoice number template with `{year}`, `{seq:04}`, `{seq:05}` and
/// `{seq:03}` substituted, in that order; unrecognized tokens pass through
/// unchanged.
pub open spec fn spec_invoice_number(format: Seq<char>, year: u32, seq_num: u32) -> Seq<char> {
    let step1 = spec_replaced(format, "{year}"@, spec_dec_digits(year as nat));
    let step2 = spec_replaced(step1, "{seq:04}"@, spec_padded_digits(seq_num as nat, 4));
    let step3 = spec_replaced(step2, "{seq:05}"@, spec_padded_digits(seq_num as nat, 5));
    spec_replaced(step3, "{seq:03}"@, spec_padded_digits(seq_num as nat, 3))
}

/// Formats an invoice number from the configured template.
pub fn format_invoice_number(format: &str, year: u32, seq_num: u32) -> (s: String)
    ensures
        s@ == spec_invoice_number(format@, year, seq_num),
{
    let chars = str_to_chars(format);
    let year_str = u64_to_string(year as u64);
    let year_chars = str_to_chars(year_str.as_str());
    let pat_year = str_to_chars("{year}");
    proof {
        reveal_strlit("{year}");
        reveal_strlit("{seq:04}");
        reveal_strlit("{seq:05}");
        reveal_strlit("{seq:03}");
    }
    let step1 = replace_chars(&chars, &pat_year, &year_chars);
    let pad4 = padded_decimal_chars(seq_num as u64, 4);
    let pat4 = str_to_chars("{seq:04}");
    let step2 = replace_chars(&step1, &pat4, &pad4);
    let pad5 = padded_decimal_chars(seq_num as u64, 5);
    let pat5 = str_to_chars("{seq:05}");
    let step3 = replace_chars(&step2, &pat5, &pad5);
    let pad3 = padded_decimal_chars(seq_num as u64, 3);
    let pat3 = str_to_chars("{seq:03}");
    let step4 = replace_chars(&step3, &pat3, &pad3);
    chars_to_string(&step4)
}

/// Allocates the next sequence number and renders the invoice number for it,
/// without mutating the counter.
pub fn next_invoice_number(counter: &Counter, current_year: u32, format: &str) -> (r: (
    u32,
    String,
))
    requires
        counter.last_year == current_year ==> counter.last_number < u32::MAX,
    ensures
        r.0 == spec_next_seq(*counter, current_year),
        r.1@ == spec_invoice_number(format@, current_year, r.0),
{
    let n = next_seq(counter, current_year);
    let formatted = format_invoice_number(format, current_year, n);
    (n, formatted)
}

} // verus!
