//! The invoice resolver: a user-supplied reference is either a 1-based index
//! into the newest-first display order, or a literal invoice number.

use vstd::prelude::*;

use crate::error::InvoiceError;
use crate::state::{HistoryEntry, State};
use crate::strings::{
    lemma_digits_value_nonneg, lemma_digits_value_take_le, lemma_digits_value_take_step,
    spec_digits_value, spec_is_digit, str_eq,
};

verus! {

/// The digits of an unsigned integer literal: everything after one optional
/// leading `'+'`.
pub open spec fn spec_digits_part(s: Seq<char>) -> Seq<char> {
    if s.len() >= 1 && s[0] == '+' {
        s.skip(1)
    } else {
        s
    }
}

/// Whether `s` is an unsigned integer literal as `str::parse` accepts it:
/// an optional `'+'`, then one or more digits.
pub open spec fn spec_is_uint_string(s: Seq<char>) -> bool {
    let d = spec_digits_part(s);
    d.len() >= 1 && forall|i: int| 0 <= i < d.len() ==> spec_is_digit(#[trigger] d[i])
}

/// The number `s` denotes, when it is an unsigned integer literal.
pub open spec fn spec_parsed_index(s: Seq<char>) -> Option<int> {
    if spec_is_uint_string(s) {
        Some(spec_digits_value(spec_digits_part(s)))
    } else {
        None
    }
}

/// Parses a 1-based display index the way `str::parse::<usize>` does: an
/// optional `'+'` and digits, `None` on anything else or on overflow.
pub fn parse_index(s: &str) -> (r: Option<usize>)
    ensures
        match spec_parsed_index(s@) {
            Some(v) => if v <= usize::MAX {
                r == Some(v as usize)
            } else {
                r is None
            },
            None => r is None,
        },
{
    let n = s.unicode_len();
    let start: usize = if n >= 1 && s.get_char(0) == '+' {
        1
    } else {
        0
    };
    if n == start {
        // no digits at all
        proof {
            if start == 1 {
                assert(spec_digits_part(s@) =~= s@.skip(1));
            }
            assert(spec_digits_part(s@).len() == 0);
            assert(!spec_is_uint_string(s@));
        }
        return None;
    }
    let ghost d = spec_digits_part(s@);
    proof {
        if start == 1 {
            assert(d =~= s@.skip(1));
        } else {
            assert(d =~= s@);
        }
    }
    let mut acc: usize = 0;
    let mut i: usize = start;
    proof {
        assert(d.take(0) =~= Seq::<char>::empty());
    }
    while i < n
        invariant
            start <= i <= n,
            n == s@.len(),
            d == spec_digits_part(s@),
            d.len() == n - start,
            forall|k: int| 0 <= k < d.len() ==> d[k] == s@[k + start],
            forall|k: int| 0 <= k < i - start ==> spec_is_digit(#[trigger] d[k]),
            acc == spec_digits_value(d.take(i - start)),
        decreases n - i,
    {
        let c = s.get_char(i);
        if c < '0' || c > '9' {
            proof {
                assert(d[i - start] == s@[i as int]);
                assert(!spec_is_digit(d[i - start]));
                assert(!spec_is_uint_string(s@));
            }
            return None;
        }
        let dv = (c as u32 - '0' as u32) as usize;
        proof {
            lemma_digits_value_take_step(d, i - start);
        }
        let next = match acc.checked_mul(10) {
            Some(m) => m.checked_add(dv),
            None => None,
        };
        match next {
            Some(v) => {
                acc = v;
            },
            None => {
                // the literal's value exceeds the machine range, as
                // `str::parse::<usize>` would also report
                proof {
                    assert(spec_digits_value(d.take(i - start + 1)) > usize::MAX);
                    if spec_is_uint_string(s@) {
                        lemma_digits_value_take_le(d, i - start + 1);
                    }
                }
                return None;
            },
        }
        i = i + 1;
    }
    proof {
        assert(d.take(d.len() as int) =~= d);
    }
    Some(acc)
}

/// The position of the first entry carrying `number`, scanning oldest first.
pub fn find_entry_index(history: &Vec<HistoryEntry>, number: &str) -> (r: Option<usize>)
    ensures
        match r {
            Some(i) => i < history@.len() && history@[i as int]@.number == number@ && forall|
                j: int,
            | 0 <= j < i ==> #[trigger] history@[j]@.number != number@,
            None => forall|j: int|
                0 <= j < history@.len() ==> #[trigger] history@[j]@.number != number@,
        },
{
    let mut i: usize = 0;
    while i < history.len()
        invariant
            i <= history@.len(),
            forall|j: int| 0 <= j < i ==> #[trigger] history@[j]@.number != number@,
        decreases history@.len() - i,
    {
        if str_eq(history[i].number.as_str(), number) {
            return Some(i);
        }
        i = i + 1;
    }
    None
}

/// Resolves a user-supplied reference to a canonical invoice number.
///
/// A reference that reads as an unsigned integer is a 1-based index into the
/// newest-first display order: index 1 is the most recently appended entry,
/// zero and anything beyond the history length are `InvalidInvoiceIndex`.
/// Any other reference is a literal invoice number: known numbers resolve to
/// themselves, unknown ones are `InvoiceNotFound`.
pub fn resolve_invoice_number(state: &State, reference: &str) -> (r: Result<
    String,
    InvoiceError,
>)
    ensures
        ({
            let h = state@.history;
            match spec_parsed_index(reference@) {
                Some(v) if v <= usize::MAX => {
                    &&& (v == 0 || v > h.len()) <==> (r matches Err(
                        InvoiceError::InvalidInvoiceIndex(s),
                    ) && s@ == reference@)
                    &&& 1 <= v <= h.len() ==> (r matches Ok(number) && number@ == h[h.len()
                        - v].number)
                },
                _ => {
                    &&& (exists|j: int| 0 <= j < h.len() && #[trigger] h[j].number == reference@)
                        <==> (r matches Ok(number) && number@ == reference@)
                    &&& !(exists|j: int|
                        0 <= j < h.len() && #[trigger] h[j].number == reference@) <==> (r matches
                    Err(InvoiceError::InvoiceNotFound(s)) && s@ == reference@)
                },
            }
        }),
{
    proof {
        if spec_is_uint_string(reference@) {
            lemma_digits_value_nonneg(spec_digits_part(reference@));
        }
    }
    match parse_index(reference) {
        Some(idx) => {
            if idx == 0 || idx > state.history.len() {
                return Err(InvoiceError::InvalidInvoiceIndex(reference.to_owned()));
            }
            // display order is newest first, 1-based
            let e = &state.history[state.history.len() - idx];
            Ok(e.number.clone())
        },
        None => {
            match find_entry_index(&state.history, reference) {
                Some(i) => {
                    proof {
                        assert(state@.history[i as int].number == reference@);
                    }
                    Ok(reference.to_owned())
                },
                None => Err(InvoiceError::InvoiceNotFound(reference.to_owned())),
            }
        },
    }
}

} // verus!
