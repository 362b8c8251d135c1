//! The lifecycle operations: generate, edit/regenerate, add-payment and
//! remove-payment. Each one mutates a full in-memory ledger; the caller
//! loads it beforehand and persists it afterwards, so an operation that
//! fails leaves the ledger untouched.

use vstd::prelude::*;

use crate::config::{Client, Company, Config, Item};
use crate::date::Date;
use crate::error::InvoiceError;
use crate::items::{
    build_line_items, spec_key_index, spec_lines_good, spec_lines_subtotal, spec_line_of,
    InvoiceLineItem,
};
use crate::money::{
    round_half_up, spec_round_half_up, MAX_AMOUNT_CENTS, MAX_RATE_CENTS, MAX_TOTAL_CENTS,
};
use crate::resolver::find_entry_index;
use crate::sequence::{format_invoice_number, next_seq, spec_invoice_number, spec_next_seq};
use crate::state::{
    lemma_sum_nonneg, spec_sum_payments, Counter, EntryModel, HistoryEntry, Payment, PaymentStatus,
    State,
};
use crate::strings::spec_dec_digits;

verus! {

/// The position of the first entry carrying `number`, or `-1`.
pub open spec fn spec_entry_index(h: Seq<EntryModel>, number: Seq<char>) -> int
    decreases h.len(),
{
    if h.len() == 0 {
        -1
    } else if h[0].number == number {
        0
    } else {
        let r = spec_entry_index(h.skip(1), number);
        if r == -1 {
            -1
        } else {
            r + 1
        }
    }
}

/// `spec_entry_index` finds exactly the first entry with the number.
pub proof fn lemma_entry_index(h: Seq<EntryModel>, number: Seq<char>)
    ensures
        spec_entry_index(h, number) == -1 ==> forall|k: int|
            0 <= k < h.len() ==> (#[trigger] h[k]).number != number,
        spec_entry_index(h, number) != -1 ==> {
            let r = spec_entry_index(h, number);
            &&& 0 <= r < h.len()
            &&& h[r].number == number
            &&& forall|k: int| 0 <= k < r ==> (#[trigger] h[k]).number != number
        },
    decreases h.len(),
{
    if h.len() > 0 && h[0].number != number {
        lemma_entry_index(h.skip(1), number);
        assert(forall|k: int| 1 <= k < h.len() ==> h[k] == h.skip(1)[k - 1]);
    }
}

/// The entry with one more payment appended.
pub open spec fn spec_with_payment(e: EntryModel, p: Payment) -> EntryModel {
    EntryModel { payments: e.payments.push(p), ..e }
}

/// Records a payment against the entry carrying `invoice_number` and returns
/// the new outstanding balance, in cents.
///
/// A non-positive amount is `InvalidPaymentAmount`; an unknown number is
/// `InvoiceNotFound`; an amount above the outstanding balance is
/// `OverPayment` carrying that balance. On success the payment is appended
/// to that entry's list and nothing else changes.
pub fn add_payment(state: &mut State, invoice_number: &str, amount: i64, date: Date) -> (r: Result<
    i64,
    InvoiceError,
>)
    requires
        old(state)@.wf(),
    ensures
        final(state)@.wf(),
        r is Err ==> *final(state) == *old(state),
        ({
            let h = old(state)@.history;
            let i = spec_entry_index(h, invoice_number@);
            &&& (amount <= 0 <==> r matches Err(InvoiceError::InvalidPaymentAmount))
            &&& ((amount > 0 && i == -1) <==> (r matches Err(InvoiceError::InvoiceNotFound(s))
                && s@ == invoice_number@))
            &&& ((amount > 0 && i >= 0 && amount > h[i].outstanding()) <==> (r matches Err(
                InvoiceError::OverPayment { invoice, max },
            ) && invoice@ == invoice_number@ && max == h[i].outstanding()))
            &&& ((amount > 0 && i >= 0 && amount <= h[i].outstanding()) <==> r is Ok)
            &&& (r matches Ok(rem) ==> {
                &&& rem == h[i].outstanding() - amount
                &&& final(state)@.history == h.update(
                    i,
                    spec_with_payment(h[i], Payment { amount, date }),
                )
                &&& final(state).counter == old(state).counter
                &&& spec_sum_payments(final(state)@.history[i].payments) <= final(state)@.history[i].total
            })
        }),
{
    if amount <= 0 {
        return Err(InvoiceError::InvalidPaymentAmount);
    }
    proof {
        lemma_entry_index(old(state)@.history, invoice_number@);
    }
    let i = match find_entry_index(&state.history, invoice_number) {
        Some(i) => i,
        None => {
            proof {
                assert(forall|k: int|
                    0 <= k < old(state)@.history.len() ==> (#[trigger] old(
                        state,
                    )@.history[k]).number != invoice_number@);
            }
            return Err(InvoiceError::InvoiceNotFound(invoice_number.to_owned()));
        },
    };
    proof {
        assert(old(state)@.history[i as int] == old(state).history@[i as int]@);
        assert(spec_entry_index(old(state)@.history, invoice_number@) == i);
    }
    let remaining = state.history[i].outstanding();
    if amount > remaining {
        return Err(
            InvoiceError::OverPayment { invoice: invoice_number.to_owned(), max: remaining },
        );
    }
    let ghost old_history = old(state)@.history;
    let entry = &mut state.history[i];
    entry.payments.push(Payment { amount, date });
    proof {
        let e2 = state.history@[i as int]@;
        assert(e2 == spec_with_payment(old_history[i as int], Payment { amount, date }));
        assert(state@.history =~= old_history.update(i as int, e2));
        assert(forall|k: int|
            0 <= k < state@.history.len() && k != i ==> state@.history[k] == old_history[k]);
        assert(old_history[i as int].wf());
        lemma_sum_nonneg(old_history[i as int].payments);
        assert(e2.payments.drop_last() =~= old_history[i as int].payments);
        assert(spec_sum_payments(e2.payments) == spec_sum_payments(
            old_history[i as int].payments,
        ) + amount);
        assert(forall|k: int|
            0 <= k < e2.payments.len() ==> #[trigger] e2.payments[k].amount >= 0);
        assert(e2.wf());
    }
    Ok(remaining - amount)
}

/// Removes one payment from the entry carrying `invoice_number` and returns
/// it. The 1-based `index` defaults to the most recently added payment; zero
/// or anything beyond the payment count is `InvalidPaymentIndex`.
pub fn remove_payment(state: &mut State, invoice_number: &str, index: Option<usize>) -> (r: Result<
    Payment,
    InvoiceError,
>)
    requires
        old(state)@.wf(),
    ensures
        final(state)@.wf(),
        r is Err ==> *final(state) == *old(state),
        ({
            let h = old(state)@.history;
            let i = spec_entry_index(h, invoice_number@);
            &&& ((i == -1) <==> (r matches Err(InvoiceError::InvoiceNotFound(s)) && s@
                == invoice_number@))
            &&& ((i >= 0 && h[i].payments.len() == 0) <==> (r matches Err(
                InvoiceError::NoPayments(s),
            ) && s@ == invoice_number@))
            &&& ((i >= 0 && h[i].payments.len() > 0 && (index matches Some(x) && (x == 0 || x > h[
                i
            ].payments.len()))) <==> (r matches Err(
                InvoiceError::InvalidPaymentIndex { invoice, index: bad, count },
            ) && invoice@ == invoice_number@ && Some(bad) == index && count == h[
                i
            ].payments.len()))
            &&& (r matches Ok(p) ==> {
                let at = match index {
                    Some(x) => x - 1,
                    None => h[i].payments.len() - 1,
                };
                &&& i >= 0
                &&& p == h[i].payments[at]
                &&& final(state)@.history == h.update(
                    i,
                    EntryModel { payments: h[i].payments.remove(at), ..h[i] },
                )
                &&& final(state).counter == old(state).counter
            })
            &&& ((i >= 0 && h[i].payments.len() > 0 && (index matches Some(x) ==> 1 <= x <= h[
                i
            ].payments.len())) <==> r is Ok)
        }),
{
    proof {
        lemma_entry_index(old(state)@.history, invoice_number@);
    }
    let i = match find_entry_index(&state.history, invoice_number) {
        Some(i) => i,
        None => {
            proof {
                assert(forall|k: int|
                    0 <= k < old(state)@.history.len() ==> (#[trigger] old(
                        state,
                    )@.history[k]).number != invoice_number@);
            }
            return Err(InvoiceError::InvoiceNotFound(invoice_number.to_owned()));
        },
    };
    proof {
        assert(old(state)@.history[i as int] == old(state).history@[i as int]@);
        assert(spec_entry_index(old(state)@.history, invoice_number@) == i);
    }
    let count = state.history[i].payments.len();
    if count == 0 {
        return Err(InvoiceError::NoPayments(invoice_number.to_owned()));
    }
    let at = match index {
        Some(x) => {
            if x == 0 || x > count {
                return Err(
                    InvoiceError::InvalidPaymentIndex {
                        invoice: invoice_number.to_owned(),
                        index: x,
                        count,
                    },
                );
            }
            x - 1
        },
        None => count - 1,
    };
    let ghost old_history = old(state)@.history;
    let entry = &mut state.history[i];
    let removed = entry.payments.remove(at);
    proof {
        let e2 = state.history@[i as int]@;
        assert(e2 == EntryModel {
            payments: old_history[i as int].payments.remove(at as int),
            ..old_history[i as int]
        });
        assert(state@.history =~= old_history.update(i as int, e2));
        assert(old_history[i as int].wf());
        lemma_sum_remove(old_history[i as int].payments, at as int);
        let old_ps = old_history[i as int].payments;
        assert(forall|k: int|
            0 <= k < e2.payments.len() ==> e2.payments[k] == (if k < at {
                old_ps[k]
            } else {
                old_ps[k + 1]
            }));
        assert(forall|k: int|
            0 <= k < e2.payments.len() ==> #[trigger] e2.payments[k].amount >= 0);
        lemma_sum_nonneg(e2.payments);
        assert(e2.wf());
    }
    Ok(removed)
}

/// Removing a payment lowers the sum by exactly that payment's amount.
pub proof fn lemma_sum_remove(ps: Seq<Payment>, at: int)
    requires
        0 <= at < ps.len(),
    ensures
        spec_sum_payments(ps.remove(at)) == spec_sum_payments(ps) - ps[at].amount,
    decreases ps.len(),
{
    if at == ps.len() - 1 {
        assert(ps.remove(at) =~= ps.drop_last());
    } else {
        lemma_sum_remove(ps.drop_last(), at);
        assert(ps.remove(at).drop_last() =~= ps.drop_last().remove(at));
        assert(ps.remove(at).last() == ps.last());
    }
}

/// Complete invoice data handed to the rendering layer; `tax_rate` is in
/// ten-thousandths, amounts in cents, quantities in thousandths of a unit.
#[derive(Debug)]
pub struct InvoiceData {
    pub number: String,
    pub date: Date,
    pub company: Company,
    pub client: Client,
    pub items: Vec<InvoiceLineItem>,
    pub subtotal: i64,
    pub tax_rate: u32,
    pub tax_amount: i64,
    pub total: i64,
    pub currency_symbol: String,
    pub due_days: u32,
    pub payment_terms: String,
}

/// The tax on a subtotal, rounded half-up to cents.
pub open spec fn spec_tax_amount(subtotal: int, tax_rate_myriadths: int) -> int {
    spec_round_half_up(subtotal * tax_rate_myriadths, 10000)
}

/// Computes the tax and the grand total for a subtotal.
pub fn compute_tax(subtotal: i64, tax_rate_myriadths: u32) -> (r: (i64, i64))
    requires
        0 <= subtotal <= MAX_AMOUNT_CENTS,
        tax_rate_myriadths <= 10000,
    ensures
        r.0 == spec_tax_amount(subtotal as int, tax_rate_myriadths as int),
        r.1 == subtotal + r.0,
        0 <= r.0 <= subtotal,
        0 <= r.1 <= MAX_TOTAL_CENTS,
{
    let t = tax_rate_myriadths as i64;
    proof {
        assert(0 <= subtotal * t <= subtotal * 10000) by (nonlinear_arith)
            requires
                0 <= subtotal,
                0 <= t <= 10000,
        ;
        assert(subtotal * 10000 + 5000 < (subtotal + 1) * 10000) by (nonlinear_arith)
            requires
                0 <= subtotal,
        ;
        assert((subtotal * t + 5000) / 10000 <= subtotal) by {
            assert(subtotal * t + 5000 < (subtotal + 1) * 10000);
            assert((subtotal * t + 5000) / 10000 < subtotal + 1) by (nonlinear_arith)
                requires
                    0 <= subtotal * t + 5000,
                    subtotal * t + 5000 < (subtotal + 1) * 10000,
            ;
        }
        assert((subtotal * t + 5000) / 10000 >= 0);
    }
    let tax = round_half_up(subtotal * t, 10000);
    (tax, subtotal + tax)
}

/// The invariant of a freshly generated entry.
proof fn lemma_fresh_entry_wf(e: EntryModel)
    requires
        0 <= e.total <= MAX_TOTAL_CENTS,
        e.payments.len() == 0,
    ensures
        e.wf(),
{
    assert(spec_sum_payments(e.payments) == 0);
}

/// Generates a new invoice: allocates the next sequence number against the
/// counter and `today`'s year, computes the line items and the rounded
/// total, appends the new entry with no payments, and commits the counter —
/// all in memory, in one step, so the caller persists counter and entry
/// together.
///
/// An unknown client is `ClientNotFound`; a bad line-item token fails as in
/// `build_line_items`; otherwise the entry is appended and the rendered
/// invoice data returned.
pub fn generate_invoice(
    state: &mut State,
    client_id: &String,
    items_input: &Vec<String>,
    clients: &Vec<(String, Client)>,
    catalog: &Vec<(String, Item)>,
    config: &Config,
    today: Date,
) -> (r: Result<InvoiceData, InvoiceError>)
    requires
        old(state)@.wf(),
        old(state).counter.last_year == today.year ==> old(state).counter.last_number
            < u32::MAX,
        forall|k: int|
            0 <= k < catalog@.len() ==> 0 <= (#[trigger] catalog@[k]).1.rate <= MAX_RATE_CENTS,
        config.invoice.tax_rate <= 10000,
    ensures
        final(state)@.wf(),
        r is Err ==> *final(state) == *old(state),
        ({
            let inputs = items_input.deep_view();
            let cat = catalog@;
            let cidx = spec_key_index(clients@, client_id@);
            let n = spec_next_seq(old(state).counter, today.year);
            let number = spec_invoice_number(
                config.invoice.number_format@,
                today.year,
                n as u32,
            );
            let subtotal = spec_lines_subtotal(inputs, cat);
            let tax = spec_tax_amount(subtotal, config.invoice.tax_rate as int);
            let total = subtotal + tax;
            &&& (cidx == -1 <==> (r matches Err(InvoiceError::ClientNotFound(c)) && c@
                == client_id@))
            &&& ((cidx >= 0 && spec_lines_good(inputs, cat)) <==> r is Ok)
            &&& (r matches Err(e) ==> (e is ClientNotFound || e is InvalidItemFormat || e
                is InvalidQuantity || e is ItemNotFound || e is AmountOverflow))
            &&& (r matches Err(InvoiceError::InvalidItemFormat(t)) ==> exists|k: int|
                0 <= k < inputs.len() && !crate::items::spec_token_ok(#[trigger] inputs[k]) && t@
                    == inputs[k])
            &&& (r matches Err(InvoiceError::ItemNotFound(id)) ==> exists|k: int|
                0 <= k < inputs.len() && crate::items::spec_token_ok(#[trigger] inputs[k]) && id@
                    == crate::items::spec_token_item(inputs[k]) && spec_key_index(cat, id@)
                    == -1)
            &&& (r matches Ok(data) ==> {
                &&& final(state)@.history == old(state)@.history.push(
                    EntryModel {
                        number,
                        client: client_id@,
                        date: today,
                        total: total as i64,
                        file: number + ".pdf"@,
                        payments: Seq::<Payment>::empty(),
                        items: inputs,
                    },
                )
                &&& final(state).counter == Counter {
                    last_number: n as u32,
                    last_year: today.year,
                }
                &&& data.number@ == number
                &&& data.date == today
                &&& data.company == config.company
                &&& data.client == clients@[cidx].1
                &&& data.items@.len() == inputs.len()
                &&& forall|k: int|
                    0 <= k < inputs.len() ==> (#[trigger] data.items@[k])@ == spec_line_of(
                        inputs[k],
                        cat,
                    )
                &&& data.subtotal == subtotal
                &&& data.tax_rate == config.invoice.tax_rate
                &&& data.tax_amount == tax
                &&& data.total == total
                &&& data.currency_symbol@ == config.invoice.currency_symbol@
                &&& data.due_days == config.invoice.due_days
                &&& data.payment_terms@ == "Net "@ + spec_dec_digits(
                    config.invoice.due_days as nat,
                ) + " days"@
            })
        }),
{
    let cidx = match crate::items::find_key_index(clients, client_id.as_str()) {
        Some(i) => i,
        None => {
            return Err(InvoiceError::ClientNotFound(client_id.clone()));
        },
    };
    proof {
        crate::items::lemma_key_index(clients@, client_id@);
    }
    let (lines, subtotal) = match build_line_items(items_input, catalog) {
        Ok(out) => out,
        Err(e) => {
            return Err(e);
        },
    };
    let (tax_amount, total) = compute_tax(subtotal, config.invoice.tax_rate);
    let seq_num = next_seq(&state.counter, today.year);
    let number = format_invoice_number(config.invoice.number_format.as_str(), today.year, seq_num);
    let file = number.clone().concat(".pdf");
    let days_str = crate::strings::u64_to_string(config.invoice.due_days as u64);
    let payment_terms = "Net ".to_owned().concat(days_str.as_str()).concat(" days");
    let entry = HistoryEntry {
        number: number.clone(),
        client: client_id.clone(),
        date: today,
        total,
        file,
        payments: Vec::new(),
        items: clone_string_vec(items_input),
    };
    let ghost em = entry@;
    let ghost old_history = old(state)@.history;
    state.counter = Counter { last_number: seq_num, last_year: today.year };
    state.history.push(entry);
    proof {
        assert(em.payments =~= Seq::<Payment>::empty());
        lemma_fresh_entry_wf(em);
        assert(state@.history =~= old_history.push(em));
        assert(forall|k: int|
            0 <= k < old_history.len() ==> state@.history[k] == old_history[k]);
    }
    let data = InvoiceData {
        number,
        date: today,
        company: config.company.clone(),
        client: clients[cidx].1.clone(),
        items: lines,
        subtotal,
        tax_rate: config.invoice.tax_rate,
        tax_amount,
        total,
        currency_symbol: config.invoice.currency_symbol.clone(),
        due_days: config.invoice.due_days,
        payment_terms,
    };
    Ok(data)
}

/// Clones a vector of strings, element for element.
fn clone_string_vec(v: &Vec<String>) -> (r: Vec<String>)
    ensures
        r@.len() == v@.len(),
        forall|k: int| 0 <= k < v@.len() ==> #[trigger] r@[k] == v@[k],
        r.deep_view() == v.deep_view(),
{
    let mut r: Vec<String> = Vec::new();
    let mut i: usize = 0;
    while i < v.len()
        invariant
            i <= v@.len(),
            r@.len() == i,
            forall|k: int| 0 <= k < i ==> #[trigger] r@[k] == v@[k],
        decreases v@.len() - i,
    {
        r.push(v[i].clone());
        i = i + 1;
    }
    proof {
        assert(r.deep_view() =~~= v.deep_view());
    }
    r
}

/// Regenerates an existing invoice from stored or newly supplied line items.
///
/// With `new_items` supplied the entry's stored item tokens and total are
/// replaced — the number, issue date and payments stay untouched; without
/// them the invoice data is rebuilt from the stored tokens and the ledger is
/// not changed, failing with `NoStoredItems` when the entry predates item
/// tracking.
pub fn regenerate_invoice(
    state: &mut State,
    invoice_number: &str,
    new_items: Option<&Vec<String>>,
    clients: &Vec<(String, Client)>,
    catalog: &Vec<(String, Item)>,
    config: &Config,
) -> (r: Result<InvoiceData, InvoiceError>)
    requires
        old(state)@.wf(),
        forall|k: int|
            0 <= k < catalog@.len() ==> 0 <= (#[trigger] catalog@[k]).1.rate <= MAX_RATE_CENTS,
        config.invoice.tax_rate <= 10000,
    ensures
        final(state)@.wf(),
        r is Err ==> *final(state) == *old(state),
        new_items is None ==> *final(state) == *old(state),
        ({
            let h = old(state)@.history;
            let i = spec_entry_index(h, invoice_number@);
            let cat = catalog@;
            let inputs = match new_items {
                Some(v) => v.deep_view(),
                None => h[i].items,
            };
            let cidx = spec_key_index(clients@, h[i].client);
            let subtotal = spec_lines_subtotal(inputs, cat);
            let tax = spec_tax_amount(subtotal, config.invoice.tax_rate as int);
            let total = subtotal + tax;
            &&& (i == -1 <==> (r matches Err(InvoiceError::InvoiceNotFound(s)) && s@
                == invoice_number@))
            &&& ((i >= 0 && new_items is None && h[i].items.len() == 0) <==> (r matches Err(
                InvoiceError::NoStoredItems(s),
            ) && s@ == invoice_number@))
            &&& ((i >= 0 && (new_items is Some || h[i].items.len() > 0) && cidx == -1) <==> (
            r matches Err(InvoiceError::ClientNotFound(c)) && c@ == h[i].client))
            &&& ((i >= 0 && (new_items is Some || h[i].items.len() > 0) && cidx >= 0
                && spec_lines_good(inputs, cat)) <==> r is Ok)
            &&& (r matches Err(e) ==> (e is InvoiceNotFound || e is NoStoredItems || e
                is ClientNotFound || e is InvalidItemFormat || e is InvalidQuantity || e
                is ItemNotFound || e is AmountOverflow))
            &&& (r matches Ok(data) ==> {
                &&& (new_items matches Some(v) ==> {
                    &&& final(state)@.history == h.update(
                        i,
                        EntryModel { total: total as i64, items: v.deep_view(), ..h[i] },
                    )
                    &&& final(state).counter == old(state).counter
                })
                &&& data.number@ == invoice_number@
                &&& data.date == h[i].date
                &&& data.company == config.company
                &&& data.client == clients@[cidx].1
                &&& data.items@.len() == inputs.len()
                &&& forall|k: int|
                    0 <= k < inputs.len() ==> (#[trigger] data.items@[k])@ == spec_line_of(
                        inputs[k],
                        cat,
                    )
                &&& data.subtotal == subtotal
                &&& data.tax_rate == config.invoice.tax_rate
                &&& data.tax_amount == tax
                &&& data.total == total
                &&& data.currency_symbol@ == config.invoice.currency_symbol@
                &&& data.due_days == config.invoice.due_days
                &&& data.payment_terms@ == "Net "@ + spec_dec_digits(
                    config.invoice.due_days as nat,
                ) + " days"@
            })
        }),
{
    proof {
        lemma_entry_index(old(state)@.history, invoice_number@);
    }
    let i = match find_entry_index(&state.history, invoice_number) {
        Some(i) => i,
        None => {
            proof {
                assert(forall|k: int|
                    0 <= k < old(state)@.history.len() ==> (#[trigger] old(
                        state,
                    )@.history[k]).number != invoice_number@);
            }
            return Err(InvoiceError::InvoiceNotFound(invoice_number.to_owned()));
        },
    };
    proof {
        assert(old(state)@.history[i as int] == old(state).history@[i as int]@);
        assert(spec_entry_index(old(state)@.history, invoice_number@) == i);
    }
    let items_to_use: Vec<String> = match new_items {
        Some(v) => clone_string_vec(v),
        None => {
            if state.history[i].items.len() == 0 {
                return Err(InvoiceError::NoStoredItems(invoice_number.to_owned()));
            }
            clone_string_vec(&state.history[i].items)
        },
    };
    let cidx = match crate::items::find_key_index(clients, state.history[i].client.as_str()) {
        Some(c) => c,
        None => {
            return Err(InvoiceError::ClientNotFound(state.history[i].client.clone()));
        },
    };
    proof {
        crate::items::lemma_key_index(clients@, old(state)@.history[i as int].client);
    }
    let (lines, subtotal) = match build_line_items(&items_to_use, catalog) {
        Ok(out) => out,
        Err(e) => {
            return Err(e);
        },
    };
    let (tax_amount, total) = compute_tax(subtotal, config.invoice.tax_rate);
    let days_str = crate::strings::u64_to_string(config.invoice.due_days as u64);
    let payment_terms = "Net ".to_owned().concat(days_str.as_str()).concat(" days");
    let date = state.history[i].date;
    let data = InvoiceData {
        number: invoice_number.to_owned(),
        date,
        company: config.company.clone(),
        client: clients[cidx].1.clone(),
        items: lines,
        subtotal,
        tax_rate: config.invoice.tax_rate,
        tax_amount,
        total,
        currency_symbol: config.invoice.currency_symbol.clone(),
        due_days: config.invoice.due_days,
        payment_terms,
    };
    if new_items.is_some() {
        let ghost old_history = old(state)@.history;
        let entry = &mut state.history[i];
        entry.items = items_to_use;
        entry.total = total;
        proof {
            let e2 = state.history@[i as int]@;
            assert(e2 == EntryModel {
                total: total,
                items: e2.items,
                ..old_history[i as int]
            });
            assert(state@.history =~= old_history.update(i as int, e2));
            assert(old_history[i as int].wf());
            assert(e2.wf());
        }
    }
    Ok(data)
}

/// The rendered artifact's path for an invoice: the resolved output
/// directory joined with the entry's stored file name.
pub fn get_invoice_path(
    config: &Config,
    state: &State,
    cfg_dir: &str,
    home: &Option<String>,
    invoice_number: &str,
) -> (r: Result<String, InvoiceError>)
    ensures
        ({
            let i = spec_entry_index(state@.history, invoice_number@);
            let dir = crate::config::spec_resolved_output_dir(
                config.pdf.output_dir@,
                cfg_dir@,
                match home {
                    Some(h) => Some(h@),
                    None => None,
                },
            );
            &&& (i == -1 <==> (r matches Err(InvoiceError::InvoiceNotFound(s)) && s@
                == invoice_number@))
            &&& (i >= 0 ==> (r matches Ok(p) && p@ == dir + seq!['/'] + state@.history[i].file))
        }),
{
    proof {
        lemma_entry_index(state@.history, invoice_number@);
    }
    let i = match find_entry_index(&state.history, invoice_number) {
        Some(i) => i,
        None => {
            proof {
                assert(forall|k: int|
                    0 <= k < state@.history.len() ==> (#[trigger] state@.history[k]).number
                        != invoice_number@);
            }
            return Err(InvoiceError::InvoiceNotFound(invoice_number.to_owned()));
        },
    };
    proof {
        assert(state@.history[i as int] == state.history@[i as int]@);
        assert(spec_entry_index(state@.history, invoice_number@) == i);
    }
    let dir = crate::config::resolve_output_dir(config.pdf.output_dir.as_str(), cfg_dir, home);
    let path = dir.concat("/").concat(state.history[i].file.as_str());
    proof {
        reveal_strlit("/");
        assert("/"@ =~= seq!['/']);
    }
    Ok(path)
}

/// Law: the overpayment guard is exact — a payment one cent above the
/// outstanding balance is rejected, while a payment of exactly the balance
/// is accepted and leaves the entry fully paid.
pub proof fn lemma_overpayment_guard(e: EntryModel, date: Date)
    requires
        e.wf(),
        e.outstanding() > 0,
        e.outstanding() < i64::MAX,
    ensures
        ({
            let exact = e.outstanding() as i64;
            let over = (e.outstanding() + 1) as i64;
            &&& over > e.outstanding()
            &&& exact <= e.outstanding()
            &&& spec_with_payment(e, Payment { amount: exact, date }).status()
                == PaymentStatus::Paid
            &&& spec_with_payment(e, Payment { amount: exact, date }).outstanding() == 0
        }),
{
    let exact = e.outstanding() as i64;
    let e2 = spec_with_payment(e, Payment { amount: exact, date });
    lemma_sum_nonneg(e.payments);
    assert(e2.payments.drop_last() =~= e.payments);
    assert(spec_sum_payments(e2.payments) == spec_sum_payments(e.payments) + exact);
}

} // verus!
