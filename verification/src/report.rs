//! Client reports: filtering the history by client, date range and payment
//! status, and summing the filtered totals.

use vstd::prelude::*;

use crate::config::{Client, Company, Config};
use crate::date::Date;
use crate::error::InvoiceError;
use crate::items::{find_key_index, lemma_key_index, spec_key_index};
use crate::money::MAX_TOTAL_CENTS;
use crate::state::{
    lemma_sum_nonneg, spec_sum_payments, EntryModel, HistoryEntry, Payment, PaymentStatus, State,
};
use crate::strings::str_eq;

verus! {

/// Parses a report status filter: `paid`, `unpaid` or `partial`; anything
/// else is rejected.
pub fn parse_status_filter(s: &str) -> (r: Option<PaymentStatus>)
    ensures
        (s@ == "paid"@ <==> r == Some(PaymentStatus::Paid)),
        (s@ == "unpaid"@ <==> r == Some(PaymentStatus::Unpaid)),
        (s@ == "partial"@ <==> r == Some(PaymentStatus::Partial)),
        (s@ != "paid"@ && s@ != "unpaid"@ && s@ != "partial"@ <==> r is None),
{
    proof {
        reveal_strlit("paid");
        reveal_strlit("unpaid");
        reveal_strlit("partial");
        assert("paid"@.len() == 4);
        assert("unpaid"@.len() == 6);
        assert("partial"@.len() == 7);
    }
    if str_eq(s, "paid") {
        Some(PaymentStatus::Paid)
    } else if str_eq(s, "unpaid") {
        Some(PaymentStatus::Unpaid)
    } else if str_eq(s, "partial") {
        Some(PaymentStatus::Partial)
    } else {
        None
    }
}

/// Whether one entry belongs on the report: same client, inside the date
/// range, and carrying the requested status.
pub open spec fn spec_report_matches(
    e: EntryModel,
    client_id: Seq<char>,
    from: Option<Date>,
    to: Option<Date>,
    status: Option<PaymentStatus>,
) -> bool {
    &&& e.client == client_id
    &&& (from matches Some(d) ==> d.spec_le(e.date))
    &&& (to matches Some(d) ==> e.date.spec_le(d))
    &&& (status matches Some(s) ==> e.status() == s)
}

/// The history entries that belong on the report, in ledger order.
pub open spec fn spec_filtered(
    h: Seq<EntryModel>,
    client_id: Seq<char>,
    from: Option<Date>,
    to: Option<Date>,
    status: Option<PaymentStatus>,
) -> Seq<EntryModel>
    decreases h.len(),
{
    if h.len() == 0 {
        Seq::<EntryModel>::empty()
    } else {
        let rest = spec_filtered(h.drop_last(), client_id, from, to, status);
        if spec_report_matches(h.last(), client_id, from, to, status) {
            rest.push(h.last())
        } else {
            rest
        }
    }
}

/// The sum of the filtered totals, in cents.
pub open spec fn spec_total_sum(es: Seq<EntryModel>) -> int
    decreases es.len(),
{
    if es.len() == 0 {
        0
    } else {
        spec_total_sum(es.drop_last()) + es.last().total
    }
}

/// The sum of the filtered paid amounts, in cents.
pub open spec fn spec_paid_sum(es: Seq<EntryModel>) -> int
    decreases es.len(),
{
    if es.len() == 0 {
        0
    } else {
        spec_paid_sum(es.drop_last()) + es.last().paid_amount()
    }
}

/// A single payment line for a report detail row.
#[derive(Clone, Copy, Debug, PartialEq, Eq, Structural)]
pub struct ReportPayment {
    pub amount: i64,
    pub date: Date,
}

/// The model of one report row.
pub ghost struct ReportRowModel {
    pub number: Seq<char>,
    pub date: Date,
    pub total: i64,
    pub paid: i64,
    pub outstanding: i64,
    pub payments: Seq<ReportPayment>,
    pub status: PaymentStatus,
}

/// One row in the report table.
#[derive(Debug)]
pub struct ReportInvoiceRow {
    pub number: String,
    pub date: Date,
    pub total: i64,
    pub paid: i64,
    pub outstanding: i64,
    pub payments: Vec<ReportPayment>,
    pub status: PaymentStatus,
}

impl View for ReportInvoiceRow {
    type V = ReportRowModel;

    open spec fn view(&self) -> ReportRowModel {
        ReportRowModel {
            number: self.number@,
            date: self.date,
            total: self.total,
            paid: self.paid,
            outstanding: self.outstanding,
            payments: self.payments@,
            status: self.status,
        }
    }
}

/// The row an entry turns into.
pub open spec fn spec_row_of(e: EntryModel) -> ReportRowModel {
    ReportRowModel {
        number: e.number,
        date: e.date,
        total: e.total,
        paid: e.paid_amount() as i64,
        outstanding: e.outstanding() as i64,
        payments: e.payments.map_values(
            |p: Payment| ReportPayment { amount: p.amount, date: p.date },
        ),
        status: e.status(),
    }
}

/// Complete data for rendering the client report.
#[derive(Debug)]
pub struct ReportData {
    pub company: Company,
    pub client: Client,
    pub client_id: String,
    pub rows: Vec<ReportInvoiceRow>,
    pub total: i64,
    pub paid: i64,
    pub outstanding: i64,
    pub currency_symbol: String,
    pub filter_from: Option<Date>,
    pub filter_to: Option<Date>,
    pub filter_status: Option<PaymentStatus>,
}

/// Turns one well-formed entry into its report row.
fn row_of_entry(e: &HistoryEntry) -> (r: ReportInvoiceRow)
    requires
        e@.wf(),
    ensures
        r@ == spec_row_of(e@),
{
    let paid = e.paid_amount();
    let outstanding = e.outstanding();
    let status = e.status();
    let mut payments: Vec<ReportPayment> = Vec::new();
    let mut i: usize = 0;
    while i < e.payments.len()
        invariant
            i <= e.payments@.len(),
            payments@ =~= e.payments@.take(i as int).map_values(
                |p: Payment| ReportPayment { amount: p.amount, date: p.date },
            ),
        decreases e.payments@.len() - i,
    {
        let p = e.payments[i];
        payments.push(ReportPayment { amount: p.amount, date: p.date });
        proof {
            assert(payments@ =~= e.payments@.take(i + 1).map_values(
                |q: Payment| ReportPayment { amount: q.amount, date: q.date },
            ));
        }
        i = i + 1;
    }
    proof {
        assert(e.payments@.take(e.payments@.len() as int) =~= e.payments@);
    }
    ReportInvoiceRow {
        number: e.number.clone(),
        date: e.date,
        total: e.total,
        paid,
        outstanding,
        payments,
        status,
    }
}

/// One more entry extends the filtered sequence by at most one row.
proof fn lemma_filtered_take_step(
    h: Seq<EntryModel>,
    client_id: Seq<char>,
    from: Option<Date>,
    to: Option<Date>,
    status: Option<PaymentStatus>,
    i: int,
)
    requires
        0 <= i < h.len(),
    ensures
        spec_filtered(h.take(i + 1), client_id, from, to, status) == if spec_report_matches(
            h[i],
            client_id,
            from,
            to,
            status,
        ) {
            spec_filtered(h.take(i), client_id, from, to, status).push(h[i])
        } else {
            spec_filtered(h.take(i), client_id, from, to, status)
        },
{
    assert(h.take(i + 1).drop_last() =~= h.take(i));
    assert(h.take(i + 1).last() == h[i]);
}

/// Builds the report for one client: the matching entries in ledger order,
/// each with its payments and status, and the filtered sums. An unknown
/// client is `ClientNotFound`; sums beyond the supported range are
/// `AmountOverflow`.
pub fn build_report(
    state: &State,
    clients: &Vec<(String, Client)>,
    client_id: &String,
    from: Option<Date>,
    to: Option<Date>,
    status: Option<PaymentStatus>,
    config: &Config,
) -> (r: Result<ReportData, InvoiceError>)
    requires
        state@.wf(),
    ensures
        ({
            let cidx = spec_key_index(clients@, client_id@);
            let filtered = spec_filtered(state@.history, client_id@, from, to, status);
            &&& (cidx == -1 <==> (r matches Err(InvoiceError::ClientNotFound(c)) && c@
                == client_id@))
            &&& (r matches Ok(data) ==> {
                &&& data.rows@.len() == filtered.len()
                &&& forall|k: int|
                    0 <= k < filtered.len() ==> (#[trigger] data.rows@[k])@ == spec_row_of(
                        filtered[k],
                    )
                &&& data.total == spec_total_sum(filtered)
                &&& data.paid == spec_paid_sum(filtered)
                &&& data.outstanding == data.total - data.paid
                &&& data.client_id@ == client_id@
                &&& data.company == config.company
                &&& data.client == clients@[cidx].1
                &&& data.currency_symbol@ == config.invoice.currency_symbol@
                &&& data.filter_from == from
                &&& data.filter_to == to
                &&& data.filter_status == status
            })
            &&& (cidx >= 0 && spec_total_sum(filtered) <= i64::MAX && spec_paid_sum(filtered)
                <= i64::MAX <==> r is Ok)
            &&& (r matches Err(e) ==> (e is ClientNotFound || e is AmountOverflow))
        }),
{
    let cidx = match find_key_index(clients, client_id.as_str()) {
        Some(c) => c,
        None => {
            return Err(InvoiceError::ClientNotFound(client_id.clone()));
        },
    };
    proof {
        lemma_key_index(clients@, client_id@);
    }
    let ghost h = state@.history;
    let mut rows: Vec<ReportInvoiceRow> = Vec::new();
    let mut total: i64 = 0;
    let mut paid: i64 = 0;
    let mut i: usize = 0;
    proof {
        assert(h.take(0) =~= Seq::<EntryModel>::empty());
    }
    while i < state.history.len()
        invariant
            i <= h.len(),
            h == state@.history,
            state@.wf(),
            cidx as int == spec_key_index(clients@, client_id@),
            ({
                let f = spec_filtered(h.take(i as int), client_id@, from, to, status);
                &&& rows@.len() == f.len()
                &&& forall|k: int|
                    0 <= k < f.len() ==> (#[trigger] rows@[k])@ == spec_row_of(f[k])
                &&& total == spec_total_sum(f)
                &&& paid == spec_paid_sum(f)
                &&& 0 <= total
                &&& 0 <= paid
            }),
        decreases h.len() - i,
    {
        let ghost f = spec_filtered(h.take(i as int), client_id@, from, to, status);
        proof {
            lemma_filtered_take_step(h, client_id@, from, to, status, i as int);
            assert(h[i as int] == state.history@[i as int]@);
            assert(h[i as int].wf());
        }
        let e = &state.history[i];
        let mut keep = str_eq(e.client.as_str(), client_id.as_str());
        if keep {
            if let Some(d) = from {
                if !d.le(&e.date) {
                    keep = false;
                }
            }
        }
        if keep {
            if let Some(d) = to {
                if !e.date.le(&d) {
                    keep = false;
                }
            }
        }
        if keep {
            if let Some(s) = status {
                if e.status() != s {
                    keep = false;
                }
            }
        }
        if keep {
            proof {
                assert(spec_report_matches(h[i as int], client_id@, from, to, status));
                lemma_sum_nonneg(h[i as int].payments);
                let f2 = spec_filtered(h.take(i + 1), client_id@, from, to, status);
                assert(f2 == f.push(h[i as int]));
                assert(f2.drop_last() =~= f);
                assert(f2.last() == h[i as int]);
                assert(spec_total_sum(f2) == total + h[i as int].total);
                assert(spec_paid_sum(f2) == paid + h[i as int].paid_amount());
            }
            let row = row_of_entry(e);
            let new_total = match total.checked_add(e.total) {
                Some(v) => v,
                None => {
                    proof {
                        lemma_sums_monotonic(h, client_id@, from, to, status, i + 1);
                    }
                    return Err(InvoiceError::AmountOverflow);
                },
            };
            let e_paid = e.paid_amount();
            let new_paid = match paid.checked_add(e_paid) {
                Some(v) => v,
                None => {
                    proof {
                        lemma_sums_monotonic(h, client_id@, from, to, status, i + 1);
                    }
                    return Err(InvoiceError::AmountOverflow);
                },
            };
            rows.push(row);
            total = new_total;
            paid = new_paid;
        } else {
            proof {
                assert(!spec_report_matches(h[i as int], client_id@, from, to, status));
            }
        }
        i = i + 1;
    }
    proof {
        assert(h.take(h.len() as int) =~= h);
    }
    Ok(
        ReportData {
            company: config.company.clone(),
            client: clients[cidx].1.clone(),
            client_id: client_id.clone(),
            rows,
            total,
            paid,
            outstanding: total - paid,
            currency_symbol: config.invoice.currency_symbol.clone(),
            filter_from: from,
            filter_to: to,
            filter_status: status,
        },
    )
}

/// With well-formed entries both report sums grow with the prefix, so a sum
/// that leaves the machine range at any prefix leaves it for the whole
/// history.
proof fn lemma_sums_monotonic(
    h: Seq<EntryModel>,
    client_id: Seq<char>,
    from: Option<Date>,
    to: Option<Date>,
    status: Option<PaymentStatus>,
    i: int,
)
    requires
        0 <= i <= h.len(),
        forall|k: int| 0 <= k < h.len() ==> #[trigger] h[k].wf(),
    ensures
        spec_total_sum(spec_filtered(h.take(i), client_id, from, to, status)) <= spec_total_sum(
            spec_filtered(h, client_id, from, to, status),
        ),
        spec_paid_sum(spec_filtered(h.take(i), client_id, from, to, status)) <= spec_paid_sum(
            spec_filtered(h, client_id, from, to, status),
        ),
    decreases h.len() - i,
{
    if i == h.len() {
        assert(h.take(i) =~= h);
    } else {
        lemma_filtered_take_step(h, client_id, from, to, status, i);
        lemma_sums_monotonic(h, client_id, from, to, status, i + 1);
        if spec_report_matches(h[i], client_id, from, to, status) {
            assert(h[i].wf());
            lemma_sum_nonneg(h[i].payments);
            let f = spec_filtered(h.take(i), client_id, from, to, status);
            let f2 = spec_filtered(h.take(i + 1), client_id, from, to, status);
            assert(f2 == f.push(h[i]));
            assert(f2.drop_last() =~= f);
            assert(f2.last() == h[i]);
            assert(spec_total_sum(f2) == spec_total_sum(f) + h[i].total);
            assert(spec_paid_sum(f2) == spec_paid_sum(f) + h[i].paid_amount());
        }
    }
}

} // verus!
