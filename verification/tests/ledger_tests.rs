// The payment-workflow and report scenarios, exercised directly against the
// ledger library: the same states, inputs and expected outcomes as the
// command-line sessions they mirror, with amounts in cents.

use invoice::config::{Client, Company, Config, InvoiceSettings, Item, PdfSettings};
use invoice::date::Date;
use invoice::error::InvoiceError;
use invoice::lifecycle::{add_payment, generate_invoice, remove_payment};
use invoice::listing::{add_financial_footer, list_rows, list_totals, payment_rows};
use invoice::money::{format_cents_plain, format_whole_money};
use invoice::report::{build_report, parse_status_filter};
use invoice::resolver::resolve_invoice_number;
use invoice::sequence::next_invoice_number;
use invoice::state::{
    migrate_entry, Counter, HistoryEntry, Payment, PaymentStatus, RawHistoryEntry, State,
};

fn d(year: u32, month: u32, day: u32) -> Date {
    Date { year, month, day }
}

fn entry(number: &str, total: i64, date: Date, items: Vec<&str>) -> HistoryEntry {
    HistoryEntry {
        number: number.to_string(),
        client: "example-client".to_string(),
        date,
        total,
        file: format!("{}.pdf", number),
        payments: Vec::new(),
        items: items.into_iter().map(|s| s.to_string()).collect(),
    }
}

fn example_company() -> Company {
    Company {
        name: "Your Company Name".to_string(),
        address: "123 Business Street".to_string(),
        city: "San Francisco".to_string(),
        state: "CA".to_string(),
        zip: "94102".to_string(),
        country: "USA".to_string(),
        email: "billing@yourcompany.com".to_string(),
        phone: None,
        tax_id: None,
    }
}

fn example_clients() -> Vec<(String, Client)> {
    vec![(
        "example-client".to_string(),
        Client {
            name: "Example Client Inc.".to_string(),
            contact: Some("Jane Smith".to_string()),
            email: "jane@example.com".to_string(),
            address: "456 Client Avenue".to_string(),
            city: "Los Angeles".to_string(),
            state: "CA".to_string(),
            zip: "90001".to_string(),
            country: None,
        },
    )]
}

fn example_catalog() -> Vec<(String, Item)> {
    vec![(
        "consulting".to_string(),
        Item {
            description: "Technical Consulting".to_string(),
            rate: 15000,
            unit: "hour".to_string(),
        },
    )]
}

fn example_config() -> Config {
    Config {
        company: example_company(),
        invoice: InvoiceSettings {
            number_format: "INV-{year}-{seq:04}".to_string(),
            currency: "USD".to_string(),
            currency_symbol: "$".to_string(),
            due_days: 30,
            tax_rate: 0,
        },
        pdf: PdfSettings { output_dir: "./output".to_string() },
    }
}

#[test]
fn test_add_payment_and_list_status() {
    let mut state = State {
        counter: Counter { last_number: 2, last_year: 2026 },
        history: vec![
            entry("INV-2026-0001", 100000, d(2026, 1, 10), vec!["consulting:4"]),
            entry("INV-2026-0002", 50000, d(2026, 1, 11), vec!["consulting:2"]),
        ],
    };

    // Add full payment to first invoice by number
    let number = resolve_invoice_number(&state, "INV-2026-0001").unwrap();
    let remaining = add_payment(&mut state, &number, 100000, d(2026, 1, 15)).unwrap();
    assert_eq!(format!("${}", format_cents_plain(100000)), "$1000.00");
    assert!(remaining <= 0, "fully paid");

    // Listing should show PAID and UNPAID
    let rows = list_rows(&state, None, "$");
    let statuses: Vec<&str> = rows.iter().map(|r| r.status.as_str()).collect();
    assert!(statuses.contains(&"PAID"));
    assert!(statuses.contains(&"UNPAID"));
}

#[test]
fn test_remove_payment_and_limit_totals_scope() {
    let mut e2 = entry("INV-2026-0002", 20000, d(2026, 1, 11), vec!["consulting:2"]);
    e2.payments.push(Payment { amount: 20000, date: d(2026, 1, 15) });
    let mut e3 = entry("INV-2026-0003", 30000, d(2026, 1, 12), vec!["consulting:3"]);
    e3.payments.push(Payment { amount: 30000, date: d(2026, 1, 16) });
    let mut state = State {
        counter: Counter { last_number: 3, last_year: 2026 },
        history: vec![
            entry("INV-2026-0001", 10000, d(2026, 1, 10), vec!["consulting:1"]),
            e2,
            e3,
        ],
    };

    // Remove payment from newest invoice (index 1 = INV-2026-0003)
    let number = resolve_invoice_number(&state, "1").unwrap();
    assert_eq!(number, "INV-2026-0003");
    let removed = remove_payment(&mut state, &number, None).unwrap();
    assert_eq!(format!("${}", format_cents_plain(removed.amount)), "$300.00");

    // Totals over the two newest invoices
    let (total, paid, outstanding) = list_totals(&state, Some(2)).unwrap();
    assert_eq!(format_whole_money(total, "$"), "$   500");
    assert_eq!(format_whole_money(paid, "$"), "$   200");
    assert_eq!(format_whole_money(outstanding, "$"), "$   300");
}

#[test]
fn test_add_payment_partial_status() {
    let mut state = State {
        counter: Counter { last_number: 1, last_year: 2026 },
        history: vec![entry("INV-2026-0001", 120000, d(2026, 1, 10), vec!["consulting:8"])],
    };

    let number = resolve_invoice_number(&state, "1").unwrap();
    let remaining = add_payment(&mut state, &number, 50000, d(2026, 1, 15)).unwrap();
    assert_eq!(format!("${} remaining", format_cents_plain(remaining)), "$700.00 remaining");

    let rows = list_rows(&state, None, "$");
    assert_eq!(rows[0].status, "PARTIAL");
}

#[test]
fn test_add_payment_full_pays_invoice() {
    let mut state = State {
        counter: Counter { last_number: 1, last_year: 2026 },
        history: vec![entry("INV-2026-0001", 120000, d(2026, 1, 10), vec!["consulting:8"])],
    };

    // Pay in two installments
    let number = resolve_invoice_number(&state, "1").unwrap();
    add_payment(&mut state, &number, 50000, d(2026, 1, 15)).unwrap();
    let number = resolve_invoice_number(&state, "1").unwrap();
    let remaining = add_payment(&mut state, &number, 70000, d(2026, 1, 16)).unwrap();
    assert!(remaining <= 0, "fully paid");

    let rows = list_rows(&state, None, "$");
    assert_eq!(rows.len(), 1);
    assert_eq!(rows[0].status, "PAID");
}

#[test]
fn test_add_payment_rejects_overpayment() {
    let mut state = State {
        counter: Counter { last_number: 1, last_year: 2026 },
        history: vec![entry("INV-2026-0001", 100000, d(2026, 1, 10), vec!["consulting:4"])],
    };

    let number = resolve_invoice_number(&state, "1").unwrap();
    let result = add_payment(&mut state, &number, 150000, d(2026, 1, 15));
    assert!(matches!(result, Err(InvoiceError::OverPayment { .. })));
    // nothing was recorded
    assert!(state.history[0].payments.is_empty());
}

#[test]
fn test_remove_payment_by_index() {
    let mut e = entry("INV-2026-0001", 100000, d(2026, 1, 10), vec!["consulting:4"]);
    e.payments.push(Payment { amount: 30000, date: d(2026, 1, 15) });
    e.payments.push(Payment { amount: 40000, date: d(2026, 1, 20) });
    let mut state = State {
        counter: Counter { last_number: 1, last_year: 2026 },
        history: vec![e],
    };

    // Remove first payment (index 1)
    let number = resolve_invoice_number(&state, "1").unwrap();
    let removed = remove_payment(&mut state, &number, Some(1)).unwrap();
    assert_eq!(format!("${}", format_cents_plain(removed.amount)), "$300.00");

    // Only the second payment remains
    let rows = payment_rows(&state.history[0], "$");
    assert_eq!(rows.len(), 1);
    assert_eq!(rows[0].amount, "$400.00");
    assert_eq!(state.history[0].status(), PaymentStatus::Partial);
}

#[test]
fn test_payments_shows_history() {
    let mut e = entry("INV-2026-0001", 120000, d(2026, 1, 10), vec!["consulting:8"]);
    e.payments.push(Payment { amount: 50000, date: d(2026, 1, 15) });
    e.payments.push(Payment { amount: 30000, date: d(2026, 1, 20) });
    let state = State {
        counter: Counter { last_number: 1, last_year: 2026 },
        history: vec![e],
    };

    let number = resolve_invoice_number(&state, "INV-2026-0001").unwrap();
    assert_eq!(number, "INV-2026-0001");
    let entry = &state.history[0];
    let rows = payment_rows(entry, "$");
    assert_eq!(rows.len(), 2);
    assert_eq!(rows[0].amount, "$500.00");
    assert_eq!(rows[0].date, "2026-01-15");
    assert_eq!(rows[1].amount, "$300.00");
    assert_eq!(rows[1].date, "2026-01-20");
    let paid = entry.paid_amount();
    assert_eq!(
        format!("${} / ${}", format_cents_plain(paid), format_cents_plain(entry.total)),
        "$800.00 / $1200.00"
    );
    assert_eq!(entry.status(), PaymentStatus::Partial);
}

#[test]
fn test_legacy_paid_true_migrates_to_payment() {
    // Old format with `paid = true`
    let raw = RawHistoryEntry {
        number: "INV-2026-0001".to_string(),
        client: "example-client".to_string(),
        date: d(2026, 1, 10),
        total: 120000,
        file: "INV-2026-0001.pdf".to_string(),
        paid: Some(true),
        payments: Vec::new(),
        items: vec!["consulting:8".to_string()],
    };
    let migrated = migrate_entry(raw);

    // Shows as PAID, with the synthesized full payment on the issue date
    assert_eq!(migrated.status(), PaymentStatus::Paid);
    assert_eq!(migrated.payments.len(), 1);
    assert_eq!(format_cents_plain(migrated.payments[0].amount), "1200.00");
    assert_eq!(migrated.payments[0].date, d(2026, 1, 10));
}

#[test]
fn test_report_partial_status_filter() {
    let mut e1 = entry("INV-2026-0001", 120000, d(2026, 1, 10), vec!["consulting:8"]);
    e1.payments.push(Payment { amount: 120000, date: d(2026, 1, 15) });
    let mut e2 = entry("INV-2026-0002", 75000, d(2026, 1, 20), vec!["consulting:5"]);
    e2.payments.push(Payment { amount: 30000, date: d(2026, 1, 25) });
    let e3 = entry("INV-2026-0003", 50000, d(2026, 1, 25), vec!["consulting:3"]);
    let state = State {
        counter: Counter { last_number: 3, last_year: 2026 },
        history: vec![e1, e2, e3],
    };

    // Filter by partial — should show only INV-2026-0002
    let status = parse_status_filter("partial");
    assert_eq!(status, Some(PaymentStatus::Partial));
    let report = build_report(
        &state,
        &example_clients(),
        &"example-client".to_string(),
        None,
        None,
        status,
        &example_config(),
    )
    .unwrap();
    assert_eq!(report.rows.len(), 1);
    assert_eq!(report.rows[0].number, "INV-2026-0002");
}

#[test]
fn test_report_unknown_client() {
    let state = State {
        counter: Counter { last_number: 0, last_year: 2026 },
        history: Vec::new(),
    };
    let result = build_report(
        &state,
        &example_clients(),
        &"nonexistent".to_string(),
        None,
        None,
        None,
        &example_config(),
    );
    match result {
        Err(InvoiceError::ClientNotFound(c)) => assert_eq!(c, "nonexistent"),
        _ => panic!("expected ClientNotFound"),
    }
}

#[test]
fn test_report_no_invoices_for_client() {
    // Client exists but no invoices in history
    let state = State {
        counter: Counter { last_number: 0, last_year: 2026 },
        history: Vec::new(),
    };
    let report = build_report(
        &state,
        &example_clients(),
        &"example-client".to_string(),
        None,
        None,
        None,
        &example_config(),
    )
    .unwrap();
    assert!(report.rows.is_empty(), "No invoices found");
}

#[test]
fn test_report_status_filter() {
    // Legacy shapes: one paid, one unpaid
    let raw1 = RawHistoryEntry {
        number: "INV-2026-0001".to_string(),
        client: "example-client".to_string(),
        date: d(2026, 1, 10),
        total: 120000,
        file: "INV-2026-0001.pdf".to_string(),
        paid: Some(true),
        payments: Vec::new(),
        items: vec!["consulting:8".to_string()],
    };
    let raw2 = RawHistoryEntry {
        number: "INV-2026-0002".to_string(),
        client: "example-client".to_string(),
        date: d(2026, 1, 20),
        total: 75000,
        file: "INV-2026-0002.pdf".to_string(),
        paid: Some(false),
        payments: Vec::new(),
        items: vec!["consulting:5".to_string()],
    };
    let state = State {
        counter: Counter { last_number: 2, last_year: 2026 },
        history: vec![migrate_entry(raw1), migrate_entry(raw2)],
    };

    // Only paid invoices — should show 1 invoice
    let report = build_report(
        &state,
        &example_clients(),
        &"example-client".to_string(),
        None,
        None,
        parse_status_filter("paid"),
        &example_config(),
    )
    .unwrap();
    assert_eq!(report.rows.len(), 1);
    assert_eq!(report.rows[0].number, "INV-2026-0001");
}

#[test]
fn test_list_legacy_entries_default_to_unpaid() {
    let raw = RawHistoryEntry {
        number: "INV-2026-0001".to_string(),
        client: "example-client".to_string(),
        date: d(2026, 1, 10),
        total: 125000,
        file: "INV-2026-0001.pdf".to_string(),
        paid: None,
        payments: Vec::new(),
        items: vec!["consulting:5".to_string()],
    };
    let state = State {
        counter: Counter { last_number: 1, last_year: 2026 },
        history: vec![migrate_entry(raw)],
    };

    let rows = list_rows(&state, None, "$");
    assert_eq!(rows[0].status, "UNPAID");
    let (_, _, outstanding) = list_totals(&state, None).unwrap();
    assert_eq!(format_whole_money(outstanding, "$"), "$ 1,250");
}

#[test]
fn test_list_renders_core_table_regardless_of_network() {
    let raw1 = RawHistoryEntry {
        number: "INV-2026-0001".to_string(),
        client: "example-client".to_string(),
        date: d(2026, 1, 10),
        total: 80000,
        file: "INV-2026-0001.pdf".to_string(),
        paid: Some(true),
        payments: Vec::new(),
        items: vec!["consulting:4".to_string()],
    };
    let raw2 = RawHistoryEntry {
        number: "INV-2026-0002".to_string(),
        client: "example-client".to_string(),
        date: d(2026, 1, 15),
        total: 120000,
        file: "INV-2026-0002.pdf".to_string(),
        paid: Some(false),
        payments: Vec::new(),
        items: vec!["consulting:8".to_string()],
    };
    let state = State {
        counter: Counter { last_number: 2, last_year: 2026 },
        history: vec![migrate_entry(raw1), migrate_entry(raw2)],
    };

    // The core table summary renders from ledger data alone, with no
    // network involved
    let (total, paid, outstanding) = list_totals(&state, None).unwrap();
    let total_s = format_whole_money(total, "$");
    let paid_s = format_whole_money(paid, "$");
    let outstanding_s = format_whole_money(outstanding, "$");
    assert_eq!(total_s, "$ 2,000");
    assert_eq!(paid_s, "$   800");
    assert_eq!(outstanding_s, "$ 1,200");

    // and the financial footer grafts onto a rendered table
    let table = "\u{256d}───┬────────┬──────┬───────┬────────┬────────\u{256e}\n\
                 │ # │ NUMBER │ DATE │ TOTAL │ STATUS │ CLIENT │\n\
                 │ 1 │ x      │ y    │ z     │ s      │ c      │\n\
                 \u{2570}───┴────────┴──────┴───────┴────────┴────────\u{256f}";
    let with_footer = add_financial_footer(table, &total_s, &paid_s, &outstanding_s);
    assert!(with_footer.contains("TOTAL"));
    assert!(with_footer.contains("(-) PAID"));
    assert!(with_footer.contains("(=) OUTSTANDING"));
    assert!(with_footer.contains("$ 2,000"));
    assert!(with_footer.contains("$   800"));
    assert!(with_footer.contains("$ 1,200"));
}

#[test]
fn test_status() {
    // The status display derives the next invoice number from the counter
    let counter = Counter { last_number: 0, last_year: 2026 };
    let (seq, number) = next_invoice_number(&counter, 2026, "INV-{year}-{seq:04}");
    assert_eq!(seq, 1);
    assert_eq!(number, "INV-2026-0001");
    assert!(number.starts_with("INV-"));
}

#[test]
fn test_generate_missing_client() {
    let mut state = State {
        counter: Counter { last_number: 0, last_year: 2026 },
        history: Vec::new(),
    };
    let result = generate_invoice(
        &mut state,
        &"nonexistent".to_string(),
        &vec!["consulting:8".to_string()],
        &example_clients(),
        &example_catalog(),
        &example_config(),
        d(2026, 1, 10),
    );
    match result {
        Err(InvoiceError::ClientNotFound(c)) => assert_eq!(c, "nonexistent"),
        _ => panic!("expected ClientNotFound"),
    }
    assert!(state.history.is_empty());
}

#[test]
fn test_generate_missing_item() {
    let mut state = State {
        counter: Counter { last_number: 0, last_year: 2026 },
        history: Vec::new(),
    };
    let result = generate_invoice(
        &mut state,
        &"example-client".to_string(),
        &vec!["nonexistent:8".to_string()],
        &example_clients(),
        &example_catalog(),
        &example_config(),
        d(2026, 1, 10),
    );
    match result {
        Err(InvoiceError::ItemNotFound(i)) => assert_eq!(i, "nonexistent"),
        _ => panic!("expected ItemNotFound"),
    }
    assert!(state.history.is_empty());
}

#[test]
fn test_generate_invalid_quantity() {
    let mut state = State {
        counter: Counter { last_number: 0, last_year: 2026 },
        history: Vec::new(),
    };
    let result = generate_invoice(
        &mut state,
        &"example-client".to_string(),
        &vec!["consulting:abc".to_string()],
        &example_clients(),
        &example_catalog(),
        &example_config(),
        d(2026, 1, 10),
    );
    match result {
        Err(InvoiceError::InvalidQuantity { item, qty, reason }) => {
            assert_eq!(item, "consulting");
            assert_eq!(qty, "abc");
            assert_eq!(reason, "must be a number");
        },
        _ => panic!("expected InvalidQuantity"),
    }
}
