// Concrete checks of the ledger's stated properties: balance arithmetic,
// status classification, migration, sequence allocation, the resolver, the
// overpayment guard, and the two end-to-end scenarios.

use invoice::config::{
    expand_path, global_config_file, resolve_output_dir, Client, Company, Config, InvoiceSettings,
    Item, PdfSettings,
};
use invoice::date::Date;
use invoice::error::InvoiceError;
use invoice::items::parse_item_input;
use invoice::lifecycle::{add_payment, generate_invoice, regenerate_invoice, remove_payment,
    get_invoice_path};
use invoice::money::{
    format_cents_plain, format_grouped_int, format_report_amount, format_whole_money,
    round_half_up,
};
use invoice::report::parse_status_filter;
use invoice::resolver::resolve_invoice_number;
use invoice::sequence::{format_invoice_number, next_seq};
use invoice::state::{
    migrate_entry, Counter, HistoryEntry, Payment, PaymentStatus, RawHistoryEntry, State,
};

fn d(year: u32, month: u32, day: u32) -> Date {
    Date { year, month, day }
}

fn company() -> Company {
    Company {
        name: "Acme".to_string(),
        address: "1 Road".to_string(),
        city: "Town".to_string(),
        state: "TS".to_string(),
        zip: "00000".to_string(),
        country: "Nowhere".to_string(),
        email: "acme@example.com".to_string(),
        phone: None,
        tax_id: None,
    }
}

fn clients() -> Vec<(String, Client)> {
    vec![(
        "acme-client".to_string(),
        Client {
            name: "Acme Client".to_string(),
            contact: None,
            email: "client@example.com".to_string(),
            address: "2 Road".to_string(),
            city: "Town".to_string(),
            state: "TS".to_string(),
            zip: "00001".to_string(),
            country: None,
        },
    )]
}

fn catalog() -> Vec<(String, Item)> {
    vec![
        (
            "consulting".to_string(),
            Item {
                description: "Consulting".to_string(),
                rate: 25000,
                unit: "hour".to_string(),
            },
        ),
        (
            "pricey".to_string(),
            Item {
                description: "Very Expensive".to_string(),
                rate: 1_000_000_000,
                unit: "unit".to_string(),
            },
        ),
    ]
}

fn config_with_tax(tax_rate: u32) -> Config {
    Config {
        company: company(),
        invoice: InvoiceSettings {
            number_format: "INV-{year}-{seq:04}".to_string(),
            currency: "USD".to_string(),
            currency_symbol: "$".to_string(),
            due_days: 30,
            tax_rate,
        },
        pdf: PdfSettings { output_dir: "./output".to_string() },
    }
}

fn paid_entry(number: &str, total: i64, payments: Vec<i64>) -> HistoryEntry {
    HistoryEntry {
        number: number.to_string(),
        client: "acme-client".to_string(),
        date: d(2026, 2, 1),
        total,
        file: format!("{}.pdf", number),
        payments: payments
            .into_iter()
            .map(|amount| Payment { amount, date: d(2026, 2, 2) })
            .collect(),
        items: vec!["consulting:1".to_string()],
    }
}

// Paid amount plus outstanding balance always recombine to the total
#[test]
fn paid_plus_outstanding_is_total() {
    for payments in [vec![], vec![100], vec![2500, 7499], vec![1, 2, 3]] {
        let e = paid_entry("INV-2026-0001", 10000, payments);
        assert_eq!(e.paid_amount() + e.outstanding(), e.total);
    }
}

// Status bounds: PAID means nothing outstanding, UNPAID means nothing paid
#[test]
fn status_matches_balances() {
    let unpaid = paid_entry("INV-2026-0001", 10000, vec![]);
    assert_eq!(unpaid.status(), PaymentStatus::Unpaid);
    assert_eq!(unpaid.paid_amount(), 0);

    let partial = paid_entry("INV-2026-0002", 10000, vec![1]);
    assert_eq!(partial.status(), PaymentStatus::Partial);

    let paid = paid_entry("INV-2026-0003", 10000, vec![10000]);
    assert_eq!(paid.status(), PaymentStatus::Paid);
    assert_eq!(paid.outstanding(), 0);

    // a zero-total invoice with no payments is UNPAID, not PAID
    let zero = paid_entry("INV-2026-0004", 0, vec![]);
    assert_eq!(zero.status(), PaymentStatus::Unpaid);
}

// Legacy migration synthesizes one full payment and is idempotent
#[test]
fn migration_is_idempotent() {
    let raw = RawHistoryEntry {
        number: "INV-2025-0007".to_string(),
        client: "acme-client".to_string(),
        date: d(2025, 6, 1),
        total: 34500,
        file: "INV-2025-0007.pdf".to_string(),
        paid: Some(true),
        payments: Vec::new(),
        items: Vec::new(),
    };
    let once = migrate_entry(raw);
    assert_eq!(once.payments.len(), 1);
    assert_eq!(once.payments[0].amount, 34500);
    assert_eq!(once.payments[0].date, d(2025, 6, 1));

    // feeding the migrated entry back through migration changes nothing,
    // whether or not the stale legacy flag is still present on disk
    for stale_flag in [Some(true), Some(false), None] {
        let again = migrate_entry(RawHistoryEntry {
            number: once.number.clone(),
            client: once.client.clone(),
            date: once.date,
            total: once.total,
            file: once.file.clone(),
            paid: stale_flag,
            payments: once.payments.clone(),
            items: once.items.clone(),
        });
        assert_eq!(again.payments, once.payments);
        assert_eq!(again.total, once.total);
    }

    // an entry that was never paid migrates to no payments at all
    let untouched = migrate_entry(RawHistoryEntry {
        number: "INV-2025-0008".to_string(),
        client: "acme-client".to_string(),
        date: d(2025, 6, 2),
        total: 1000,
        file: "INV-2025-0008.pdf".to_string(),
        paid: Some(false),
        payments: Vec::new(),
        items: Vec::new(),
    });
    assert!(untouched.payments.is_empty());
}

// Sequence allocation increments within a year and resets on a year change
#[test]
fn sequence_allocation_never_repeats() {
    let c = Counter { last_number: 41, last_year: 2026 };
    assert_eq!(next_seq(&c, 2026), 42);
    let committed = Counter { last_number: 42, last_year: 2026 };
    assert_eq!(next_seq(&committed, 2026), 43);
    // reset to 1 on year change, no matter how high the counter stood
    let high = Counter { last_number: 9999, last_year: 2026 };
    assert_eq!(next_seq(&high, 2027), 1);
}

// Resolver: index 0 and out-of-range indexes are InvalidIndex, unknown
// strings are NotFound, index 1 is the most recently appended entry
#[test]
fn resolver_classifies_references() {
    let state = State {
        counter: Counter { last_number: 2, last_year: 2026 },
        history: vec![
            paid_entry("INV-2026-0001", 10000, vec![]),
            paid_entry("INV-2026-0002", 20000, vec![]),
        ],
    };
    assert!(matches!(
        resolve_invoice_number(&state, "0"),
        Err(InvoiceError::InvalidInvoiceIndex(s)) if s == "0"
    ));
    assert!(matches!(
        resolve_invoice_number(&state, "3"),
        Err(InvoiceError::InvalidInvoiceIndex(s)) if s == "3"
    ));
    assert!(matches!(
        resolve_invoice_number(&state, "INV-1999-0001"),
        Err(InvoiceError::InvoiceNotFound(s)) if s == "INV-1999-0001"
    ));
    // index 1 resolves to the most recently appended entry
    assert_eq!(resolve_invoice_number(&state, "1").unwrap(), "INV-2026-0002");
    assert_eq!(resolve_invoice_number(&state, "2").unwrap(), "INV-2026-0001");
    // a literal known number resolves to itself
    assert_eq!(resolve_invoice_number(&state, "INV-2026-0001").unwrap(), "INV-2026-0001");
    // a huge numeric string is treated as a literal, not an index
    assert!(matches!(
        resolve_invoice_number(&state, "99999999999999999999999999"),
        Err(InvoiceError::InvoiceNotFound(_))
    ));
    // on an empty ledger every index is invalid and every number unknown
    let empty = State::empty(2026);
    assert!(matches!(
        resolve_invoice_number(&empty, "1"),
        Err(InvoiceError::InvalidInvoiceIndex(_))
    ));
    assert!(matches!(
        resolve_invoice_number(&empty, "INV-2026-0001"),
        Err(InvoiceError::InvoiceNotFound(_))
    ));
}

// Overpayment guard: one cent over fails, the exact balance succeeds and
// flips the status to PAID
#[test]
fn overpayment_guard_is_exact() {
    let mut state = State {
        counter: Counter { last_number: 1, last_year: 2026 },
        history: vec![paid_entry("INV-2026-0001", 10000, vec![4000])],
    };
    let outstanding = state.history[0].outstanding();
    assert_eq!(outstanding, 6000);

    let number = "INV-2026-0001".to_string();
    let over = add_payment(&mut state, &number, outstanding + 1, d(2026, 3, 1));
    match over {
        Err(InvoiceError::OverPayment { invoice, max }) => {
            assert_eq!(invoice, "INV-2026-0001");
            assert_eq!(max, 6000);
        },
        _ => panic!("expected OverPayment"),
    }

    let remaining = add_payment(&mut state, &number, outstanding, d(2026, 3, 1)).unwrap();
    assert_eq!(remaining, 0);
    assert_eq!(state.history[0].status(), PaymentStatus::Paid);
}

// End-to-end: generate, pay in two parts, remove the last payment
#[test]
fn lifecycle_scenario_partial_payments() {
    let mut state = State::empty(2026);

    let data = generate_invoice(
        &mut state,
        &"acme-client".to_string(),
        &vec!["consulting:4".to_string()],
        &clients(),
        &catalog(),
        &config_with_tax(0),
        d(2026, 1, 10),
    )
    .unwrap();
    assert_eq!(data.total, 100000);
    assert_eq!(state.counter.last_number, 1);
    assert_eq!(state.history.len(), 1);
    assert_eq!(state.history[0].number, "INV-2026-0001");
    assert_eq!(state.history[0].total, 100000);

    let number = state.history[0].number.clone();
    add_payment(&mut state, &number, 40000, d(2026, 1, 20)).unwrap();
    assert_eq!(state.history[0].status(), PaymentStatus::Partial);
    assert_eq!(state.history[0].outstanding(), 60000);

    add_payment(&mut state, &number, 60000, d(2026, 1, 25)).unwrap();
    assert_eq!(state.history[0].status(), PaymentStatus::Paid);
    assert_eq!(state.history[0].outstanding(), 0);

    remove_payment(&mut state, &number, None).unwrap();
    assert_eq!(state.history[0].status(), PaymentStatus::Partial);
    assert_eq!(state.history[0].outstanding(), 60000);
}

// End-to-end: a year rollover resets the sequence to 1, not 8
#[test]
fn lifecycle_scenario_year_rollover() {
    let mut state = State {
        counter: Counter { last_number: 7, last_year: 2025 },
        history: Vec::new(),
    };
    let data = generate_invoice(
        &mut state,
        &"acme-client".to_string(),
        &vec!["consulting:1".to_string()],
        &clients(),
        &catalog(),
        &config_with_tax(0),
        d(2026, 1, 5),
    )
    .unwrap();
    assert_eq!(state.counter.last_number, 1);
    assert_eq!(state.counter.last_year, 2026);
    assert_eq!(data.number, "INV-2026-0001");
}

#[test]
fn rounding_is_half_up() {
    assert_eq!(round_half_up(12345, 10), 1235);
    assert_eq!(round_half_up(12344, 10), 1234);
    assert_eq!(round_half_up(5, 10), 1);
    assert_eq!(round_half_up(4, 10), 0);
    assert_eq!(round_half_up(1500, 1000), 2);
}

#[test]
fn grouped_formatting() {
    assert_eq!(format_grouped_int(0), "0");
    assert_eq!(format_grouped_int(999), "999");
    assert_eq!(format_grouped_int(1000), "1,000");
    assert_eq!(format_grouped_int(1234567), "1,234,567");
    assert_eq!(format_grouped_int(-1234567), "-1,234,567");
    assert_eq!(format_whole_money(123456, "$"), "$ 1,235");
    assert_eq!(format_whole_money(50, "$"), "$     1");
    assert_eq!(format_report_amount(123456789), "1,234,567.89");
    assert_eq!(format_report_amount(-50), "-0.50");
    assert_eq!(format_cents_plain(70000), "700.00");
    assert_eq!(format_cents_plain(5), "0.05");
}

#[test]
fn invoice_number_templates() {
    assert_eq!(format_invoice_number("INV-{year}-{seq:04}", 2026, 12), "INV-2026-0012");
    assert_eq!(format_invoice_number("{seq:03}", 2026, 7), "007");
    assert_eq!(format_invoice_number("{seq:05}", 2026, 12345), "12345");
    assert_eq!(format_invoice_number("{seq:04}", 2026, 123456), "123456");
    // unrecognized tokens pass through unchanged
    assert_eq!(format_invoice_number("A-{unknown}-{year}", 2026, 1), "A-{unknown}-2026");
}

#[test]
fn item_token_parsing() {
    let (id, qty, mils) = parse_item_input("consulting:8").unwrap();
    assert_eq!(id, "consulting");
    assert_eq!(qty, "8");
    assert_eq!(mils, 8000);

    let (_, _, mils) = parse_item_input("consulting:2.5").unwrap();
    assert_eq!(mils, 2500);
    let (_, _, mils) = parse_item_input("consulting:0.125").unwrap();
    assert_eq!(mils, 125);
    let (_, _, mils) = parse_item_input("consulting:+3.").unwrap();
    assert_eq!(mils, 3000);

    assert!(matches!(
        parse_item_input("consulting"),
        Err(InvoiceError::InvalidItemFormat(t)) if t == "consulting"
    ));
    assert!(matches!(
        parse_item_input("a:b:c"),
        Err(InvoiceError::InvalidItemFormat(_))
    ));
    assert!(matches!(
        parse_item_input("consulting:abc"),
        Err(InvoiceError::InvalidQuantity { reason, .. }) if reason == "must be a number"
    ));
    assert!(matches!(
        parse_item_input("consulting:0"),
        Err(InvoiceError::InvalidQuantity { reason, .. }) if reason == "must be greater than 0"
    ));
    assert!(matches!(
        parse_item_input("consulting:-5"),
        Err(InvoiceError::InvalidQuantity { reason, .. }) if reason == "must be greater than 0"
    ));
    assert!(matches!(
        parse_item_input("consulting:2000000"),
        Err(InvoiceError::InvalidQuantity { reason, .. }) if reason == "exceeds the supported range"
    ));
    assert!(matches!(
        parse_item_input("consulting:."),
        Err(InvoiceError::InvalidQuantity { reason, .. }) if reason == "must be a number"
    ));
}

#[test]
fn amounts_beyond_the_supported_range_are_rejected() {
    let mut state = State::empty(2026);
    // one million units at ten million dollars a unit is past the cap
    let result = generate_invoice(
        &mut state,
        &"acme-client".to_string(),
        &vec!["pricey:1000000".to_string()],
        &clients(),
        &catalog(),
        &config_with_tax(0),
        d(2026, 1, 10),
    );
    assert!(matches!(result, Err(InvoiceError::AmountOverflow)));
    assert!(state.history.is_empty());
}

#[test]
fn tax_is_rounded_once() {
    let mut state = State::empty(2026);
    // 4 hours at $250 with 8.25% tax: 1000.00 + 82.50
    let data = generate_invoice(
        &mut state,
        &"acme-client".to_string(),
        &vec!["consulting:4".to_string()],
        &clients(),
        &catalog(),
        &config_with_tax(825),
        d(2026, 1, 10),
    )
    .unwrap();
    assert_eq!(data.subtotal, 100000);
    assert_eq!(data.tax_amount, 8250);
    assert_eq!(data.total, 108250);
    assert_eq!(data.payment_terms, "Net 30 days");
}

#[test]
fn regenerate_replaces_items_and_total() {
    let mut state = State::empty(2026);
    generate_invoice(
        &mut state,
        &"acme-client".to_string(),
        &vec!["consulting:4".to_string()],
        &clients(),
        &catalog(),
        &config_with_tax(0),
        d(2026, 1, 10),
    )
    .unwrap();
    let number = state.history[0].number.clone();
    add_payment(&mut state, &number, 50000, d(2026, 1, 20)).unwrap();

    // editing the items recomputes the total but keeps number, date, payments
    let new_items = vec!["consulting:2".to_string()];
    let data = regenerate_invoice(
        &mut state,
        &number,
        Some(&new_items),
        &clients(),
        &catalog(),
        &config_with_tax(0),
    )
    .unwrap();
    assert_eq!(data.total, 50000);
    assert_eq!(state.history[0].total, 50000);
    assert_eq!(state.history[0].items, new_items);
    assert_eq!(state.history[0].number, number);
    assert_eq!(state.history[0].date, d(2026, 1, 10));
    assert_eq!(state.history[0].payments.len(), 1);

    // regenerating without new items leaves the ledger untouched
    let before_total = state.history[0].total;
    let data = regenerate_invoice(
        &mut state,
        &number,
        None,
        &clients(),
        &catalog(),
        &config_with_tax(0),
    )
    .unwrap();
    assert_eq!(data.total, 50000);
    assert_eq!(state.history[0].total, before_total);
}

#[test]
fn regenerate_without_stored_items_fails() {
    let mut state = State {
        counter: Counter { last_number: 1, last_year: 2026 },
        history: vec![HistoryEntry {
            number: "INV-2026-0001".to_string(),
            client: "acme-client".to_string(),
            date: d(2026, 1, 10),
            total: 10000,
            file: "INV-2026-0001.pdf".to_string(),
            payments: Vec::new(),
            items: Vec::new(),
        }],
    };
    let result = regenerate_invoice(
        &mut state,
        "INV-2026-0001",
        None,
        &clients(),
        &catalog(),
        &config_with_tax(0),
    );
    assert!(matches!(
        result,
        Err(InvoiceError::NoStoredItems(s)) if s == "INV-2026-0001"
    ));
}

#[test]
fn payment_errors_carry_their_context() {
    let mut state = State {
        counter: Counter { last_number: 1, last_year: 2026 },
        history: vec![paid_entry("INV-2026-0001", 10000, vec![])],
    };
    let number = "INV-2026-0001".to_string();
    assert!(matches!(
        add_payment(&mut state, &number, 0, d(2026, 1, 1)),
        Err(InvoiceError::InvalidPaymentAmount)
    ));
    assert!(matches!(
        add_payment(&mut state, &number, -5, d(2026, 1, 1)),
        Err(InvoiceError::InvalidPaymentAmount)
    ));
    assert!(matches!(
        add_payment(&mut state, "INV-0000-0000", 100, d(2026, 1, 1)),
        Err(InvoiceError::InvoiceNotFound(s)) if s == "INV-0000-0000"
    ));
    assert!(matches!(
        remove_payment(&mut state, &number, None),
        Err(InvoiceError::NoPayments(s)) if s == "INV-2026-0001"
    ));
    add_payment(&mut state, &number, 100, d(2026, 1, 1)).unwrap();
    match remove_payment(&mut state, &number, Some(2)) {
        Err(InvoiceError::InvalidPaymentIndex { invoice, index, count }) => {
            assert_eq!(invoice, "INV-2026-0001");
            assert_eq!(index, 2);
            assert_eq!(count, 1);
        },
        _ => panic!("expected InvalidPaymentIndex"),
    }
    assert!(matches!(
        remove_payment(&mut state, &number, Some(0)),
        Err(InvoiceError::InvalidPaymentIndex { .. })
    ));
}

#[test]
fn paths_compose_from_plain_values() {
    let home = Some("/home/sam".to_string());
    assert_eq!(expand_path("~/invoices", &home), "/home/sam/invoices");
    assert_eq!(expand_path("~/invoices", &None), "~/invoices");
    assert_eq!(expand_path("/abs/path", &home), "/abs/path");
    assert_eq!(resolve_output_dir("./output", "/cfg", &home), "/cfg/./output");
    assert_eq!(resolve_output_dir("/out", "/cfg", &home), "/out");
    assert_eq!(resolve_output_dir("~/out", "/cfg", &home), "/home/sam/out");
    assert_eq!(global_config_file(&home), "/home/sam/.config/invoicing.toml");
    assert_eq!(global_config_file(&None), "~/.config/invoicing.toml");

    let state = State {
        counter: Counter { last_number: 1, last_year: 2026 },
        history: vec![paid_entry("INV-2026-0001", 10000, vec![])],
    };
    let config = config_with_tax(0);
    let path = get_invoice_path(&config, &state, "/cfg", &home, "INV-2026-0001").unwrap();
    assert_eq!(path, "/cfg/./output/INV-2026-0001.pdf");
    assert!(matches!(
        get_invoice_path(&config, &state, "/cfg", &home, "INV-0000-0000"),
        Err(InvoiceError::InvoiceNotFound(_))
    ));
}

#[test]
fn dates_order_and_render() {
    let a = d(2025, 12, 31);
    let b = d(2026, 1, 1);
    assert!(a.le(&b));
    assert!(!b.le(&a));
    assert!(b.le(&b));
    assert_eq!(b.to_iso_string(), "2026-01-01");
    assert_eq!(d(800, 7, 9).to_iso_string(), "0800-07-09");
}

#[test]
fn status_filters_parse_exactly() {
    assert_eq!(parse_status_filter("paid"), Some(PaymentStatus::Paid));
    assert_eq!(parse_status_filter("unpaid"), Some(PaymentStatus::Unpaid));
    assert_eq!(parse_status_filter("partial"), Some(PaymentStatus::Partial));
    assert_eq!(parse_status_filter("PAID"), None);
    assert_eq!(parse_status_filter(""), None);
    assert_eq!(parse_status_filter("done"), None);
}

#[test]
fn ledger_wellformedness_is_checked() {
    let good = State {
        counter: Counter { last_number: 1, last_year: 2026 },
        history: vec![paid_entry("INV-2026-0001", 10000, vec![5000])],
    };
    assert!(good.is_wf());

    let mut bad = good.clone();
    bad.history[0].payments[0].amount = -1;
    assert!(!bad.is_wf());

    let mut negative_total = good.clone();
    negative_total.history[0].total = -1;
    assert!(!negative_total.is_wf());
}
