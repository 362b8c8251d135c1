//! The error taxonomy of the ledger. Paths and foreign diagnostics are held
//! as plain strings; monetary fields are cents.

use vstd::prelude::*;

verus! {

/// Everything a ledger or lifecycle operation can fail with.
#[derive(Debug, Clone)]
pub enum InvoiceError {
    /// The config directory does not exist.
    ConfigNotFound(String),
    /// A required config file does not exist.
    ConfigFileNotFound(String),
    /// A config file could not be parsed.
    ConfigParse { path: String, source: String },
    /// The client id is not in the client catalog.
    ClientNotFound(String),
    /// The item id is not in the item catalog.
    ItemNotFound(String),
    /// A line-item quantity was rejected.
    InvalidQuantity { item: String, qty: String, reason: String },
    /// A line-item token is not of the form `item:quantity`.
    InvalidItemFormat(String),
    /// No line items were supplied.
    NoItems,
    /// The rendering engine is not installed.
    TypstNotFound,
    /// The rendering engine failed.
    PdfGeneration(String),
    /// A filesystem operation failed.
    Io(String),
    /// The config directory already exists.
    AlreadyInitialized(String),
    /// No ledger entry carries the given invoice number.
    InvoiceNotFound(String),
    /// A display index is zero or beyond the history length.
    InvalidInvoiceIndex(String),
    /// The entry predates item tracking and stores no line items.
    NoStoredItems(String),
    /// The rendered artifact for an invoice is missing.
    InvoiceFileNotFound(String),
    /// The payment would push the balance below zero; `max` is the
    /// outstanding amount in cents.
    OverPayment { invoice: String, max: i64 },
    /// The entry has no payments to remove.
    NoPayments(String),
    /// A payment index is zero or beyond the payment count.
    InvalidPaymentIndex { invoice: String, index: usize, count: usize },
    /// A payment amount must be greater than zero.
    InvalidPaymentAmount,
    /// A computed amount exceeds the supported range of the ledger.
    AmountOverflow,
}

} // verus!
