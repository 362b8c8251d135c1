//! A small-business invoicing ledger: sequential invoice numbers per calendar
//! year, line items and monetary totals, partial payments against each
//! invoice, and a derived payment status. Money is held as a whole number of
//! cents, so every comparison in the ledger is exact.

pub mod config;
pub mod date;
pub mod error;
pub mod items;
pub mod lifecycle;
pub mod listing;
pub mod money;
pub mod report;
pub mod resolver;
pub mod sequence;
pub mod state;
pub mod strings;
