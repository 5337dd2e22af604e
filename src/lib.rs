//! Storage rules of a personal-finance ledger: accounts, categories and
//! transactions, with exact currency amounts, soft deletion, a protected
//! system category and the listing orders that callers rely on.
//!
//! A [`ledger::Ledger`] holds the three tables as values; every store
//! operation takes it, as it would take a connection, and either answers
//! from it or changes the one row that the operation concerns. Writing the
//! tables to a file and reading them back is left to the caller.
//!
//! - `money`: exact decimals, and their conversion to and from cents.
//! - `text`, `listing`: how names and dates compare, and the listing order.
//! - `accounts`, `categories`, `transactions`: the three stores.
//! - `ledger`: the tables together, new-row ids, storage errors.
//! - `laws`: properties that hold across several operations.
pub mod money;
pub mod text;
pub mod listing;
pub mod ledger;
pub mod accounts;
pub mod categories;
pub mod transactions;
pub mod laws;
