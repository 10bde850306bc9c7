//! A personal finance ledger whose account balances are kept in exact
//! agreement with the income and expense rows posted against them.
//!
//! `model` holds the mathematical state of a ledger and its transitions,
//! `ledger` the executable store, and `laws` what is proved of both.

pub mod model;
pub mod ledger;
pub mod laws;
