//! A personal-finance ledger: recurring monthly expenses, an income figure and
//! the net worth derived from them.

pub mod calendar;
pub mod expense;
pub mod json;
pub mod ledger;
pub mod storage;
