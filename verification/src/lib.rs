//! A personal finance ledger: income and expense entries, a spending limit
//! per category, sums and a report by category, and a plain-text storage
//! format.
//!
//! Amounts are whole numbers of cents. The ledger is
//! [`tracker::FinanceTracker`]; what it means is stated over
//! [`ledger::LedgerView`]. File access and the dialogue with the user are
//! left to the caller: the ledger writes and reads text, and [`menu`] holds
//! what the dialogue decides.

pub mod amount;
pub mod decimal;
pub mod ledger;
pub mod menu;
pub mod storage;
pub mod storage_proofs;
pub mod text;
pub mod tracker;
pub mod transaction;

pub use ledger::BudgetStatus;
pub use tracker::{BreakdownRow, Budget, FinanceTracker, Summary};
pub use transaction::{Transaction, TransactionType};
