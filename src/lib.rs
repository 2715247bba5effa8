//! An administrator-controlled balance ledger: per-account non-negative
//! balances that only the current administrator may credit or debit, behind
//! an emergency pause switch that leaves reads available.
//!
//! The ledger is a state machine over plain values. The host that runs it
//! (persistent storage, signature checks, event delivery) stays outside: the
//! host proves who is calling, hands the library that identity, and
//! publishes the notification each successful operation returns.

mod account;
pub mod model;
pub mod wallet;
pub mod laws;

pub use account::AccountId;
pub use model::{DataKey, LedgerError};
pub use wallet::{BalanceEntry, Notification, RentWallet};
