//! A resumable, idempotent bulk-payout distribution engine for a ledger of
//! token transfers: allocation merging, reconciliation against a persisted
//! transaction ledger, transaction submission ordering, and a finalization
//! polling state machine that never double-pays a recipient across runs.

pub mod client;
pub mod engine;
pub mod ledger;
pub mod merge;
pub mod reconcile;
pub mod sdk;
pub mod types;
