//! Incremental mirroring of bank-account transactions into a personal-finance
//! ledger: account mirroring, merchant-description normalization, transaction
//! classification, internal-transfer reconciliation, posting construction and
//! sync-window planning.
//!
//! Everything here is pure decision logic over plain values; the surrounding
//! program performs the network and file work and feeds the results in.

pub mod classify;
pub mod date;
pub mod mirror;
pub mod money;
pub mod normalize;
pub mod orchestrate;
pub mod posting;
pub mod reconcile;
pub mod text;
