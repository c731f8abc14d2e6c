//! Verified escrow engine for job-style engagements: a payer locks funds,
//! optionally assigns a payee, and the record is then released, cancelled,
//! or arbitrated to a final disposition.
//!
//! `ledger` models the value-transfer collaborator as an in-memory balance
//! book; `escrow` holds the lifecycle state machine and dispute resolution.

pub mod escrow;
pub mod ledger;
