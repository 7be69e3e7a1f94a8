//! An append-only ledger of transactions grouped into proof-of-work-sealed
//! blocks, replicated across peers that reconcile diverging histories by a
//! longest-valid-chain rule.
//!
//! The crate verifies the ledger engine itself: block construction, canonical
//! serialization and chain-linking by digest, proof-of-work search and
//! checking, chain validation, and conflict resolution over peer snapshots.
//! Network transport and JSON marshaling live outside the library.

pub mod encoding;
pub mod hashing;
pub mod ledger;
