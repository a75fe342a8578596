//! A decentralized-oracle settlement engine.
//!
//! Markets collect independent numeric reports about an outcome.  Once a
//! market closes, the resolution algorithm decides whether the reports agree
//! closely enough to constitute consensus; if so the market is settled, and
//! the settlement is handed to an external ledger through a transactional
//! outbox with bounded retries.  Settlements are aggregated under a single
//! Merkle commitment before anchoring.
//!
//! The store is a plain in-memory value whose transitions mirror the
//! conditional, transactional updates of a relational store: a transition
//! whose guard does not hold is a silent no-op, so repeated scheduler ticks
//! are safe.  Every transition is specified against a ghost model of the
//! store and preserves its invariants.

pub mod bytes;
pub mod hashing;
pub mod merkle;
pub mod resolution;
pub mod codec;
pub mod records;
pub mod store;
pub mod lifecycle;
pub mod batching;
pub mod outbox;
pub mod audit;
