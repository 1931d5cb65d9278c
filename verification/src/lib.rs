//! A task-tracking cache and single-slot job scheduler for opportunistic
//! proof upgrades of pending ledger transactions.
//!
//! The library watches a pending-transaction pool through observations that
//! the surrounding service hands in, keeps a cache of transactions whose
//! proof is still in the expensive intermediate form, and drives a single
//! cancellable background upgrade job at a time.
//!
//! - [`tasks`] holds the candidate cache: which transactions are still
//!   eligible for an upgrade, each with the chain state it was last observed
//!   against.
//! - [`prover`] holds the single-slot job scheduler: at most one upgrade
//!   computation is in flight, and it is cancelled as soon as its target
//!   leaves the cache.
//! - [`flow`] ties the two together: it folds a batch of pool observations
//!   into the cache and exposes the scheduling tick.
//!
//! All I/O — polling the node, spawning the upgrade computation, submitting
//! the upgraded transaction — stays with the caller; the library only
//! decides, and reports every decision as an event or an action value.

pub mod flow;
pub mod prover;
pub mod tasks;
