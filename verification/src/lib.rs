//! Aggregation core for a multi-provider game-world population tracker.
//!
//! The library answers "how many players are on world W right now?" by
//! merging the disagreeing readings of several independent upstream
//! population services into one snapshot, and by keeping those snapshots
//! warm in a TTL-bounded cache.
//!
//! Everything that decides or computes lives here and is verified: the
//! per-provider reconciliation rules, the floor-average merge, the
//! cache-aside freshness and write-back policy, and the roster-order
//! assembly of multi-world queries. The surrounding process (HTTP serving,
//! the provider fetches themselves, and an optional SQL-backed store) is
//! ordinary unverified plumbing that feeds plain values into these
//! functions and performs the actions they decide on.

pub mod aggregate;
pub mod cache;
mod clock;
pub mod providers;
pub mod roster;
pub mod types;
