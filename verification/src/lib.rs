//! A deterministic state machine for running a time-bounded poll: registering
//! candidates, recording one vote per (poll, candidate, voter) triple, and
//! tallying results.
//!
//! Storage slots are never allocated: every entity lives at an address derived
//! purely from its identifying fields ([`address`]), a keyed store rejects
//! address collisions ([`store`]), and the four operations of the ledger
//! validate their preconditions against the current state and the host clock
//! before they mutate anything ([`ledger`]). Double voting is prevented
//! without any lookup table: the creation of a vote receipt at its derived
//! address failing with "already exists" is itself the guard.

pub mod address;
pub mod entity;
pub mod laws;
pub mod ledger;
pub mod store;
