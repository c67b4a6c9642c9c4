//! A verified auction engine for scheduled meetings ("huddles").
//!
//! Hosts offer meeting slots, guests bid escrowed funds for the right to
//! meet a host, and once a slot's deadline has passed the host claims the
//! winning bid's funds; the winning guest may then rate the meeting.
//!
//! The engine is a deterministic state machine.  Every public operation
//! either succeeds, performing exactly the mutations its contract
//! describes, or fails with a typed error and leaves the whole state
//! untouched.  The well-formedness invariant ties the three stores
//! together: reserved funds always match the currently winning bids,
//! huddle identifiers are unique and never reused, and a host is never
//! the winning guest of their own huddle.

pub mod types;

pub mod id_alloc;

pub mod escrow;

pub mod registry;

pub mod ledger;

pub mod engine;

pub mod laws;
