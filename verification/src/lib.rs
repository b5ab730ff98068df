//! Progress tracking for card collections: how many cards and requests an
//! upgrade still needs, how long that takes, and in which order the upgrades
//! complete when they are worked off one after the other.
//!
//! The state is event sourced: every change is an event in an append-only
//! log, and the current cards are the fold of that log.

pub mod constants;
pub mod logic;
