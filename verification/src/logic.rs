//! The domain model, the calculation engine, the scheduling and the event log.

pub mod calc;
pub mod dates;
pub mod events;
pub mod order;
pub mod schedule;
pub mod types;
