//! An in-memory, per-room counter of analytics events.
//!
//! `store` holds the counter mapping from room identifier to count, and
//! `intake` decides, for one decoded event, whether that mapping changes.
pub mod intake;
pub mod store;
