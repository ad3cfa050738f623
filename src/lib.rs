//! A deterministic counter whose increments and decrements are queued and run
//! later, in priority order, once the epoch they were queued in has passed.
pub mod store;
pub mod instruction;
pub mod state;
pub mod program;
pub mod laws;
