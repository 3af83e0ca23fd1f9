//! Badge Forge: a verified gamification core.
//!
//! The library computes a user's level from activity counters, assigns
//! tiered and streak badges from the user's activity history, and keeps
//! the bookkeeping of a bounded update queue: which update requests have
//! been submitted and not yet confirmed processed.

pub mod badge;
pub mod badges;
pub mod calendar;
pub mod level;
pub mod processor;
pub mod queue;
pub mod recipe;
pub mod request;
pub mod user;
