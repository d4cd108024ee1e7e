//! Stepping a value through a discrete list of preset values.
//!
//! The core is [`resolve::resolve_new_value`]: given a direction, the current
//! value and the candidate values, it picks the candidate to move to.
//! [`config`] turns the text of a candidate file into the candidate list.
pub mod config;
pub mod direction;
pub mod laws;
pub mod resolve;

pub use direction::Direction;
