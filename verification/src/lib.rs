//! Finds phone-number-like substrings in a text and counts how often each
//! distinct one occurs.
//!
//! The search itself is done by the `regex` crate; everything that happens to
//! its matches afterwards is verified.

pub mod engine;
pub mod phone;
pub mod tally;

pub use phone::{find_phone_numbers, tally_found, PatternError, PHONE_PATTERN};
pub use tally::{tally_matches, Tally};
