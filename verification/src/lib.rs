//! A configurable three-way payment splitter.
//!
//! A `Splitter` configuration fixes three recipients (merchant, agent,
//! platform) and three integer percentage shares that always sum to 100.
//! Configurations live in a `SplitterStore`, keyed by the authority that
//! created them; only that authority may later change the shares.  The
//! split executor divides an incoming payment among the three recipients
//! by floor division, leaving at most two units of dust with the payer.

pub mod laws;
pub mod splitter;
pub mod split;
pub mod store;
