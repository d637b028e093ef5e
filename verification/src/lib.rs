//! Quick reconnection to remote hosts: host aliases declared in the client
//! configuration are merged with a log of recent connection attempts into one
//! ranked candidate list, and a multiplexed client session is launched for the
//! chosen alias.
//!
//! Everything here computes on plain values. Reading and writing files,
//! reading the clock, asking the user and running the client are left to
//! the caller, which the [`flow`] module tells what to do next. The one
//! outside work done here is chrono's: reading a timestamp from its text and
//! writing it, in [`stamp`].

pub mod config;
pub mod error;
pub mod flow;
pub mod history;
pub mod ranker;
pub mod recency;
pub mod session;
pub mod stamp;
pub mod text;
