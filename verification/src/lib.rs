//! Policy compilation engine for a per-user, per-day focus daemon.
//!
//! The library computes, from a weekly schedule and ad-hoc single-day
//! extension files, the effective time-of-day windows during which a
//! binary may run or a domain may be reached. The heart is an interval
//! algebra over minutes of one calendar day; around it stand a weekly
//! schedule resolver, a source cache with day-based eviction, and the
//! compiler that merges all valid sources into one immutable snapshot.

pub mod algebra;
pub mod cache;
pub mod compiler;
pub mod interval;
pub mod notify;
pub mod schedule;
pub mod types;
pub mod uid_resolver;

use vstd::prelude::*;

verus! {

/// Runtime options of the daemon: whether to drive the firewall, the port
/// the policy server listens on, and where the configuration lives.
#[derive(Debug)]
pub struct Options {
    pub ip_tables: bool,
    pub port: u16,
    pub main_config: String,
    pub extensions_dir: String,
}

} // verus!
