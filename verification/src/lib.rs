//! Enumeration of a host's network interfaces and their addresses.
//!
//! The crate normalizes two differently shaped kinds of operating-system
//! data into one view: a flat list of per-address records that share an
//! interface name (the `posix` module), and a list of per-adapter records
//! that each own a nested list of addresses (the `adapters` module).
//! All merging, flag derivation and address normalization is verified;
//! callers feed in plain records decoded at the process boundary.

pub mod adapters;
pub mod flags;
pub mod iface;
pub mod net;
pub mod posix;
pub mod raw;
pub mod sizing;
