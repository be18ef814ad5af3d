//! Verified core of a network-interface introspection engine.
//!
//! The library reconstructs a consistent data model of a host's network
//! interfaces — link state, addressing, driver identity, hardware counters —
//! and correlates each interface with its underlying PCI device.  All
//! algorithmic parts (parsers, classifiers, the filter predicate, the
//! correlator and its fallback chain) live here and carry proved contracts;
//! the operating-system queries that feed them raw values live outside the
//! library.

pub mod catalog;
pub mod features;
pub mod filter;
pub mod flags;
pub mod netaddr;
pub mod nic;
pub mod pci;
pub mod record;
pub mod stats;
pub mod strutil;
