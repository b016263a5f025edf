//! Core of a scan-cycle runtime for industrial automation programs:
//! tagged values and variable storage, debug stop coordination, a
//! time-series historian with alert rules, a content-addressed local
//! package registry, a pairing-token store, and the pure parts of the
//! conformance harness and I/O driver configuration.

pub mod clock;
pub mod conformance;
pub mod crypto;
pub mod debugstop;
pub mod fbits;
pub mod globpat;
pub mod historian;
pub mod mqttcfg;
pub mod opcua;
pub mod pairing;
pub mod registry;
pub mod security;
pub mod strutil;
pub mod value;
