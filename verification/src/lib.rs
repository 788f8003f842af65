//! Verified core of an SNMP data collector: OID parsing, request encoding,
//! response decoding, reading construction, the collector's value buffer and round-robin routing,
//! the collection schedule and the configuration model.

pub mod decimal;
pub mod oid;
pub mod reading;
pub mod request;
pub mod response;
pub mod collector;
pub mod schedule;
pub mod settings;
