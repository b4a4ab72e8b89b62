//! Core of a concurrent TCP port scanner: lazy target enumeration, outcome
//! classification, adaptive timeouts, the dispatch state machine and the
//! aggregation of results, each with a machine-checked contract.

pub mod address;
pub mod engine;
pub mod params;
pub mod ports;
pub mod probe;
pub mod range;
pub mod report;
pub mod skipping;
pub mod timing;
