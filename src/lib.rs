//! Responder side of DNS error reporting (RFC 9567): decoding of report
//! query names and the per-request decision of the reporting agent.

pub mod agent;
pub mod name;
pub mod report;
