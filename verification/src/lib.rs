//! Core of an HTTP response-transformation filter.
//!
//! Given a declarative configuration, the filter mutates outgoing response
//! headers (adding new occurrences or overwriting existing ones, with values
//! optionally resolved from a per-request property store) and can replace the
//! whole response body with a fixed payload, stripping `Content-Length` and
//! pausing intermediate chunks so that only the replacement is ever emitted.
//!
//! The host proxy drives the filter through per-request callbacks; the glue
//! binding these types to a concrete host lives outside this crate.

pub mod bytes;
pub mod body;
pub mod config;
pub mod filter;
pub mod headers;
pub mod json;
pub mod laws;
pub mod resolve;
pub mod store;
