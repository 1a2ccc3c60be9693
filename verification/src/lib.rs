//! Verified core of a Rainmeter plugin adapter.
//!
//! A host application drives plugins through a fixed table of entry points
//! that exchange raw pointers and null-terminated wide-character strings.
//! Everything in that exchange that is pure computation lives here, proved:
//!
//! - [`codec`]: the wide-string codec that marshals text to and from the
//!   host's null-terminated UTF-16 wire form;
//! - [`instances`]: the table of per-instance plugin state, advanced by the
//!   lifecycle calls and keyed by the handle returned on initialisation;
//! - [`barrier`]: the failure-isolation decisions taken when a plugin hook
//!   terminates abnormally inside an entry point;
//! - [`host`]: the level and query codes understood by the host's logging
//!   and data-retrieval calls.
//!
//! The thin unverified shell around this core performs the actual foreign
//! calls: it hands buffers, handles and outcomes in and out as plain values.

pub mod barrier;
pub mod codec;
pub mod host;
pub mod instances;
