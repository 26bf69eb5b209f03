//! A verified core for a live decoder of a length-framed TCP protocol.
//!
//! The crate reassembles a byte stream from captured frames that may arrive
//! mildly out of order, scans it incrementally for complete framed messages,
//! decodes message bodies against an externally loaded protocol schema, and
//! routes decoded packets to subscribed listeners.  Capture devices, file
//! I/O and the invocation of listener callbacks stay outside; the crate's
//! functions work on plain bytes and values and carry proved contracts.

pub mod bytes;
pub mod decoder;
pub mod dispatcher;
pub mod driver;
pub mod framer;
pub mod header;
pub mod reassembly;
pub mod schema;
