//! Codec and checksum engine for echoing UDP-over-IPv4 datagrams.
//!
//! The crate decodes raw IPv4 datagrams carrying UDP, swaps the two
//! endpoints (addresses and ports), recomputes both Internet checksums,
//! and re-serializes the datagram.  All byte-level parsing, serialization
//! and checksum arithmetic is specified and verified here; the device
//! that supplies and consumes raw bytes is outside the crate.

pub mod checksum;
pub mod protocol;
