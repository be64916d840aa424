//! Proxy responder for IPv6 Neighbor Discovery.
//!
//! The library holds the verified packet pipeline: parsing a raw link-layer
//! frame as an Ethernet / IPv6 / ICMPv6 Neighbor Solicitation, deciding by
//! prefix match whether the solicited address is proxied, and constructing
//! the Neighbor Advertisement reply frame, checksum included.

pub mod addr;
pub mod checksum;
pub mod frame;
pub mod processor;
