//! Encoding, decoding and checking of ARP, Ethernet II, IPv4, TCP and UDP
//! frames.
//!
//! Every frame type is a fixed header and a tail of octets.  `from_bytes`
//! turns a buffer into a frame or into `None`, and never reads out of
//! bounds; `to_bytes` is its inverse.  The Internet checksum is computed by
//! [`Checksum`], and the caller supplies the addresses of the pseudo-header.
//! Nothing here performs I/O.

pub mod arp;
pub mod checksum;
pub mod ethernet;
pub mod ip;
pub mod ipv4;
pub mod mac;
pub mod octets;
pub mod scalar;
pub mod tcp;
pub mod text;
pub mod udp;

pub use arp::{Arp, ArpHeader};
pub use checksum::Checksum;
pub use ethernet::{EthernetII, EthernetIIHeader};
pub use ip::Ipv4Addr;
pub use ipv4::{Ipv4, Ipv4Header};
pub use mac::MacAddr;
pub use scalar::{n16, n32};
