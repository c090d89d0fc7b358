//! Decoder for DNS messages in wire format, held in a fixed 512-byte datagram
//! buffer.
//!
//! The buffer and its bounds-checked reads live in [`packet_buffer`]; the
//! meaning of a compressed domain name is defined in [`name`]. The remaining
//! modules decode the fixed header, question entries, resource records and
//! whole messages on top of them.

pub mod header;
pub mod name;
pub mod packet;
pub mod packet_buffer;
pub mod question;
pub mod record;
