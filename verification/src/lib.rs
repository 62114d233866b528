//! Decoding of QUIC transport packets: variable-length integers, frame-type
//! bytes, long and short packet headers, and the packet variants built on them.

pub mod bytes;
pub mod packet;
pub mod varint;
