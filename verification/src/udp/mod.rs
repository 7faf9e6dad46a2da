//! UDP datagrams for QUIC.

pub mod socket;
