//! Client side of a libp2p connection upgrade: multistream-select
//! negotiation, the Noise XX handshake and the transport ciphers it yields.

pub mod auth;
pub mod connection;
pub mod handshake;
pub mod kad;
pub mod utils;
pub mod varint;
