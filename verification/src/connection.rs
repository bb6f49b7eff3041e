//! What travels over the raw connection before and after the handshake.

pub mod multistream;
