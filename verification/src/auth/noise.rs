//! Noise_XX_25519_ChaChaPoly_SHA256 as libp2p uses it.

use vstd::prelude::*;

pub mod agreement;
pub mod cipher;
pub mod handshake_state;
pub mod primitives;
pub mod protocol;
pub mod symmetric_state;

verus! {

/// Length in bytes of a Curve25519 public key and of a shared secret.
pub const DHLEN: usize = 32;

/// Length in bytes of a SHA-256 digest.
pub const HASHLEN: usize = 32;

/// The tokens a handshake message pattern is made of.
#[derive(Clone, Copy, Debug, PartialEq, Eq, Structural)]
pub enum MessagePattern {
    E,
    S,
    Ee,
    Es,
    Se,
    Ss,
}

} // verus!
