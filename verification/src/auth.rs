//! Authentication protocols a connection can be upgraded with.

use vstd::prelude::*;

pub mod noise;

verus! {

/// `/noise`, in ASCII, followed by a newline.
pub const NOISE_LINE: [u8; 7] = [0x2f, 0x6e, 0x6f, 0x69, 0x73, 0x65, 0x0a];

/// The authentication protocols this library can offer to a peer.
pub enum AuthProtocol {
    Noise,
}

impl AuthProtocol {
    /// The line that names the protocol during negotiation.
    pub open spec fn spec_name(&self) -> Seq<u8> {
        match self {
            AuthProtocol::Noise => NOISE_LINE@,
        }
    }

    /// Returns the protocol's negotiation line, `/noise` followed by a
    /// newline.
    pub fn name(&self) -> (line: &'static [u8])
        ensures
            line@ == self.spec_name(),
    {
        match self {
            AuthProtocol::Noise => {
                let line: &'static [u8; 7] = &NOISE_LINE;
                line
            },
        }
    }
}

/// An upgraded connection, over which data travels encrypted.
pub trait SecureChannel {
    /// What can go wrong on the channel.
    type Error;

    /// Encrypts `data` and writes it to the underlying stream.
    fn write(&mut self, data: &[u8]) -> Result<(), Self::Error>;

    /// Reads from the underlying stream and decrypts what was read.
    fn read(&mut self) -> Result<Vec<u8>, Self::Error>;
}

} // verus!
