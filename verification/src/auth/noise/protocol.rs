//! The initiator's side of the upgrade: the three messages of XX with the
//! identity payloads that libp2p carries in them, and the transport channel
//! that results.

use super::cipher::{CipherError, CipherState, CipherView};
use super::handshake_state::{
    message_len, written_with, HandshakeError, HandshakeState, HandshakeView, KeypairView,
    StaticKeypair,
};
use super::primitives::{
    ed25519_public, ed25519_sign, ed25519_verify, sealable, spec_ed25519_public,
    spec_ed25519_sign, spec_ed25519_verify, SIGLEN, TAGLEN,
};
use super::{MessagePattern, DHLEN};
use crate::handshake::{NoiseHandshakePayload, PayloadView, PublicKey, PublicKeyView, ED25519};
use vstd::prelude::*;

verus! {

/// `noise-libp2p-static-key:`, in ASCII: what a peer signs in front of its
/// Noise static public key.
pub const SIGNATURE_PREFIX: [u8; 24] = [
    0x6e, 0x6f, 0x69, 0x73, 0x65, 0x2d, 0x6c, 0x69, 0x62, 0x70, 0x32, 0x70, 0x2d, 0x73, 0x74, 0x61,
    0x74, 0x69, 0x63, 0x2d, 0x6b, 0x65, 0x79, 0x3a,
];

/// The length in bytes of an identity payload: a 32-byte Ed25519 key in its
/// `PublicKey` message and a 64-byte signature, each behind a key and a
/// length of one byte.
pub const AUTH_PAYLOAD_LEN: usize = 104;

/// Why an upgrade failed.
#[derive(Clone, Copy, Debug, PartialEq, Eq)]
pub enum NoiseError {
    /// A handshake message could not be written or read.
    Handshake(HandshakeError),
    /// The peer's payload is no well-formed protocol buffer, lacks a field,
    /// or holds a key that is no 32-byte Ed25519 key or a signature that is
    /// not 64 bytes long.
    MalformedPayload(),
    /// The peer's signature does not bind its identity to its static key.
    SignatureInvalid(),
}

/// An Ed25519 identity key pair as bytes.
pub struct IdentityKeypair {
    pub public: Vec<u8>,
    pub secret: Vec<u8>,
}

/// An identity key pair in contracts.
pub struct IdentityView {
    pub public: Seq<u8>,
    pub secret: Seq<u8>,
}

impl IdentityView {
    /// Both halves are 32 bytes long.
    pub open spec fn wf(self) -> bool {
        self.public.len() == 32 && self.secret.len() == 32
    }

    /// The public half belongs to the private half.
    pub open spec fn consistent(self) -> bool {
        self.public == spec_ed25519_public(self.secret)
    }
}

impl View for IdentityKeypair {
    type V = IdentityView;

    open spec fn view(&self) -> IdentityView {
        IdentityView { public: self.public@, secret: self.secret@ }
    }
}

impl IdentityKeypair {
    /// The identity key pair of a given 32-byte private key.
    pub fn from_secret(secret: &[u8]) -> (pair: Self)
        requires
            secret@.len() == 32,
        ensures
            pair@.secret == secret@,
            pair@.wf(),
            pair@.consistent(),
    {
        let public = ed25519_public(secret);
        IdentityKeypair { public, secret: vstd::slice::slice_to_vec(secret) }
    }
}

/// The tokens of the first message: `E`.
pub open spec fn first_pattern() -> Seq<MessagePattern> {
    seq![MessagePattern::E]
}

/// The tokens of the second message: `E, EE, S, ES`.
pub open spec fn second_pattern() -> Seq<MessagePattern> {
    seq![MessagePattern::E, MessagePattern::Ee, MessagePattern::S, MessagePattern::Es]
}

/// The tokens of the third message: `S, SE`.
pub open spec fn third_pattern() -> Seq<MessagePattern> {
    seq![MessagePattern::S, MessagePattern::Se]
}

/// The lengths of the three messages of XX with a payload of `payload`
/// bytes: 32 bytes of ephemeral key and the payload in clear; 32 bytes of
/// ephemeral key, 48 of encrypted static key and the payload with its tag;
/// 48 bytes of encrypted static key and the payload with its tag.
pub proof fn lemma_xx_message_lengths(payload: nat)
    ensures
        message_len(false, first_pattern(), payload) == 32 + payload,
        message_len(false, second_pattern(), payload) == 32 + 48 + payload + 16,
        message_len(true, third_pattern(), payload) == 48 + payload + 16,
{
    let first = first_pattern();
    assert(super::handshake_state::token_bytes(false, first, 0) == (0nat, false));
    assert(super::handshake_state::token_bytes(false, first, 1) == (32nat, false));
    let second = second_pattern();
    assert(super::handshake_state::token_bytes(false, second, 0) == (0nat, false));
    assert(super::handshake_state::token_bytes(false, second, 1) == (32nat, false));
    assert(super::handshake_state::token_bytes(false, second, 2) == (32nat, true));
    assert(super::handshake_state::token_bytes(false, second, 3) == (80nat, true));
    assert(super::handshake_state::token_bytes(false, second, 4) == (80nat, true));
    let third = third_pattern();
    assert(super::handshake_state::token_bytes(true, third, 0) == (0nat, true));
    assert(super::handshake_state::token_bytes(true, third, 1) == (48nat, true));
    assert(super::handshake_state::token_bytes(true, third, 2) == (48nat, true));
}

/// What a peer signs: the prefix, then its Noise static public key.
pub open spec fn signed_material(static_public: Seq<u8>) -> Seq<u8> {
    SIGNATURE_PREFIX@ + static_public
}

/// The identity payload: the public key as an Ed25519 `PublicKey` message,
/// and the signature of the signed material.
pub open spec fn spec_auth_payload(identity: IdentityView, static_public: Seq<u8>) -> Seq<u8> {
    PayloadView {
        identity_key: Some(PublicKeyView { key_type: ED25519, data: identity.public }.encoding()),
        identity_sig: Some(spec_ed25519_sign(identity.secret, signed_material(static_public))),
    }.encoding()
}

/// What a payload says of the peer with the static key `remote_static`: the
/// peer's identity public key, where the payload holds a 32-byte Ed25519 key
/// and a 64-byte signature of the signed material that verifies under it.
pub open spec fn spec_verify_payload(payload: Seq<u8>, remote_static: Seq<u8>) -> Result<
    Seq<u8>,
    NoiseError,
> {
    match PayloadView::parse(payload) {
        Some(PayloadView { identity_key: Some(key_bytes), identity_sig: Some(signature) }) => {
            match PublicKeyView::parse(key_bytes) {
                Some(key) => if key.key_type != ED25519 || key.data.len() != 32 || signature.len()
                    != SIGLEN {
                    Err(NoiseError::MalformedPayload())
                } else if spec_ed25519_verify(key.data, signed_material(remote_static), signature) {
                    Ok(key.data)
                } else {
                    Err(NoiseError::SignatureInvalid())
                },
                None => Err(NoiseError::MalformedPayload()),
            }
        },
        _ => Err(NoiseError::MalformedPayload()),
    }
}

/// What completes an upgrade.
pub struct Completed {
    /// The third message, to be sent to the peer.
    pub message: Seq<u8>,
    /// The cipher to send under.
    pub encrypter: CipherView,
    /// The cipher to receive under.
    pub decrypter: CipherView,
}

/// The second and third round: the peer's message is read, its payload
/// verified against the static key it carried, the own identity payload sent
/// in the third message, and the transport ciphers split off.
pub open spec fn spec_complete(
    state: HandshakeView,
    identity: IdentityView,
    message2: Seq<u8>,
) -> Result<Completed, NoiseError> {
    let read = state.read_message(message2, second_pattern());
    match (read.error, read.state.rs) {
        (Some(e), _) => Err(NoiseError::Handshake(e)),
        (None, None) => Err(NoiseError::Handshake(HandshakeError::MissingKey())),
        (None, Some(remote_static)) => match spec_verify_payload(read.payload, remote_static) {
            Err(e) => Err(e),
            Ok(_) => {
                let written = read.state.write_message(
                    spec_auth_payload(identity, read.state.s.public),
                    third_pattern(),
                    Seq::empty(),
                );
                match written.error {
                    Some(e) => Err(NoiseError::Handshake(e)),
                    None => Ok(
                        Completed {
                            message: written.output,
                            encrypter: written.state.finalize().0,
                            decrypter: written.state.finalize().1,
                        },
                    ),
                }
            },
        },
    }
}

/// The transport ciphers of an upgraded connection.
pub struct NoiseChannel {
    encrypter: CipherState,
    decrypter: CipherState,
}

/// A channel in contracts.
pub struct ChannelView {
    pub encrypter: CipherView,
    pub decrypter: CipherView,
}

impl ChannelView {
    /// Both ciphers are well formed.
    pub open spec fn wf(self) -> bool {
        self.encrypter.wf() && self.decrypter.wf()
    }
}

impl View for NoiseChannel {
    type V = ChannelView;

    closed spec fn view(&self) -> ChannelView {
        ChannelView { encrypter: self.encrypter@, decrypter: self.decrypter@ }
    }
}

impl NoiseChannel {
    /// A channel that sends under `encrypter` and receives under `decrypter`.
    pub fn new(encrypter: CipherState, decrypter: CipherState) -> (channel: Self)
        ensures
            channel@ == (ChannelView { encrypter: encrypter@, decrypter: decrypter@ }),
    {
        NoiseChannel { encrypter, decrypter }
    }

    /// The number of records sent.
    pub fn sent(&self) -> (n: u64)
        ensures
            n == self@.encrypter.n,
    {
        self.encrypter.nonce()
    }

    /// The number of records received.
    pub fn received(&self) -> (n: u64)
        ensures
            n == self@.decrypter.n,
    {
        self.decrypter.nonce()
    }

    /// The record that carries `data`: its ciphertext under the sending
    /// cipher, with empty associated data. Under a key it is 16 bytes longer
    /// than the data, and a receiving cipher with the same key and counter
    /// decrypts it back to the data.
    pub fn write(&mut self, data: &[u8]) -> (record: Vec<u8>)
        requires
            old(self)@.wf(),
            old(self)@.encrypter.has_room(),
            sealable(data@.len()),
        ensures
            (final(self)@.encrypter, record@) == old(self)@.encrypter.encrypt(
                Seq::empty(),
                data@,
            ),
            final(self)@.decrypter == old(self)@.decrypter,
            final(self)@.wf(),
            record@.len() == data@.len() + if old(self)@.encrypter.key is Some {
                TAGLEN as int
            } else {
                0
            },
            old(self)@.encrypter.decrypt(Seq::empty(), record@) == Some(
                (final(self)@.encrypter, data@),
            ),
    {
        let nothing: Vec<u8> = Vec::new();
        assert(nothing@ =~= Seq::<u8>::empty());
        self.encrypter.encrypt_with_ad(nothing.as_slice(), data)
    }

    /// What a record carries: its plaintext under the receiving cipher, with
    /// empty associated data. Where the cipher rejects the record the error
    /// is `DecyrptionFail` and the channel stays as it was.
    pub fn read(&mut self, record: &[u8]) -> (data: Result<Vec<u8>, CipherError>)
        requires
            old(self)@.wf(),
            old(self)@.decrypter.has_room(),
        ensures
            match old(self)@.decrypter.decrypt(Seq::empty(), record@) {
                Some((next, expected)) => data matches Ok(d) && d@ == expected
                    && final(self)@.decrypter == next,
                None => data == Err::<Vec<u8>, CipherError>(CipherError::DecyrptionFail())
                    && final(self)@.decrypter == old(self)@.decrypter,
            },
            final(self)@.encrypter == old(self)@.encrypter,
            final(self)@.wf(),
            data matches Ok(d) ==> d@.len() + (if old(self)@.decrypter.key is Some {
                TAGLEN as int
            } else {
                0
            }) == record@.len(),
    {
        let nothing: Vec<u8> = Vec::new();
        assert(nothing@ =~= Seq::<u8>::empty());
        self.decrypter.decrypt_with_ad(nothing.as_slice(), record)
    }
}

/// The Noise upgrade of a connection, from the initiator's side.
pub struct NoiseProtocol {}

impl NoiseProtocol {
    /// The identity payload of a peer: its identity public key and its
    /// signature over the prefix and its Noise static public key. Where the
    /// identity key pair is consistent, the payload verifies against that
    /// static key.
    pub fn auth_payload(keypair: &IdentityKeypair, noise_static_key: &[u8]) -> (payload: Vec<u8>)
        requires
            keypair@.wf(),
            noise_static_key@.len() == DHLEN,
        ensures
            payload@ == spec_auth_payload(keypair@, noise_static_key@),
            payload@.len() == AUTH_PAYLOAD_LEN,
            keypair@.consistent() ==> spec_verify_payload(payload@, noise_static_key@) == Ok::<
                Seq<u8>,
                NoiseError,
            >(keypair@.public),
    {
        let key_payload = PublicKey { key_type: ED25519, data: keypair.public.clone() };
        let identity_key = key_payload.encode();
        let mut data = vstd::slice::slice_to_vec(SIGNATURE_PREFIX.as_slice());
        data.extend_from_slice(noise_static_key);
        assert(data@ =~= signed_material(noise_static_key@));
        let signature = ed25519_sign(keypair.secret.as_slice(), data.as_slice());
        proof {
            assert(crate::varint::encoding(8).len() == 1);
            assert(crate::varint::encoding(1).len() == 1);
            assert(crate::varint::encoding(10).len() == 1);
            assert(crate::varint::encoding(18).len() == 1);
            assert(crate::varint::encoding(32).len() == 1);
            assert(crate::varint::encoding(36).len() == 1);
            assert(crate::varint::encoding(64).len() == 1);
            assert(identity_key@.len() == 36);
        }
        let payload = NoiseHandshakePayload {
            identity_key: Some(identity_key),
            identity_sig: Some(signature),
        };
        payload.encode()
    }

    /// Verifies the identity payload of the peer whose Noise static public
    /// key is `remote_static` and returns the peer's identity public key.
    /// `MalformedPayload` where the payload does not hold a 32-byte Ed25519
    /// key and a 64-byte signature; `SignatureInvalid` where the signature
    /// does not verify.
    pub fn verify_payload(payload: &[u8], remote_static: &[u8]) -> (identity: Result<
        Vec<u8>,
        NoiseError,
    >)
        ensures
            match spec_verify_payload(payload@, remote_static@) {
                Ok(expected) => identity matches Ok(key) && key@ == expected,
                Err(e) => identity matches Err(found) && found == e,
            },
    {
        let decoded = match NoiseHandshakePayload::decode(payload) {
            Some(decoded) => decoded,
            None => {
                return Err(NoiseError::MalformedPayload());
            },
        };
        let key_bytes = match decoded.identity_key {
            Some(key_bytes) => key_bytes,
            None => {
                return Err(NoiseError::MalformedPayload());
            },
        };
        let signature = match decoded.identity_sig {
            Some(signature) => signature,
            None => {
                return Err(NoiseError::MalformedPayload());
            },
        };
        let key = match PublicKey::decode(key_bytes.as_slice()) {
            Some(key) => key,
            None => {
                return Err(NoiseError::MalformedPayload());
            },
        };
        if key.key_type != ED25519 || key.data.len() != 32 || signature.len() != SIGLEN {
            return Err(NoiseError::MalformedPayload());
        }
        let mut message = vstd::slice::slice_to_vec(SIGNATURE_PREFIX.as_slice());
        message.extend_from_slice(remote_static);
        assert(message@ =~= signed_material(remote_static@));
        if ed25519_verify(key.data.as_slice(), message.as_slice(), signature.as_slice()) {
            Ok(key.data)
        } else {
            Err(NoiseError::SignatureInvalid())
        }
    }

    /// The first round: starts a handshake as initiator with the static key
    /// pair `static_local` and an empty prologue, and writes the first
    /// message, which is the fresh ephemeral public key.
    pub fn initiate(static_local: StaticKeypair) -> (started: (HandshakeState, Vec<u8>))
        requires
            static_local@.wf(),
        ensures
            started.0@.wf(),
            started.0@.sym.cipher == (CipherView { key: None, n: 0 }),
            started.1@.len() == DHLEN,
            exists|fresh: Seq<KeypairView>| #[trigger]
                written_with(
                    HandshakeView::initial(true, Seq::empty(), static_local@, None, None, None),
                    Seq::empty(),
                    first_pattern(),
                    fresh,
                    started.0@,
                    Ok(started.1),
                ),
    {
        let nothing: Vec<u8> = Vec::new();
        assert(nothing@ =~= Seq::<u8>::empty());
        let mut hss = HandshakeState::new(true, nothing.as_slice(), static_local, None, None, None);
        let ghost start = hss@;
        let pattern: Vec<MessagePattern> = vec![MessagePattern::E];
        assert(pattern@ =~= first_pattern());
        let written = hss.write_message(nothing.as_slice(), pattern);
        proof {
            let fresh = choose|fresh: Seq<KeypairView>| #[trigger]
                written_with(start, nothing@, first_pattern(), fresh, hss@, written);
            let tokens = first_pattern();
            assert(super::handshake_state::ephemerals_needed(tokens, 0) == 0);
            assert(super::handshake_state::ephemerals_needed(tokens, 1) == 1);
            assert(start.write_tokens(tokens, 0, fresh).error is None);
            assert(start.write_tokens(tokens, 1, fresh).error is None);
            assert(start.write_tokens(tokens, 1, fresh).output =~= fresh[0].public);
            assert(start.write_message(nothing@, tokens, fresh).output =~= fresh[0].public);
        }
        match written {
            Ok(message) => (hss, message),
            Err(_) => {
                assert(false);
                (hss, Vec::new())
            },
        }
    }

    /// The second and third round: reads the peer's message, verifies the
    /// peer's identity payload against the static key that the message
    /// carried, and writes the third message with the payload of `identity`.
    /// Returns the third message, which is 48 + 104 + 16 bytes long, and the
    /// channel, whose two ciphers are keyed and count from zero. A handshake
    /// message that cannot be read or written gives `Handshake` with its
    /// error; a payload that does not verify gives the error of
    /// `verify_payload`.
    pub fn complete(hss: HandshakeState, identity: &IdentityKeypair, message2: &[u8]) -> (outcome:
        Result<(Vec<u8>, NoiseChannel), NoiseError>)
        requires
            hss@.wf(),
            hss@.sym.cipher.n + 8 < u64::MAX,
            identity@.wf(),
        ensures
            match spec_complete(hss@, identity@, message2@) {
                Ok(expected) => outcome matches Ok((message3, channel)) && message3@
                    == expected.message && channel@ == (ChannelView {
                    encrypter: expected.encrypter,
                    decrypter: expected.decrypter,
                }) && channel@.wf(),
                Err(e) => outcome matches Err(found) && found == e,
            },
            outcome matches Ok((message3, channel)) ==> message3@.len() == 48 + AUTH_PAYLOAD_LEN
                + 16 && channel@.encrypter.key is Some && channel@.encrypter.n == 0
                && channel@.decrypter.key is Some && channel@.decrypter.n == 0,
    {
        proof {
            lemma_xx_message_lengths(0);
            lemma_xx_message_lengths(AUTH_PAYLOAD_LEN as nat);
        }
        let mut hss = hss;
        let second: Vec<MessagePattern> = vec![
            MessagePattern::E,
            MessagePattern::Ee,
            MessagePattern::S,
            MessagePattern::Es,
        ];
        assert(second@ =~= second_pattern());
        let payload = match hss.read_message(message2, second) {
            Ok(payload) => payload,
            Err(e) => {
                return Err(NoiseError::Handshake(e));
            },
        };
        let remote_static = match hss.remote_static() {
            Some(remote_static) => remote_static,
            None => {
                return Err(NoiseError::Handshake(HandshakeError::MissingKey()));
            },
        };
        match Self::verify_payload(payload.as_slice(), remote_static.as_slice()) {
            Ok(_) => {},
            Err(e) => {
                return Err(e);
            },
        }
        let static_public = hss.static_public();
        let auth_payload = Self::auth_payload(identity, static_public.as_slice());
        let third: Vec<MessagePattern> = vec![MessagePattern::S, MessagePattern::Se];
        assert(third@ =~= third_pattern());
        let none: Vec<StaticKeypair> = Vec::new();
        assert(super::handshake_state::keypair_views(none@) =~= Seq::empty());
        match hss.write_message_with(auth_payload.as_slice(), third, none) {
            Ok(message3) => {
                let (encrypter, decrypter) = hss.finalize();
                Ok((message3, NoiseChannel::new(encrypter, decrypter)))
            },
            Err(e) => Err(NoiseError::Handshake(e)),
        }
    }
}

} // verus!
