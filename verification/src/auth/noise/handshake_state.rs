//! The HandshakeState object: the keys of one Noise XX handshake and the
//! token-by-token writing and reading of its messages.

use super::cipher::{dh_static, CipherState, CipherView};
use super::primitives::{
    sealable, spec_x25519, spec_x25519_public, x25519_public, x25519_random_secret, TAGLEN,
};
use super::symmetric_state::{SymmetricState, SymmetricView};
use super::{MessagePattern, DHLEN};
use vstd::prelude::*;

verus! {

/// `Noise_XX_25519_ChaChaPoly_SHA256`, in ASCII.
pub const PROTOCOL_NAME: [u8; 32] = [
    0x4e, 0x6f, 0x69, 0x73, 0x65, 0x5f, 0x58, 0x58, 0x5f, 0x32, 0x35, 0x35, 0x31, 0x39, 0x5f, 0x43,
    0x68, 0x61, 0x43, 0x68, 0x61, 0x50, 0x6f, 0x6c, 0x79, 0x5f, 0x53, 0x48, 0x41, 0x32, 0x35, 0x36,
];

/// Why a handshake message was not written or read.
#[derive(Clone, Copy, Debug, PartialEq, Eq, Structural)]
pub enum HandshakeError {
    /// The pattern holds a token outside the XX subset.
    MessagePatternUnsupported(),
    /// A token refers to a key that is not known yet.
    MissingKey(),
    /// The message is shorter than its tokens require.
    MessageTooShort(),
    /// The cipher rejected a part of the message.
    DecryptionFail(),
}

/// An X25519 key pair as bytes: the public key, then the private key.
pub struct StaticKeypair(pub Vec<u8>, pub Vec<u8>);

/// The ephemeral key pair of a handshake: the public key, then the private
/// key.
pub type EphemeralKeypair = (Vec<u8>, Vec<u8>);

/// A key pair in contracts.
pub struct KeypairView {
    pub public: Seq<u8>,
    pub secret: Seq<u8>,
}

impl KeypairView {
    /// Both halves are 32 bytes long.
    pub open spec fn wf(self) -> bool {
        self.public.len() == DHLEN && self.secret.len() == DHLEN
    }

    /// The public half belongs to the private half.
    pub open spec fn consistent(self) -> bool {
        self.public == spec_x25519_public(self.secret)
    }
}

impl View for StaticKeypair {
    type V = KeypairView;

    open spec fn view(&self) -> KeypairView {
        KeypairView { public: self.0@, secret: self.1@ }
    }
}

/// The key pairs of `keys` in contracts.
pub open spec fn keypair_views(keys: Seq<StaticKeypair>) -> Seq<KeypairView> {
    Seq::new(keys.len(), |i: int| keys[i]@)
}

/// An optional key in contracts.
pub open spec fn key_view(key: Option<Vec<u8>>) -> Option<Seq<u8>> {
    match key {
        Some(k) => Some(k@),
        None => None,
    }
}

/// An optional ephemeral key pair in contracts.
pub open spec fn ephemeral_view(pair: Option<EphemeralKeypair>) -> Option<KeypairView> {
    match pair {
        Some(p) => Some(KeypairView { public: p.0@, secret: p.1@ }),
        None => None,
    }
}

/// The public half of an optional key pair.
pub open spec fn public_half(pair: Option<KeypairView>) -> Option<Seq<u8>> {
    match pair {
        Some(p) => Some(p.public),
        None => None,
    }
}

/// Whether every key pair of `fresh` is well formed and consistent.
pub open spec fn all_consistent(fresh: Seq<KeypairView>) -> bool {
    forall|i: int| 0 <= i < fresh.len() ==> (#[trigger] fresh[i]).wf() && fresh[i].consistent()
}

/// Whether an optional key, where present, is 32 bytes long.
pub open spec fn key_wf(key: Option<Seq<u8>>) -> bool {
    key matches Some(k) ==> k.len() == DHLEN
}

/// What a `HandshakeState` holds.
pub struct HandshakeView {
    pub initiator: bool,
    pub sym: SymmetricView,
    pub s: KeypairView,
    pub e: Option<KeypairView>,
    pub rs: Option<Seq<u8>>,
    pub re: Option<Seq<u8>>,
}

/// How far the tokens of a message being written have come.
pub struct Written {
    /// The state after the last token that succeeded.
    pub state: HandshakeView,
    /// The bytes written so far.
    pub output: Seq<u8>,
    /// How many ephemeral key pairs were taken.
    pub used: nat,
    /// The error of the first token that failed.
    pub error: Option<HandshakeError>,
}

/// How far the tokens of a message being read have come.
pub struct Consumed {
    /// The state after the last token that succeeded.
    pub state: HandshakeView,
    /// How many bytes of the message were taken.
    pub offset: nat,
    /// The error of the first token that failed.
    pub error: Option<HandshakeError>,
}

/// The result of reading a whole message.
pub struct Received {
    /// The state the reader is left in.
    pub state: HandshakeView,
    /// The decrypted payload.
    pub payload: Seq<u8>,
    /// Why no payload was returned, if none was.
    pub error: Option<HandshakeError>,
}

/// Whether `fresh` holds the ephemeral key pairs that the tokens call for,
/// each well formed and consistent, and writing `payload` with them takes
/// `before` to `after` and gives `message`.
pub open spec fn written_with(
    before: HandshakeView,
    payload: Seq<u8>,
    tokens: Seq<MessagePattern>,
    fresh: Seq<KeypairView>,
    after: HandshakeView,
    message: Result<Vec<u8>, HandshakeError>,
) -> bool {
    let written = before.write_message(payload, tokens, fresh);
    &&& forall|i: int| 0 <= i < fresh.len() ==> (#[trigger] fresh[i]).wf() && fresh[i].consistent()
    &&& fresh.len() == ephemerals_needed(tokens, tokens.len())
    &&& after == written.state
    &&& match written.error {
        Some(e) => message == Err::<Vec<u8>, HandshakeError>(e),
        None => message matches Ok(m) && m@ == written.output,
    }
}

/// Whether `token` is one of the Diffie-Hellman tokens of XX.
pub open spec fn is_dh(token: MessagePattern) -> bool {
    token == MessagePattern::Ee || token == MessagePattern::Es || token == MessagePattern::Se
}

/// The number of `E` tokens among the first `count` tokens.
pub open spec fn ephemerals_needed(tokens: Seq<MessagePattern>, count: nat) -> nat
    decreases count,
{
    if count == 0 {
        0
    } else {
        ephemerals_needed(tokens, (count - 1) as nat) + if tokens[count - 1]
            == MessagePattern::E {
            1nat
        } else {
            0nat
        }
    }
}

/// The number of message bytes that the first `count` tokens take when read,
/// and whether a key is installed after them: `E` takes 32 bytes, `S` takes 32
/// and 16 more under a key, and a Diffie-Hellman token installs a key.
pub open spec fn token_bytes(keyed: bool, tokens: Seq<MessagePattern>, count: nat) -> (nat, bool)
    decreases count,
{
    if count == 0 {
        (0, keyed)
    } else {
        let (bytes, k) = token_bytes(keyed, tokens, (count - 1) as nat);
        match tokens[count - 1] {
            MessagePattern::E => ((bytes + DHLEN) as nat, k),
            MessagePattern::S => (
                (bytes + DHLEN + if k {
                    TAGLEN as int
                } else {
                    0
                }) as nat,
                k,
            ),
            MessagePattern::Ss => (bytes, k),
            _ => (bytes, true),
        }
    }
}

/// The length of a message with the given tokens and a payload of `payload`
/// bytes, written from a state that holds a cipher key or not (`keyed`): the
/// bytes of the tokens, the payload, and a 16-byte tag where a key is
/// installed once the tokens are done.
pub open spec fn message_len(keyed: bool, tokens: Seq<MessagePattern>, payload: nat) -> nat {
    let counted = token_bytes(keyed, tokens, tokens.len());
    counted.0 + payload + if counted.1 {
        TAGLEN as nat
    } else {
        0
    }
}

impl HandshakeView {
    /// Every key is 32 bytes long and the symmetric state is well formed.
    pub open spec fn wf(self) -> bool {
        &&& self.sym.wf()
        &&& self.s.wf()
        &&& (self.e matches Some(e) ==> e.wf())
        &&& key_wf(self.rs)
        &&& key_wf(self.re)
    }

    /// Initialize: the symmetric state starts from the protocol name and has
    /// the prologue mixed in; the keys are as given.
    pub open spec fn initial(
        initiator: bool,
        prologue: Seq<u8>,
        s: KeypairView,
        e: Option<KeypairView>,
        rs: Option<Seq<u8>>,
        re: Option<Seq<u8>>,
    ) -> HandshakeView {
        HandshakeView {
            initiator,
            sym: SymmetricView::initial(PROTOCOL_NAME@).mix_hash(prologue),
            s,
            e,
            rs,
            re,
        }
    }

    /// Whether `token` takes the local ephemeral key rather than the static.
    pub open spec fn local_is_ephemeral(self, token: MessagePattern) -> bool {
        match token {
            MessagePattern::Es => self.initiator,
            MessagePattern::Se => !self.initiator,
            _ => true,
        }
    }

    /// Whether `token` takes the remote ephemeral key rather than the static.
    pub open spec fn remote_is_ephemeral(self, token: MessagePattern) -> bool {
        match token {
            MessagePattern::Es => !self.initiator,
            MessagePattern::Se => self.initiator,
            _ => true,
        }
    }

    /// The private and the public key that a Diffie-Hellman token combines:
    /// `EE` the two ephemerals; `ES` the initiator's ephemeral with the
    /// responder's static; `SE` the initiator's static with the responder's
    /// ephemeral. `None` where one of them is not known yet.
    pub open spec fn dh_keys(self, token: MessagePattern) -> Option<(Seq<u8>, Seq<u8>)> {
        let secret = if self.local_is_ephemeral(token) {
            match self.e {
                Some(e) => Some(e.secret),
                None => None,
            }
        } else {
            Some(self.s.secret)
        };
        let public = if self.remote_is_ephemeral(token) {
            self.re
        } else {
            self.rs
        };
        match (secret, public) {
            (Some(sk), Some(pk)) => Some((sk, pk)),
            _ => None,
        }
    }

    /// A Diffie-Hellman token: MixKey of the shared secret, or `MissingKey`.
    pub open spec fn mix_dh(self, token: MessagePattern) -> (HandshakeView, Option<HandshakeError>) {
        match self.dh_keys(token) {
            Some((secret, public)) => (
                HandshakeView { sym: self.sym.mix_key(spec_x25519(secret, public)), ..self },
                None,
            ),
            None => (self, Some(HandshakeError::MissingKey())),
        }
    }

    /// One token of a message being written. `E` takes the next fresh key
    /// pair, sends its public key and mixes it into the hash; `S` sends the
    /// static public key through EncryptAndHash; `SS` is not supported.
    pub open spec fn write_token(
        self,
        token: MessagePattern,
        fresh: Seq<KeypairView>,
        used: nat,
    ) -> Written {
        match token {
            MessagePattern::E => if used < fresh.len() {
                let e = fresh[used as int];
                Written {
                    state: HandshakeView { e: Some(e), sym: self.sym.mix_hash(e.public), ..self },
                    output: e.public,
                    used: used + 1,
                    error: None,
                }
            } else {
                Written {
                    state: self,
                    output: Seq::empty(),
                    used,
                    error: Some(HandshakeError::MissingKey()),
                }
            },
            MessagePattern::S => {
                let (sym, ciphertext) = self.sym.encrypt_and_hash(self.s.public);
                Written {
                    state: HandshakeView { sym, ..self },
                    output: ciphertext,
                    used,
                    error: None,
                }
            },
            MessagePattern::Ss => Written {
                state: self,
                output: Seq::empty(),
                used,
                error: Some(HandshakeError::MessagePatternUnsupported()),
            },
            _ => {
                let (state, error) = self.mix_dh(token);
                Written { state, output: Seq::empty(), used, error }
            },
        }
    }

    /// The first `count` tokens of a message being written, in order; nothing
    /// happens after the first token that fails.
    pub open spec fn write_tokens(
        self,
        tokens: Seq<MessagePattern>,
        count: nat,
        fresh: Seq<KeypairView>,
    ) -> Written
        decreases count,
    {
        if count == 0 {
            Written { state: self, output: Seq::empty(), used: 0, error: None }
        } else {
            let before = self.write_tokens(tokens, (count - 1) as nat, fresh);
            if before.error is Some {
                before
            } else {
                let step = before.state.write_token(tokens[count - 1], fresh, before.used);
                Written {
                    state: step.state,
                    output: before.output + step.output,
                    used: step.used,
                    error: step.error,
                }
            }
        }
    }

    /// WriteMessage: the tokens in order, then the payload through
    /// EncryptAndHash.
    pub open spec fn write_message(
        self,
        payload: Seq<u8>,
        tokens: Seq<MessagePattern>,
        fresh: Seq<KeypairView>,
    ) -> Written {
        let written = self.write_tokens(tokens, tokens.len(), fresh);
        if written.error is Some {
            written
        } else {
            let (sym, ciphertext) = written.state.sym.encrypt_and_hash(payload);
            Written {
                state: HandshakeView { sym, ..written.state },
                output: written.output + ciphertext,
                used: written.used,
                error: None,
            }
        }
    }

    /// The number of bytes an `S` token takes: 48 under a key, else 32.
    pub open spec fn static_len(self) -> nat {
        if self.sym.cipher.key is Some {
            (DHLEN + TAGLEN) as nat
        } else {
            DHLEN as nat
        }
    }

    /// One token of a message being read, from `offset` on. `E` takes 32
    /// bytes as the remote ephemeral key and mixes them into the hash; `S`
    /// takes the remote static key through DecryptAndHash; `SS` is not
    /// supported.
    pub open spec fn read_token(self, token: MessagePattern, input: Seq<u8>, offset: nat) -> Consumed {
        match token {
            MessagePattern::E => {
                let re = input.subrange(offset as int, offset + DHLEN);
                Consumed {
                    state: HandshakeView { re: Some(re), sym: self.sym.mix_hash(re), ..self },
                    offset: (offset + DHLEN) as nat,
                    error: None,
                }
            },
            MessagePattern::S => {
                let end = (offset + self.static_len()) as nat;
                match self.sym.decrypt_and_hash(input.subrange(offset as int, end as int)) {
                    Some((sym, rs)) => Consumed {
                        state: HandshakeView { rs: Some(rs), sym, ..self },
                        offset: end,
                        error: None,
                    },
                    None => Consumed {
                        state: self,
                        offset,
                        error: Some(HandshakeError::DecryptionFail()),
                    },
                }
            },
            MessagePattern::Ss => Consumed {
                state: self,
                offset,
                error: Some(HandshakeError::MessagePatternUnsupported()),
            },
            _ => {
                let (state, error) = self.mix_dh(token);
                Consumed { state, offset, error }
            },
        }
    }

    /// The first `count` tokens of a message being read, in order; nothing
    /// happens after the first token that fails.
    pub open spec fn read_tokens(
        self,
        tokens: Seq<MessagePattern>,
        count: nat,
        input: Seq<u8>,
    ) -> Consumed
        decreases count,
    {
        if count == 0 {
            Consumed { state: self, offset: 0, error: None }
        } else {
            let before = self.read_tokens(tokens, (count - 1) as nat, input);
            if before.error is Some {
                before
            } else {
                before.state.read_token(tokens[count - 1], input, before.offset)
            }
        }
    }

    /// ReadMessage: a message shorter than its tokens require is refused
    /// before anything changes; else the tokens are read in order and the
    /// rest of the message goes through DecryptAndHash.
    pub open spec fn read_message(self, input: Seq<u8>, tokens: Seq<MessagePattern>) -> Received {
        if input.len() < token_bytes(self.sym.cipher.key is Some, tokens, tokens.len()).0 {
            Received {
                state: self,
                payload: Seq::empty(),
                error: Some(HandshakeError::MessageTooShort()),
            }
        } else {
            let consumed = self.read_tokens(tokens, tokens.len(), input);
            if consumed.error is Some {
                Received { state: consumed.state, payload: Seq::empty(), error: consumed.error }
            } else {
                match consumed.state.sym.decrypt_and_hash(input.skip(consumed.offset as int)) {
                    Some((sym, payload)) => Received {
                        state: HandshakeView { sym, ..consumed.state },
                        payload,
                        error: None,
                    },
                    None => Received {
                        state: consumed.state,
                        payload: Seq::empty(),
                        error: Some(HandshakeError::DecryptionFail()),
                    },
                }
            }
        }
    }

    /// Whether `peer` can be the other side of this handshake at the same
    /// point: the roles differ, the symmetric states are equal, every key
    /// pair is consistent, and each side holds as remote keys the public
    /// keys of the other, the ephemeral one exactly when the other has one.
    pub open spec fn mirrors(self, peer: HandshakeView) -> bool {
        &&& self.initiator != peer.initiator
        &&& self.sym == peer.sym
        &&& self.s.consistent()
        &&& peer.s.consistent()
        &&& (self.e matches Some(e) ==> e.consistent())
        &&& (peer.e matches Some(e) ==> e.consistent())
        &&& self.re == public_half(peer.e)
        &&& peer.re == public_half(self.e)
        &&& (self.rs matches Some(k) ==> k == peer.s.public)
        &&& (peer.rs matches Some(k) ==> k == self.s.public)
    }

    /// Diffie-Hellman agreement for the keys that `token` combines: whoever
    /// holds the private key of the remote key derives the same secret from
    /// it and the local public key.
    pub open spec fn dh_agrees(self, token: MessagePattern) -> bool {
        match self.dh_keys(token) {
            Some((secret, public)) => forall|peer: Seq<u8>|
                peer.len() == DHLEN && public == #[trigger] spec_x25519_public(peer)
                    ==> spec_x25519(secret, public) == spec_x25519(
                    peer,
                    spec_x25519_public(secret),
                ),
            None => true,
        }
    }

    /// What the cipher and the key agreement owe to token `k` of a message
    /// being written, where it and the tokens before it succeed: the state
    /// after it is well formed; an `S` token gives as many bytes as a reader
    /// takes, and they decrypt to the static public key; a Diffie-Hellman
    /// token combines keys that agree.
    pub open spec fn step_sound(
        self,
        tokens: Seq<MessagePattern>,
        fresh: Seq<KeypairView>,
        k: nat,
    ) -> bool {
        let before = self.write_tokens(tokens, k, fresh);
        let token = tokens[k as int];
        let step = before.state.write_token(token, fresh, before.used);
        before.error is None && step.error is None ==> {
            &&& step.state.wf()
            &&& (token == MessagePattern::S ==> step.output.len() == before.state.static_len()
                && before.state.sym.decrypt_and_hash(step.output) == Some(
                (step.state.sym, before.state.s.public),
            ))
            &&& (is_dh(token) ==> before.state.dh_agrees(token))
        }
    }

    /// What the cipher and the key agreement owe to a message being written:
    /// every token is sound, and the encrypted payload decrypts to the
    /// payload.
    pub open spec fn message_sound(
        self,
        payload: Seq<u8>,
        tokens: Seq<MessagePattern>,
        fresh: Seq<KeypairView>,
    ) -> bool {
        let written = self.write_tokens(tokens, tokens.len(), fresh);
        let sealed = written.state.sym.encrypt_and_hash(payload);
        &&& forall|k: nat| k < tokens.len() ==> #[trigger] self.step_sound(tokens, fresh, k)
        &&& written.error is None ==> sealed.0.wf() && written.state.sym.decrypt_and_hash(sealed.1)
            == Some((sealed.0, payload))
    }

    /// Whether `peer`, reading `message` with the same tokens, gets
    /// `payload` and ends as the other side of `after`, provided that it is
    /// the other side of this state, well formed, and knows the keys that the
    /// tokens refer to.
    pub open spec fn read_by(
        self,
        peer: HandshakeView,
        tokens: Seq<MessagePattern>,
        message: Seq<u8>,
        payload: Seq<u8>,
        after: HandshakeView,
    ) -> bool {
        let read = peer.read_message(message, tokens);
        self.mirrors(peer) && peer.wf() && read.error != Some(HandshakeError::MissingKey()) ==> {
            &&& read.error is None
            &&& read.payload == payload
            &&& after.mirrors(read.state)
            &&& read.state.wf()
        }
    }

    /// The transport ciphers, sending first: the initiator sends under the
    /// first cipher of Split and receives under the second; the responder
    /// swaps them.
    pub open spec fn finalize(self) -> (CipherView, CipherView) {
        let (c1, c2) = self.sym.split();
        if self.initiator {
            (c1, c2)
        } else {
            (c2, c1)
        }
    }
}

/// Once a token has failed, further tokens change nothing.
proof fn lemma_write_error_persists(
    state: HandshakeView,
    tokens: Seq<MessagePattern>,
    fresh: Seq<KeypairView>,
    failed: nat,
    count: nat,
)
    requires
        failed <= count,
        state.write_tokens(tokens, failed, fresh).error is Some,
    ensures
        state.write_tokens(tokens, count, fresh) == state.write_tokens(tokens, failed, fresh),
    decreases count,
{
    if failed < count {
        lemma_write_error_persists(state, tokens, fresh, failed, (count - 1) as nat);
    }
}

/// Once a token has failed, further tokens change nothing.
proof fn lemma_read_error_persists(
    state: HandshakeView,
    tokens: Seq<MessagePattern>,
    input: Seq<u8>,
    failed: nat,
    count: nat,
)
    requires
        failed <= count,
        state.read_tokens(tokens, failed, input).error is Some,
    ensures
        state.read_tokens(tokens, count, input) == state.read_tokens(tokens, failed, input),
    decreases count,
{
    if failed < count {
        lemma_read_error_persists(state, tokens, input, failed, (count - 1) as nat);
    }
}

/// More tokens never take fewer bytes.
proof fn lemma_token_bytes_grow(keyed: bool, tokens: Seq<MessagePattern>, fewer: nat, more: nat)
    requires
        fewer <= more,
    ensures
        token_bytes(keyed, tokens, fewer).0 <= token_bytes(keyed, tokens, more).0,
    decreases more,
{
    if fewer < more {
        lemma_token_bytes_grow(keyed, tokens, fewer, (more - 1) as nat);
    }
}

impl StaticKeypair {
    /// A fresh key pair from the operating system's random generator: both
    /// halves are 32 bytes long and the public half belongs to the private.
    pub fn new() -> (pair: Self)
        ensures
            pair@.wf(),
            pair@.consistent(),
    {
        let secret = x25519_random_secret();
        let public = x25519_public(secret.as_slice());
        StaticKeypair(public, secret)
    }

    /// The key pair of a given 32-byte private key.
    pub fn from_secret(secret: &[u8]) -> (pair: Self)
        requires
            secret@.len() == DHLEN,
        ensures
            pair@.secret == secret@,
            pair@.wf(),
            pair@.consistent(),
    {
        let public = x25519_public(secret);
        StaticKeypair(public, vstd::slice::slice_to_vec(secret))
    }
}

/// An implementation of the HandshakeState object of the Noise protocol, for
/// the XX pattern.
pub struct HandshakeState {
    initiator: bool,
    symmetric_state: SymmetricState,
    s: StaticKeypair,
    rs: Option<Vec<u8>>,
    e: Option<EphemeralKeypair>,
    re: Option<Vec<u8>>,
}

impl View for HandshakeState {
    type V = HandshakeView;

    closed spec fn view(&self) -> HandshakeView {
        HandshakeView {
            initiator: self.initiator,
            sym: self.symmetric_state@,
            s: self.s@,
            e: ephemeral_view(self.e),
            rs: key_view(self.rs),
            re: key_view(self.re),
        }
    }
}

impl HandshakeState {
    /// Initialize: starts a handshake in the given role with the given keys.
    /// The symmetric state is that of the protocol name with `prologue` mixed
    /// into the hash.
    pub fn new(
        initiator: bool,
        prologue: &[u8],
        s: StaticKeypair,
        e: Option<EphemeralKeypair>,
        rs: Option<Vec<u8>>,
        re: Option<Vec<u8>>,
    ) -> (state: HandshakeState)
        requires
            s@.wf(),
            ephemeral_view(e) matches Some(pair) ==> pair.wf(),
            key_wf(key_view(rs)),
            key_wf(key_view(re)),
        ensures
            state@ == HandshakeView::initial(
                initiator,
                prologue@,
                s@,
                ephemeral_view(e),
                key_view(rs),
                key_view(re),
            ),
            state@.wf(),
    {
        let mut sym_state = SymmetricState::new(PROTOCOL_NAME.as_slice());
        sym_state.mix_hash(prologue);
        HandshakeState { s, e, rs, re, initiator, symmetric_state: sym_state }
    }

    /// Whether this side started the handshake.
    pub fn is_initiator(&self) -> (initiator: bool)
        ensures
            initiator == self@.initiator,
    {
        self.initiator
    }

    /// The handshake hash.
    pub fn handshake_hash(&self) -> (h: Vec<u8>)
        ensures
            h@ == self@.sym.h,
    {
        self.symmetric_state.handshake_hash()
    }

    /// The number of messages the handshake cipher has processed under its
    /// current key.
    pub fn nonce(&self) -> (n: u64)
        ensures
            n == self@.sym.cipher.n,
    {
        self.symmetric_state.nonce()
    }

    /// The local static public key.
    pub fn static_public(&self) -> (key: Vec<u8>)
        ensures
            key@ == self@.s.public,
    {
        self.s.0.clone()
    }

    /// The local ephemeral public key, once one was generated.
    pub fn ephemeral_public(&self) -> (key: Option<Vec<u8>>)
        ensures
            match key {
                Some(k) => self@.e matches Some(e) && e.public == k@,
                None => self@.e is None,
            },
    {
        match &self.e {
            Some(pair) => Some(pair.0.clone()),
            None => None,
        }
    }

    /// The remote static public key, once it was received.
    pub fn remote_static(&self) -> (key: Option<Vec<u8>>)
        ensures
            key_view(key) == self@.rs,
    {
        match &self.rs {
            Some(k) => Some(k.clone()),
            None => None,
        }
    }

    /// The remote ephemeral public key, once it was received.
    pub fn remote_ephemeral(&self) -> (key: Option<Vec<u8>>)
        ensures
            key_view(key) == self@.re,
    {
        match &self.re {
            Some(k) => Some(k.clone()),
            None => None,
        }
    }

    /// A Diffie-Hellman token: mixes the shared secret of the keys that the
    /// token names into the chaining key, or fails where one is missing.
    fn mix_dh(&mut self, token: MessagePattern) -> (outcome: Result<(), HandshakeError>)
        requires
            old(self)@.wf(),
            is_dh(token),
        ensures
            final(self)@ == old(self)@.mix_dh(token).0,
            match old(self)@.mix_dh(token).1 {
                Some(e) => outcome == Err::<(), HandshakeError>(e),
                None => outcome is Ok,
            },
            final(self)@.wf(),
            outcome is Ok ==> final(self)@.sym.cipher.n == 0 && final(self)@.sym.cipher.key is Some,
            outcome is Ok ==> old(self)@.dh_agrees(token),
    {
        let local_ephemeral = match token {
            MessagePattern::Es => self.initiator,
            MessagePattern::Se => !self.initiator,
            _ => true,
        };
        let remote_ephemeral = match token {
            MessagePattern::Es => !self.initiator,
            MessagePattern::Se => self.initiator,
            _ => true,
        };
        let secret: &Vec<u8> = if local_ephemeral {
            match &self.e {
                Some(pair) => &pair.1,
                None => {
                    return Err(HandshakeError::MissingKey());
                },
            }
        } else {
            &self.s.1
        };
        let remote = if remote_ephemeral {
            &self.re
        } else {
            &self.rs
        };
        let public: &Vec<u8> = match remote {
            Some(key) => key,
            None => {
                return Err(HandshakeError::MissingKey());
            },
        };
        let shared = dh_static(secret.as_slice(), public.as_slice());
        self.symmetric_state.mix_key(shared.as_slice());
        Ok(())
    }

    /// WriteMessage with the ephemeral key pairs given: each `E` token takes
    /// the next pair of `ephemerals`, and fails with `MissingKey` where none
    /// is left. Returns the message, or the error of the first token that
    /// fails; the state is then as the tokens before it left it.
    ///
    /// Where the ephemeral key pairs are consistent, the other side of the
    /// handshake reads the message back: it gets the payload and ends as the
    /// other side of the new state, with the same hash and chaining key.
    pub fn write_message_with(
        &mut self,
        payload: &[u8],
        patterns: Vec<MessagePattern>,
        ephemerals: Vec<StaticKeypair>,
    ) -> (message: Result<Vec<u8>, HandshakeError>)
        requires
            old(self)@.wf(),
            old(self)@.sym.cipher.n + patterns@.len() < u64::MAX,
            sealable(payload@.len()),
            forall|i: int| 0 <= i < ephemerals@.len() ==> (#[trigger] ephemerals@[i])@.wf(),
        ensures
            final(self)@.wf(),
            final(self)@.sym.cipher.n <= old(self)@.sym.cipher.n + patterns@.len() + 1,
            ({
                let written = old(self)@.write_message(
                    payload@,
                    patterns@,
                    keypair_views(ephemerals@),
                );
                &&& final(self)@ == written.state
                &&& match written.error {
                    Some(e) => message == Err::<Vec<u8>, HandshakeError>(e),
                    None => message matches Ok(m) && m@ == written.output,
                }
            }),
            message matches Ok(m) ==> m@.len() == message_len(
                old(self)@.sym.cipher.key is Some,
                patterns@,
                payload@.len(),
            ),
            message is Ok ==> (final(self)@.sym.cipher.key is Some) == token_bytes(
                old(self)@.sym.cipher.key is Some,
                patterns@,
                patterns@.len(),
            ).1,
            all_consistent(keypair_views(ephemerals@)) ==> (message matches Ok(m) ==> forall|
                peer: HandshakeView,
            | #[trigger] old(self)@.read_by(peer, patterns@, m@, payload@, final(self)@)),
    {
        let ghost start = self@;
        let ghost fresh = keypair_views(ephemerals@);
        let mut buffer: Vec<u8> = Vec::new();
        let mut used: usize = 0;
        let mut index: usize = 0;
        while index < patterns.len()
            invariant
                index <= patterns@.len(),
                used <= index,
                start == old(self)@,
                self@.wf(),
                start.sym.cipher.n + patterns@.len() < u64::MAX,
                self@.sym.cipher.n <= start.sym.cipher.n + index,
                fresh == keypair_views(ephemerals@),
                forall|i: int| 0 <= i < ephemerals@.len() ==> (#[trigger] ephemerals@[i])@.wf(),
                start.write_tokens(patterns@, index as nat, fresh) == (Written {
                    state: self@,
                    output: buffer@,
                    used: used as nat,
                    error: None,
                }),
                forall|k: nat| k < index ==> #[trigger] start.step_sound(patterns@, fresh, k),
                token_bytes(start.sym.cipher.key is Some, patterns@, index as nat) == (
                    buffer@.len(),
                    self@.sym.cipher.key is Some,
                ),
            decreases patterns@.len() - index,
        {
            let token = patterns[index];
            let ghost before = self@;
            let ghost step = before.write_token(token, fresh, used as nat);
            let ghost sent = buffer@;
            let ghost next = start.write_tokens(patterns@, (index + 1) as nat, fresh);
            proof {
                assert(next.state == step.state && next.error == step.error);
                assert(next.used == step.used && next.output == sent + step.output);
            }
            match token {
                MessagePattern::E => {
                    if used < ephemerals.len() {
                        let public = ephemerals[used].0.clone();
                        let secret = ephemerals[used].1.clone();
                        self.symmetric_state.mix_hash(public.as_slice());
                        buffer.extend_from_slice(public.as_slice());
                        self.e = Some((public, secret));
                        used = used + 1;
                    } else {
                        proof {
                            lemma_write_error_persists(
                                start,
                                patterns@,
                                fresh,
                                (index + 1) as nat,
                                patterns@.len(),
                            );
                        }
                        return Err(HandshakeError::MissingKey());
                    }
                },
                MessagePattern::S => {
                    let ciphertext = self.symmetric_state.encrypt_and_hash(self.s.0.as_slice());
                    buffer.extend_from_slice(ciphertext.as_slice());
                },
                MessagePattern::Ss => {
                    proof {
                        lemma_write_error_persists(
                            start,
                            patterns@,
                            fresh,
                            (index + 1) as nat,
                            patterns@.len(),
                        );
                    }
                    return Err(HandshakeError::MessagePatternUnsupported());
                },
                _ => {
                    match self.mix_dh(token) {
                        Ok(()) => {},
                        Err(e) => {
                            proof {
                                lemma_write_error_persists(
                                    start,
                                    patterns@,
                                    fresh,
                                    (index + 1) as nat,
                                    patterns@.len(),
                                );
                            }
                            return Err(e);
                        },
                    }
                },
            }
            proof {
                assert(self@ == step.state);
                assert(buffer@ =~= sent + step.output);
                assert(start.step_sound(patterns@, fresh, index as nat));
            }
            index = index + 1;
        }
        let ghost sent = buffer@;
        let encrypted = self.symmetric_state.encrypt_and_hash(payload);
        buffer.extend_from_slice(encrypted.as_slice());
        proof {
            assert(buffer@ =~= sent + encrypted@);
            assert(start.message_sound(payload@, patterns@, fresh));
            if all_consistent(fresh) {
                assert forall|peer: HandshakeView| #[trigger]
                    start.read_by(peer, patterns@, buffer@, payload@, self@) by {
                    super::agreement::lemma_peer_reads_message(
                        start,
                        peer,
                        payload@,
                        patterns@,
                        fresh,
                    );
                }
            }
        }
        Ok(buffer)
    }

    /// WriteMessage: writes the tokens of `patterns` in order, with a fresh
    /// ephemeral key pair for each `E` token, then the encrypted payload.
    /// Returns the message, or the error of the first token that fails.
    ///
    /// The other side of the handshake reads the message back: it gets the
    /// payload and ends as the other side of the new state, with the same
    /// hash and chaining key.
    pub fn write_message(&mut self, payload: &[u8], patterns: Vec<MessagePattern>) -> (message:
        Result<Vec<u8>, HandshakeError>)
        requires
            old(self)@.wf(),
            old(self)@.sym.cipher.n + patterns@.len() < u64::MAX,
            sealable(payload@.len()),
        ensures
            final(self)@.wf(),
            final(self)@.sym.cipher.n <= old(self)@.sym.cipher.n + patterns@.len() + 1,
            exists|fresh: Seq<KeypairView>| #[trigger]
                written_with(old(self)@, payload@, patterns@, fresh, final(self)@, message),
            message matches Ok(m) ==> m@.len() == message_len(
                old(self)@.sym.cipher.key is Some,
                patterns@,
                payload@.len(),
            ),
            message is Ok ==> (final(self)@.sym.cipher.key is Some) == token_bytes(
                old(self)@.sym.cipher.key is Some,
                patterns@,
                patterns@.len(),
            ).1,
            message matches Ok(m) ==> forall|peer: HandshakeView| #[trigger]
                old(self)@.read_by(peer, patterns@, m@, payload@, final(self)@),
    {
        let mut ephemerals: Vec<StaticKeypair> = Vec::new();
        let mut index: usize = 0;
        while index < patterns.len()
            invariant
                index <= patterns@.len(),
                ephemerals@.len() == ephemerals_needed(patterns@, index as nat),
                forall|i: int|
                    0 <= i < ephemerals@.len() ==> (#[trigger] ephemerals@[i])@.wf()
                        && ephemerals@[i]@.consistent(),
            decreases patterns@.len() - index,
        {
            match patterns[index] {
                MessagePattern::E => {
                    ephemerals.push(StaticKeypair::new());
                },
                _ => {},
            }
            index = index + 1;
        }
        let ghost start = self@;
        let ghost tokens = patterns@;
        let ghost pairs = ephemerals@;
        let ghost fresh = keypair_views(ephemerals@);
        let message = self.write_message_with(payload, patterns, ephemerals);
        proof {
            assert forall|i: int| 0 <= i < fresh.len() implies (#[trigger] fresh[i]).wf()
                && fresh[i].consistent() by {
                assert(fresh[i] == pairs[i]@);
            }
            assert(written_with(start, payload@, tokens, fresh, self@, message));
        }
        message
    }

    /// Whether the tokens of `patterns` take no more than `available` bytes
    /// from a message.
    fn tokens_fit(&self, patterns: &Vec<MessagePattern>, available: usize) -> (fit: bool)
        ensures
            fit == (token_bytes(self@.sym.cipher.key is Some, patterns@, patterns@.len()).0
                <= available),
    {
        let ghost keyed0 = self@.sym.cipher.key is Some;
        let mut keyed = self.symmetric_state.has_key();
        let mut needed: usize = 0;
        let mut index: usize = 0;
        while index < patterns.len()
            invariant
                index <= patterns@.len(),
                needed <= available,
                keyed0 == (self@.sym.cipher.key is Some),
                token_bytes(keyed0, patterns@, index as nat) == (needed as nat, keyed),
            decreases patterns@.len() - index,
        {
            let width: usize = match patterns[index] {
                MessagePattern::E => DHLEN,
                MessagePattern::S => if keyed {
                    DHLEN + TAGLEN
                } else {
                    DHLEN
                },
                MessagePattern::Ss => 0,
                _ => {
                    keyed = true;
                    0
                },
            };
            if width > available - needed {
                proof {
                    assert(token_bytes(keyed0, patterns@, (index + 1) as nat).0 == needed + width);
                    lemma_token_bytes_grow(keyed0, patterns@, (index + 1) as nat, patterns@.len());
                }
                return false;
            }
            needed = needed + width;
            index = index + 1;
        }
        true
    }

    /// ReadMessage: reads the tokens of `patterns` in order from `received`
    /// and returns the decrypted payload. A message shorter than the tokens
    /// require is refused with `MessageTooShort` and leaves the state as it
    /// was. Otherwise the first token that fails gives the error, and the
    /// state is as the tokens before it left it.
    pub fn read_message(&mut self, received: &[u8], patterns: Vec<MessagePattern>) -> (payload:
        Result<Vec<u8>, HandshakeError>)
        requires
            old(self)@.wf(),
            old(self)@.sym.cipher.n + patterns@.len() < u64::MAX,
        ensures
            final(self)@.wf(),
            final(self)@.sym.cipher.n <= old(self)@.sym.cipher.n + patterns@.len() + 1,
            ({
                let read = old(self)@.read_message(received@, patterns@);
                &&& final(self)@ == read.state
                &&& match read.error {
                    Some(e) => payload == Err::<Vec<u8>, HandshakeError>(e),
                    None => payload matches Ok(p) && p@ == read.payload,
                }
            }),
            payload matches Ok(p) ==> received@.len() == message_len(
                old(self)@.sym.cipher.key is Some,
                patterns@,
                p@.len(),
            ),
            payload is Ok ==> (final(self)@.sym.cipher.key is Some) == token_bytes(
                old(self)@.sym.cipher.key is Some,
                patterns@,
                patterns@.len(),
            ).1,
    {
        let ghost start = self@;
        let ghost keyed0 = start.sym.cipher.key is Some;
        let total = received.len();
        if !self.tokens_fit(&patterns, total) {
            return Err(HandshakeError::MessageTooShort());
        }
        let mut offset: usize = 0;
        let mut index: usize = 0;
        while index < patterns.len()
            invariant
                index <= patterns@.len(),
                start == old(self)@,
                keyed0 == (start.sym.cipher.key is Some),
                total == received@.len(),
                self@.wf(),
                start.sym.cipher.n + patterns@.len() < u64::MAX,
                self@.sym.cipher.n <= start.sym.cipher.n + index,
                token_bytes(keyed0, patterns@, patterns@.len()).0 <= received@.len(),
                token_bytes(keyed0, patterns@, index as nat) == (
                    offset as nat,
                    self@.sym.cipher.key is Some,
                ),
                start.read_tokens(patterns@, index as nat, received@) == (Consumed {
                    state: self@,
                    offset: offset as nat,
                    error: None,
                }),
            decreases patterns@.len() - index,
        {
            let token = patterns[index];
            let ghost before = self@;
            let ghost step = before.read_token(token, received@, offset as nat);
            proof {
                lemma_token_bytes_grow(keyed0, patterns@, (index + 1) as nat, patterns@.len());
                assert(token_bytes(keyed0, patterns@, (index + 1) as nat).0 >= offset);
                assert(start.read_tokens(patterns@, (index + 1) as nat, received@) == step);
            }
            match token {
                MessagePattern::E => {
                    assert(token_bytes(keyed0, patterns@, (index + 1) as nat).0 == offset + DHLEN);
                    let remote = vstd::slice::slice_to_vec(
                        vstd::slice::slice_subrange(received, offset, offset + DHLEN),
                    );
                    self.symmetric_state.mix_hash(remote.as_slice());
                    self.re = Some(remote);
                    offset = offset + DHLEN;
                },
                MessagePattern::S => {
                    let width: usize = if self.symmetric_state.has_key() {
                        DHLEN + TAGLEN
                    } else {
                        DHLEN
                    };
                    assert(token_bytes(keyed0, patterns@, (index + 1) as nat).0 == offset + width);
                    let window = vstd::slice::slice_subrange(received, offset, offset + width);
                    match self.symmetric_state.decrypt_and_hash(window) {
                        Ok(remote) => {
                            self.rs = Some(remote);
                            offset = offset + width;
                        },
                        Err(_) => {
                            proof {
                                lemma_read_error_persists(
                                    start,
                                    patterns@,
                                    received@,
                                    (index + 1) as nat,
                                    patterns@.len(),
                                );
                            }
                            return Err(HandshakeError::DecryptionFail());
                        },
                    }
                },
                MessagePattern::Ss => {
                    proof {
                        lemma_read_error_persists(
                            start,
                            patterns@,
                            received@,
                            (index + 1) as nat,
                            patterns@.len(),
                        );
                    }
                    return Err(HandshakeError::MessagePatternUnsupported());
                },
                _ => {
                    match self.mix_dh(token) {
                        Ok(()) => {},
                        Err(e) => {
                            proof {
                                lemma_read_error_persists(
                                    start,
                                    patterns@,
                                    received@,
                                    (index + 1) as nat,
                                    patterns@.len(),
                                );
                            }
                            return Err(e);
                        },
                    }
                },
            }
            index = index + 1;
        }
        let rest = vstd::slice::slice_subrange(received, offset, total);
        assert(rest@ =~= received@.skip(offset as int));
        match self.symmetric_state.decrypt_and_hash(rest) {
            Ok(payload) => Ok(payload),
            Err(_) => Err(HandshakeError::DecryptionFail()),
        }
    }

    /// The two transport ciphers of a completed handshake: the one to send
    /// under, then the one to receive under.
    pub fn finalize(&self) -> (ciphers: (CipherState, CipherState))
        ensures
            (ciphers.0@, ciphers.1@) == self@.finalize(),
            ciphers.0@.wf(),
            ciphers.1@.wf(),
    {
        let (c1, c2) = self.symmetric_state.split();
        if self.initiator {
            (c1, c2)
        } else {
            (c2, c1)
        }
    }
}

} // verus!
