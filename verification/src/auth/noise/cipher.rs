//! The CipherState object: an AEAD key with the nonce it has reached, and the
//! key derivation and Diffie-Hellman helpers of the handshake.

use super::primitives::{
    aead_open, aead_seal, hmac_sha256, openable, sealable, spec_aead_open, spec_aead_seal,
    spec_hmac_sha256, spec_x25519, spec_x25519_public, x25519, KEYLEN, MAX_PLAINTEXT, NONCELEN,
    TAGLEN,
};
use crate::utils::{lemma_radix_pow_top, radix_pow};
use vstd::prelude::*;

verus! {

/// A cipher key is 32 bytes.
pub type CipherKey = Vec<u8>;

/// Why a ciphertext was not decrypted.
#[derive(Clone, Copy, Debug, PartialEq, Eq, Structural)]
pub enum CipherError {
    /// The AEAD rejected the ciphertext.
    DecyrptionFail(),
}

/// The `width` low bytes of `value`, least significant first.
pub open spec fn le_bytes(value: nat, width: nat) -> Seq<u8>
    decreases width,
{
    if width == 0 {
        Seq::empty()
    } else {
        seq![(value % 256) as u8] + le_bytes(value / 256, (width - 1) as nat)
    }
}

/// The 96-bit AEAD nonce for counter `n`: four zero bytes, then `n` in eight
/// bytes, little-endian.
pub open spec fn nonce_bytes(n: nat) -> Seq<u8> {
    seq![0u8, 0u8, 0u8, 0u8] + le_bytes(n, 8)
}

/// What a `CipherState` holds: the key, if one is installed, and the number
/// of messages processed under it.
pub struct CipherView {
    pub key: Option<Seq<u8>>,
    pub n: nat,
}

impl CipherView {
    /// An installed key is 32 bytes long.
    pub open spec fn wf(self) -> bool {
        self.key matches Some(k) ==> k.len() == KEYLEN
    }

    /// Whether the counter may take one more step: under a key it must stay
    /// within 64 bits.
    pub open spec fn has_room(self) -> bool {
        self.key is Some ==> self.n < u64::MAX
    }

    /// The same key with the counter one further.
    pub open spec fn advanced(self) -> CipherView {
        CipherView { key: self.key, n: self.n + 1 }
    }

    /// EncryptWithAd: without a key the plaintext passes unchanged; with one
    /// it is sealed under the current nonce and the counter advances.
    pub open spec fn encrypt(self, ad: Seq<u8>, plaintext: Seq<u8>) -> (CipherView, Seq<u8>) {
        match self.key {
            Some(k) => (self.advanced(), spec_aead_seal(k, nonce_bytes(self.n), ad, plaintext)),
            None => (self, plaintext),
        }
    }

    /// DecryptWithAd: without a key the ciphertext passes unchanged; with one
    /// it is opened under the current nonce, and the counter advances only
    /// where that succeeds. A ciphertext longer than any that can be sealed
    /// is rejected unopened.
    pub open spec fn decrypt(self, ad: Seq<u8>, ciphertext: Seq<u8>) -> Option<
        (CipherView, Seq<u8>),
    > {
        match self.key {
            Some(k) => if openable(ciphertext.len()) {
                match spec_aead_open(k, nonce_bytes(self.n), ad, ciphertext) {
                    Some(plaintext) => Some((self.advanced(), plaintext)),
                    None => None,
                }
            } else {
                None
            },
            None => Some((self, ciphertext)),
        }
    }

    /// The state after encrypting each of `messages`, given as pairs of
    /// associated data and plaintext, in order.
    pub open spec fn after_encryptions(self, messages: Seq<(Seq<u8>, Seq<u8>)>) -> CipherView
        decreases messages.len(),
    {
        if messages.len() == 0 {
            self
        } else {
            self.after_encryptions(messages.drop_last()).encrypt(
                messages.last().0,
                messages.last().1,
            ).0
        }
    }
}

/// The number that `bytes` spell, least significant byte first.
pub open spec fn le_value(bytes: Seq<u8>) -> nat
    decreases bytes.len(),
{
    if bytes.len() == 0 {
        0
    } else {
        bytes[0] as nat + 256 * le_value(bytes.skip(1))
    }
}

/// The bytes of a number below 256^`width` spell that number.
pub proof fn lemma_le_value_of_le_bytes(value: nat, width: nat)
    requires
        value < radix_pow(width),
    ensures
        le_value(le_bytes(value, width)) == value,
    decreases width,
{
    if width > 0 {
        let rest = le_bytes(value / 256, (width - 1) as nat);
        assert(le_bytes(value, width).skip(1) =~= rest);
        assert(value / 256 < radix_pow((width - 1) as nat)) by {
            vstd::arithmetic::div_mod::lemma_fundamental_div_mod(value as int, 256);
        }
        lemma_le_value_of_le_bytes(value / 256, (width - 1) as nat);
        vstd::arithmetic::div_mod::lemma_fundamental_div_mod(value as int, 256);
    }
}

/// Different counters give different nonces.
pub proof fn lemma_nonces_differ(first: nat, second: nat)
    requires
        first <= u64::MAX,
        second <= u64::MAX,
        first != second,
    ensures
        nonce_bytes(first) != nonce_bytes(second),
{
    lemma_radix_pow_top();
    lemma_le_value_of_le_bytes(first, 8);
    lemma_le_value_of_le_bytes(second, 8);
    assert(nonce_bytes(first).skip(4) =~= le_bytes(first, 8));
    assert(nonce_bytes(second).skip(4) =~= le_bytes(second, 8));
}

/// Nonce monotonicity: under a key, every encryption advances the counter by
/// one and keeps the key, so that after `messages.len()` encryptions from a
/// fresh key the counter is `messages.len()`.
pub proof fn lemma_nonce_counts_encryptions(state: CipherView, messages: Seq<(Seq<u8>, Seq<u8>)>)
    requires
        state.key is Some,
    ensures
        state.after_encryptions(messages).key == state.key,
        state.after_encryptions(messages).n == state.n + messages.len(),
    decreases messages.len(),
{
    if messages.len() > 0 {
        lemma_nonce_counts_encryptions(state, messages.drop_last());
    }
}

/// Nonce monotonicity: no two encryptions of a run share a nonce. The
/// encryption that follows the first `earlier` messages and the one that
/// follows the first `later` messages are made under different nonces.
pub proof fn lemma_encryptions_use_distinct_nonces(
    state: CipherView,
    messages: Seq<(Seq<u8>, Seq<u8>)>,
    earlier: int,
    later: int,
)
    requires
        state.key is Some,
        state.n + messages.len() <= u64::MAX,
        0 <= earlier < later <= messages.len(),
    ensures
        nonce_bytes(state.after_encryptions(messages.take(earlier)).n) != nonce_bytes(
            state.after_encryptions(messages.take(later)).n,
        ),
{
    lemma_nonce_counts_encryptions(state, messages.take(earlier));
    lemma_nonce_counts_encryptions(state, messages.take(later));
    lemma_nonces_differ((state.n + earlier) as nat, (state.n + later) as nat);
}

/// An implementation of the CipherState object of the Noise protocol.
pub struct CipherState {
    k: Option<CipherKey>,
    n: u64,
}

impl View for CipherState {
    type V = CipherView;

    closed spec fn view(&self) -> CipherView {
        CipherView {
            key: match self.k {
                Some(k) => Some(k@),
                None => None,
            },
            n: self.n as nat,
        }
    }
}

impl CipherState {
    /// InitializeKey(empty): a state without a key.
    pub fn new() -> (state: Self)
        ensures
            state@ == (CipherView { key: None, n: 0 }),
    {
        CipherState { k: None, n: 0 }
    }

    /// InitializeKey(key): installs `k` and starts counting from zero.
    pub fn initialise_key(&mut self, k: &[u8])
        requires
            k@.len() == KEYLEN,
        ensures
            final(self)@ == (CipherView { key: Some(k@), n: 0 }),
    {
        self.k = Some(vstd::slice::slice_to_vec(k));
        self.n = 0;
    }

    /// SetNonce: moves the counter to `nonce`.
    #[allow(dead_code)]
    fn set_nonce(&mut self, nonce: u64)
        ensures
            final(self)@ == (CipherView { key: old(self)@.key, n: nonce as nat }),
    {
        self.n = nonce;
    }

    /// HasKey: whether a key is installed.
    pub fn has_key(&self) -> (keyed: bool)
        ensures
            keyed == (self@.key is Some),
    {
        self.k.is_some()
    }

    /// The installed key, if any.
    pub fn key(&self) -> (key: Option<CipherKey>)
        ensures
            key is Some == self@.key is Some,
            key matches Some(k) ==> self@.key == Some(k@),
    {
        match &self.k {
            Some(k) => Some(k.clone()),
            None => None,
        }
    }

    /// The number of messages processed under the current key.
    pub fn nonce(&self) -> (n: u64)
        ensures
            n == self@.n,
    {
        self.n
    }

    /// The 96-bit nonce the next message is processed under.
    fn get_current_nonce(&self) -> (nonce: Vec<u8>)
        ensures
            nonce@ == nonce_bytes(self@.n),
            nonce@.len() == NONCELEN,
    {
        let mut nonce: Vec<u8> = vec![0u8, 0u8, 0u8, 0u8];
        let mut rest: u64 = self.n;
        let mut index: usize = 0;
        while index < 8
            invariant
                index <= 8,
                nonce@.len() == 4 + index,
                nonce_bytes(self@.n) == nonce@ + le_bytes(rest as nat, (8 - index) as nat),
            decreases 8 - index,
        {
            let ghost before = nonce@;
            nonce.push((rest % 256) as u8);
            proof {
                let low = seq![(rest as nat % 256) as u8];
                let tail = le_bytes(rest as nat / 256, (8 - index - 1) as nat);
                assert(nonce@ =~= before + low);
                assert((before + low) + tail =~= before + (low + tail));
            }
            rest = rest / 256;
            index = index + 1;
        }
        proof {
            assert(nonce@ + Seq::<u8>::empty() =~= nonce@);
        }
        nonce
    }

    /// EncryptWithAd: without a key returns the plaintext unchanged; with one
    /// returns the AEAD ciphertext under the current nonce and advances the
    /// counter. A state with the same key and counter decrypts the result
    /// back to the plaintext and ends where this one ends.
    pub fn encrypt_with_ad(&mut self, ad: &[u8], plaintext: &[u8]) -> (ciphertext: Vec<u8>)
        requires
            old(self)@.wf(),
            old(self)@.has_room(),
            old(self)@.key is Some ==> sealable(plaintext@.len()),
        ensures
            (final(self)@, ciphertext@) == old(self)@.encrypt(ad@, plaintext@),
            final(self)@.wf(),
            old(self)@.decrypt(ad@, ciphertext@) == Some((final(self)@, plaintext@)),
            ciphertext@.len() == plaintext@.len() + if old(self)@.key is Some {
                TAGLEN as int
            } else {
                0
            },
    {
        let nonce = self.get_current_nonce();
        match &self.k {
            Some(k) => {
                let ciphertext = aead_seal(k.as_slice(), nonce.as_slice(), ad, plaintext);
                self.n = self.n + 1;
                ciphertext
            },
            None => vstd::slice::slice_to_vec(plaintext),
        }
    }

    /// DecryptWithAd: without a key returns the ciphertext unchanged; with
    /// one opens it under the current nonce. The counter advances where that
    /// succeeds; where the AEAD rejects the ciphertext, or the ciphertext is
    /// longer than any that can be sealed, the state stays as it was and the
    /// error is `DecyrptionFail`.
    pub fn decrypt_with_ad(&mut self, ad: &[u8], ciphertext: &[u8]) -> (plaintext: Result<
        Vec<u8>,
        CipherError,
    >)
        requires
            old(self)@.wf(),
            old(self)@.has_room(),
        ensures
            match old(self)@.decrypt(ad@, ciphertext@) {
                Some((next, expected)) => plaintext matches Ok(p) && p@ == expected && final(self)@
                    == next,
                None => plaintext == Err::<Vec<u8>, CipherError>(CipherError::DecyrptionFail())
                    && final(self)@ == old(self)@,
            },
            final(self)@.wf(),
            plaintext matches Ok(p) ==> p@.len() + (if old(self)@.key is Some {
                TAGLEN as int
            } else {
                0
            }) == ciphertext@.len(),
    {
        let nonce = self.get_current_nonce();
        match &self.k {
            Some(k) => {
                if ciphertext.len() as u64 > MAX_PLAINTEXT + TAGLEN as u64 {
                    return Err(CipherError::DecyrptionFail());
                }
                match aead_open(k.as_slice(), nonce.as_slice(), ad, ciphertext) {
                    Some(plaintext) => {
                        self.n = self.n + 1;
                        Ok(plaintext)
                    },
                    None => Err(CipherError::DecyrptionFail()),
                }
            },
            None => Ok(vstd::slice::slice_to_vec(ciphertext)),
        }
    }
}

/// What `hkdf` derives: `temp = HMAC(chaining_key, ikm)`, `o1 = HMAC(temp,
/// 0x01)`, `o2 = HMAC(temp, o1 || 0x02)` and, unless two outputs were asked
/// for, `o3 = HMAC(temp, o2 || 0x03)`.
pub open spec fn spec_hkdf(chaining_key: Seq<u8>, ikm: Seq<u8>, num_outputs: nat) -> (
    Seq<u8>,
    Seq<u8>,
    Option<Seq<u8>>,
) {
    let temp = spec_hmac_sha256(chaining_key, ikm);
    let o1 = spec_hmac_sha256(temp, seq![1u8]);
    let o2 = spec_hmac_sha256(temp, o1 + seq![2u8]);
    let o3 = spec_hmac_sha256(temp, o2 + seq![3u8]);
    (
        o1,
        o2,
        if num_outputs == 2 {
            None
        } else {
            Some(o3)
        },
    )
}

/// `block` followed by the single byte `counter`.
fn with_counter(block: &Vec<u8>, counter: u8) -> (input: Vec<u8>)
    requires
        block@.len() < usize::MAX,
    ensures
        input@ == block@ + seq![counter],
{
    let mut input = block.clone();
    input.push(counter);
    assert(input@ =~= block@ + seq![counter]);
    input
}

/// The HKDF of the Noise protocol over HMAC-SHA-256, with two outputs when
/// `num_outputs` is 2 and three otherwise; each output is 32 bytes.
pub fn hkdf(chaining_key: &[u8], input_key_material: &[u8], num_outputs: usize) -> (outputs: (
    Vec<u8>,
    Vec<u8>,
    Option<Vec<u8>>,
))
    ensures
        outputs.0@ == spec_hkdf(chaining_key@, input_key_material@, num_outputs as nat).0,
        outputs.1@ == spec_hkdf(chaining_key@, input_key_material@, num_outputs as nat).1,
        match outputs.2 {
            Some(o3) => Some(o3@) == spec_hkdf(
                chaining_key@,
                input_key_material@,
                num_outputs as nat,
            ).2,
            None => num_outputs == 2,
        },
        outputs.0@.len() == 32,
        outputs.1@.len() == 32,
        outputs.2 matches Some(o3) ==> o3@.len() == 32,
{
    let temp_key = hmac_sha256(chaining_key, input_key_material);
    let one: Vec<u8> = vec![1u8];
    assert(one@ =~= seq![1u8]);
    let output1 = hmac_sha256(temp_key.as_slice(), one.as_slice());
    let in2 = with_counter(&output1, 2);
    let output2 = hmac_sha256(temp_key.as_slice(), in2.as_slice());
    if num_outputs == 2 {
        (output1, output2, None)
    } else {
        let in3 = with_counter(&output2, 3);
        let output3 = hmac_sha256(temp_key.as_slice(), in3.as_slice());
        (output1, output2, Some(output3))
    }
}

/// The X25519 shared secret of a local private key and a remote public key,
/// 32 bytes each. Where the remote key belongs to a peer's private key, the
/// peer derives the same secret from its private key and the local public
/// key.
pub fn dh_static(local_private: &[u8], remote_public: &[u8]) -> (shared: Vec<u8>)
    requires
        local_private@.len() == 32,
        remote_public@.len() == 32,
    ensures
        shared@ == spec_x25519(local_private@, remote_public@),
        shared@.len() == 32,
        forall|peer: Seq<u8>|
            peer.len() == 32 && remote_public@ == #[trigger] spec_x25519_public(peer) ==> shared@
                == spec_x25519(peer, spec_x25519_public(local_private@)),
{
    x25519(local_private, remote_public)
}

} // verus!
