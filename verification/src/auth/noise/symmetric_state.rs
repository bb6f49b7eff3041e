//! The SymmetricState object: the chaining key and the handshake hash that a
//! handshake carries from message to message, with the cipher they key.

use super::cipher::{hkdf, spec_hkdf, CipherError, CipherState, CipherView};
use super::primitives::{sealable, sha256, spec_sha256, TAGLEN};
use super::HASHLEN;
use vstd::prelude::*;

verus! {

/// `name` followed by zero bytes up to 32 bytes.
pub open spec fn zero_padded(name: Seq<u8>) -> Seq<u8> {
    name + Seq::new((HASHLEN - name.len()) as nat, |i: int| 0u8)
}

/// What a `SymmetricState` holds: chaining key, handshake hash and cipher.
pub struct SymmetricView {
    pub ck: Seq<u8>,
    pub h: Seq<u8>,
    pub cipher: CipherView,
}

impl SymmetricView {
    /// Chaining key and hash are 32 bytes each, and the cipher is well formed.
    pub open spec fn wf(self) -> bool {
        &&& self.ck.len() == HASHLEN
        &&& self.h.len() == HASHLEN
        &&& self.cipher.wf()
    }

    /// Initialize: a name of at most 32 bytes is padded with zeros, a longer
    /// one is hashed; the result is both hash and chaining key, and no key is
    /// installed.
    pub open spec fn initial(protocol_name: Seq<u8>) -> SymmetricView {
        let h = if protocol_name.len() <= HASHLEN {
            zero_padded(protocol_name)
        } else {
            spec_sha256(protocol_name)
        };
        SymmetricView { ck: h, h, cipher: CipherView { key: None, n: 0 } }
    }

    /// MixHash: `h` becomes SHA-256(h || data).
    pub open spec fn mix_hash(self, data: Seq<u8>) -> SymmetricView {
        SymmetricView { h: spec_sha256(self.h + data), ..self }
    }

    /// MixKey: the two HKDF outputs of the chaining key and `ikm` become the
    /// new chaining key and the cipher key.
    pub open spec fn mix_key(self, ikm: Seq<u8>) -> SymmetricView {
        let derived = spec_hkdf(self.ck, ikm, 2);
        SymmetricView {
            ck: derived.0,
            cipher: CipherView { key: Some(derived.1), n: 0 },
            ..self
        }
    }

    /// MixKeyAndHash: of the three HKDF outputs the first becomes the
    /// chaining key, the second is mixed into the hash and the third becomes
    /// the cipher key.
    pub open spec fn mix_key_and_hash(self, ikm: Seq<u8>) -> SymmetricView {
        let derived = spec_hkdf(self.ck, ikm, 3);
        SymmetricView {
            ck: derived.0,
            h: spec_sha256(self.h + derived.1),
            cipher: CipherView { key: derived.2, n: 0 },
        }
    }

    /// EncryptAndHash: the plaintext is encrypted with the hash as associated
    /// data, and the ciphertext is mixed into the hash.
    pub open spec fn encrypt_and_hash(self, plaintext: Seq<u8>) -> (SymmetricView, Seq<u8>) {
        let (cipher, ciphertext) = self.cipher.encrypt(self.h, plaintext);
        (SymmetricView { cipher, ..self }.mix_hash(ciphertext), ciphertext)
    }

    /// DecryptAndHash: the ciphertext is decrypted with the hash as
    /// associated data and, where that succeeds, mixed into the hash.
    pub open spec fn decrypt_and_hash(self, ciphertext: Seq<u8>) -> Option<
        (SymmetricView, Seq<u8>),
    > {
        match self.cipher.decrypt(self.h, ciphertext) {
            Some((cipher, plaintext)) => Some(
                (SymmetricView { cipher, ..self }.mix_hash(ciphertext), plaintext),
            ),
            None => None,
        }
    }

    /// Split: the two transport ciphers, keyed by the HKDF outputs of the
    /// chaining key and empty input.
    pub open spec fn split(self) -> (CipherView, CipherView) {
        let derived = spec_hkdf(self.ck, Seq::empty(), 2);
        (CipherView { key: Some(derived.0), n: 0 }, CipherView { key: Some(derived.1), n: 0 })
    }
}

/// An implementation of the SymmetricState object of the Noise protocol.
pub struct SymmetricState {
    ck: Vec<u8>,
    h: Vec<u8>,
    cipher_state: CipherState,
}

impl View for SymmetricState {
    type V = SymmetricView;

    closed spec fn view(&self) -> SymmetricView {
        SymmetricView { ck: self.ck@, h: self.h@, cipher: self.cipher_state@ }
    }
}

impl SymmetricState {
    /// Initialize(protocol_name).
    pub fn new(protocol_name: &[u8]) -> (state: SymmetricState)
        ensures
            state@ == SymmetricView::initial(protocol_name@),
            state@.wf(),
    {
        let h: Vec<u8> = if protocol_name.len() <= HASHLEN {
            let mut h_buf = vstd::slice::slice_to_vec(protocol_name);
            while h_buf.len() < HASHLEN
                invariant
                    protocol_name@.len() <= h_buf@.len() <= HASHLEN,
                    h_buf@ == protocol_name@ + Seq::new(
                        (h_buf@.len() - protocol_name@.len()) as nat,
                        |i: int| 0u8,
                    ),
                decreases HASHLEN - h_buf@.len(),
            {
                h_buf.push(0u8);
                assert(h_buf@ =~= protocol_name@ + Seq::new(
                    (h_buf@.len() - protocol_name@.len()) as nat,
                    |i: int| 0u8,
                ));
            }
            h_buf
        } else {
            let nothing: Vec<u8> = Vec::new();
            assert(protocol_name@ + nothing@ =~= protocol_name@);
            sha256(protocol_name, nothing.as_slice())
        };
        let ck = h.clone();
        SymmetricState { ck, h, cipher_state: CipherState::new() }
    }

    /// Whether the cipher holds a key.
    pub fn has_key(&self) -> (keyed: bool)
        ensures
            keyed == (self@.cipher.key is Some),
    {
        self.cipher_state.has_key()
    }

    /// The number of messages the cipher has processed under its key.
    pub fn nonce(&self) -> (n: u64)
        ensures
            n == self@.cipher.n,
    {
        self.cipher_state.nonce()
    }

    /// The handshake hash.
    pub fn handshake_hash(&self) -> (h: Vec<u8>)
        ensures
            h@ == self@.h,
    {
        self.h.clone()
    }

    /// The chaining key.
    pub fn chaining_key(&self) -> (ck: Vec<u8>)
        ensures
            ck@ == self@.ck,
    {
        self.ck.clone()
    }

    /// MixHash(data).
    pub fn mix_hash(&mut self, data: &[u8])
        ensures
            final(self)@ == old(self)@.mix_hash(data@),
            final(self)@.h.len() == HASHLEN,
            old(self)@.wf() ==> final(self)@.wf(),
    {
        self.h = sha256(self.h.as_slice(), data);
    }

    /// MixKey(input_key_material): derives a new chaining key and a new
    /// cipher key, under which the cipher counts from zero.
    pub fn mix_key(&mut self, input_key_material: &[u8])
        ensures
            final(self)@ == old(self)@.mix_key(input_key_material@),
            final(self)@.ck.len() == HASHLEN,
            final(self)@.cipher.wf(),
            old(self)@.wf() ==> final(self)@.wf(),
    {
        let (ck, temp_k, _) = hkdf(self.ck.as_slice(), input_key_material, 2);
        self.ck = ck;
        self.cipher_state.initialise_key(temp_k.as_slice());
    }

    /// MixKeyAndHash(input_key_material).
    pub fn mix_key_and_hash(&mut self, input_key_material: &[u8])
        ensures
            final(self)@ == old(self)@.mix_key_and_hash(input_key_material@),
            final(self)@.wf(),
    {
        let (ck, temp_h, temp_k) = hkdf(self.ck.as_slice(), input_key_material, 3);
        self.ck = ck;
        self.mix_hash(temp_h.as_slice());
        match temp_k {
            Some(key) => {
                self.cipher_state.initialise_key(key.as_slice());
            },
            None => {},
        }
    }

    /// EncryptAndHash(plaintext): returns the ciphertext. A state equal to
    /// this one before the call decrypts the result back to the plaintext and
    /// ends equal to this one after it.
    pub fn encrypt_and_hash(&mut self, plaintext: &[u8]) -> (ciphertext: Vec<u8>)
        requires
            old(self)@.wf(),
            old(self)@.cipher.has_room(),
            old(self)@.cipher.key is Some ==> sealable(plaintext@.len()),
        ensures
            (final(self)@, ciphertext@) == old(self)@.encrypt_and_hash(plaintext@),
            final(self)@.wf(),
            old(self)@.decrypt_and_hash(ciphertext@) == Some((final(self)@, plaintext@)),
            ciphertext@.len() == plaintext@.len() + if old(self)@.cipher.key is Some {
                TAGLEN as int
            } else {
                0
            },
    {
        let cipher = self.cipher_state.encrypt_with_ad(self.h.as_slice(), plaintext);
        self.mix_hash(cipher.as_slice());
        cipher
    }

    /// DecryptAndHash(ciphertext): returns the plaintext and mixes the
    /// ciphertext into the hash. Where the cipher rejects the ciphertext the
    /// state stays as it was and the error is `DecyrptionFail`.
    pub fn decrypt_and_hash(&mut self, ciphertext: &[u8]) -> (plaintext: Result<
        Vec<u8>,
        CipherError,
    >)
        requires
            old(self)@.wf(),
            old(self)@.cipher.has_room(),
        ensures
            match old(self)@.decrypt_and_hash(ciphertext@) {
                Some((next, expected)) => plaintext matches Ok(p) && p@ == expected && final(self)@
                    == next,
                None => plaintext == Err::<Vec<u8>, CipherError>(CipherError::DecyrptionFail())
                    && final(self)@ == old(self)@,
            },
            final(self)@.wf(),
            plaintext matches Ok(p) ==> p@.len() + (if old(self)@.cipher.key is Some {
                TAGLEN as int
            } else {
                0
            }) == ciphertext@.len(),
    {
        match self.cipher_state.decrypt_with_ad(self.h.as_slice(), ciphertext) {
            Ok(plaintext) => {
                self.mix_hash(ciphertext);
                Ok(plaintext)
            },
            Err(e) => Err(e),
        }
    }

    /// Split(): the two transport ciphers, each counting from zero.
    pub fn split(&self) -> (ciphers: (CipherState, CipherState))
        ensures
            (ciphers.0@, ciphers.1@) == self@.split(),
            ciphers.0@.wf(),
            ciphers.1@.wf(),
    {
        let nothing: Vec<u8> = Vec::new();
        assert(nothing@ =~= Seq::<u8>::empty());
        let (temp_k1, temp_k2, _) = hkdf(self.ck.as_slice(), nothing.as_slice(), 2);
        let mut c1 = CipherState::new();
        let mut c2 = CipherState::new();
        c1.initialise_key(temp_k1.as_slice());
        c2.initialise_key(temp_k2.as_slice());
        (c1, c2)
    }
}

} // verus!
