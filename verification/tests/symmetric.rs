use noise_handshake::auth::noise::cipher::{hkdf, CipherError};
use noise_handshake::auth::noise::handshake_state::{HandshakeState, StaticKeypair};
use noise_handshake::auth::noise::symmetric_state::SymmetricState;
use sha2::{Digest, Sha256};

const XX_NAME: &[u8] = b"Noise_XX_25519_ChaChaPoly_SHA256";

fn unhex_symmetric(text: &str) -> Vec<u8> {
    let digits: Vec<u8> = text
        .bytes()
        .map(|c| match c {
            b'0'..=b'9' => c - b'0',
            b'a'..=b'f' => c - b'a' + 10,
            _ => panic!("not a hex digit"),
        })
        .collect();
    digits.chunks(2).map(|pair| pair[0] * 16 + pair[1]).collect()
}

fn reference_sha256(parts: &[&[u8]]) -> Vec<u8> {
    let mut hasher = Sha256::new();
    for part in parts {
        hasher.update(part);
    }
    hasher.finalize().to_vec()
}

#[test]
fn name_of_32_bytes_is_taken_as_it_is() {
    assert_eq!(XX_NAME.len(), 32);
    let state = SymmetricState::new(XX_NAME);
    assert_eq!(state.handshake_hash(), XX_NAME.to_vec());
    assert_eq!(state.chaining_key(), XX_NAME.to_vec());
    assert!(!state.has_key());
    assert_eq!(state.nonce(), 0);
}

#[test]
fn short_name_is_padded_with_zeros() {
    let state = SymmetricState::new(b"abc");
    let mut expected = vec![0u8; 32];
    expected[..3].copy_from_slice(b"abc");
    assert_eq!(state.handshake_hash(), expected);
    assert_eq!(state.chaining_key(), expected);
    assert_eq!(SymmetricState::new(b"").handshake_hash(), vec![0u8; 32]);
}

#[test]
fn long_name_is_hashed() {
    let name = b"abcdbcdecdefdefgefghfghighijhijkijkljklmklmnlmnomnopnopq";
    assert_eq!(name.len(), 56);
    let state = SymmetricState::new(name);
    let digest = unhex_symmetric("248d6a61d20638b8e5c026930c3e6039a33ce45964ff2167f6ecedd419db06c1");
    assert_eq!(state.handshake_hash(), digest);
    assert_eq!(state.chaining_key(), digest);
    // 33 bytes is the shortest name that is hashed.
    let just_over = [b'n'; 33];
    assert_eq!(
        SymmetricState::new(&just_over).handshake_hash(),
        reference_sha256(&[&just_over])
    );
}

#[test]
fn mix_hash_hashes_the_old_hash_with_the_data() {
    let mut state = SymmetricState::new(XX_NAME);
    state.mix_hash(b"data");
    assert_eq!(state.handshake_hash(), reference_sha256(&[XX_NAME, b"data"]));
    assert_eq!(state.chaining_key(), XX_NAME.to_vec());
    let once = state.handshake_hash();
    state.mix_hash(b"");
    assert_eq!(state.handshake_hash(), reference_sha256(&[&once]));
}

#[test]
fn empty_prologue_is_mixed_like_any_other() {
    let state = HandshakeState::new(true, &[], StaticKeypair::new(), None, None, None);
    assert_eq!(state.handshake_hash(), reference_sha256(&[XX_NAME]));
    let with = HandshakeState::new(true, b"prologue", StaticKeypair::new(), None, None, None);
    assert_eq!(with.handshake_hash(), reference_sha256(&[XX_NAME, b"prologue"]));
    assert_ne!(with.handshake_hash(), state.handshake_hash());
}

#[test]
fn mix_key_installs_the_second_hkdf_output() {
    let mut state = SymmetricState::new(XX_NAME);
    state.mix_key(b"input key material");
    let (ck, key, _) = hkdf(XX_NAME, b"input key material", 2);
    assert_eq!(state.chaining_key(), ck);
    assert!(state.has_key());
    assert_eq!(state.nonce(), 0);
    assert_eq!(state.handshake_hash(), XX_NAME.to_vec());
    let (c1, _) = {
        let mut copy = SymmetricState::new(XX_NAME);
        copy.mix_key(b"input key material");
        copy.split()
    };
    assert_eq!(c1.key(), Some(hkdf(&ck, &[], 2).0));
    // The installed key is what encrypts from now on.
    let mut reference = noise_handshake::auth::noise::cipher::CipherState::new();
    reference.initialise_key(&key);
    assert_eq!(
        state.encrypt_and_hash(b"m"),
        reference.encrypt_with_ad(XX_NAME, b"m")
    );
}

#[test]
fn mix_key_and_hash_uses_all_three_outputs() {
    let mut state = SymmetricState::new(XX_NAME);
    state.mix_key_and_hash(b"psk");
    let (ck, temp_h, temp_k) = hkdf(XX_NAME, b"psk", 3);
    assert_eq!(state.chaining_key(), ck);
    assert_eq!(state.handshake_hash(), reference_sha256(&[XX_NAME, &temp_h]));
    let mut reference = noise_handshake::auth::noise::cipher::CipherState::new();
    reference.initialise_key(&temp_k.unwrap());
    let hash = state.handshake_hash();
    assert_eq!(state.encrypt_and_hash(b"m"), reference.encrypt_with_ad(&hash, b"m"));
}

#[test]
fn encrypt_and_hash_without_key_mixes_the_plaintext() {
    let mut state = SymmetricState::new(XX_NAME);
    assert_eq!(state.encrypt_and_hash(b"clear"), b"clear".to_vec());
    assert_eq!(state.handshake_hash(), reference_sha256(&[XX_NAME, b"clear"]));
}

#[test]
fn decrypt_and_hash_mixes_the_wire_bytes() {
    let mut writer = SymmetricState::new(XX_NAME);
    let mut reader = SymmetricState::new(XX_NAME);
    writer.mix_key(b"shared");
    reader.mix_key(b"shared");
    let ciphertext = writer.encrypt_and_hash(b"secret");
    assert_eq!(ciphertext.len(), 6 + 16);
    assert_eq!(writer.handshake_hash(), reference_sha256(&[XX_NAME, &ciphertext]));
    assert_eq!(reader.decrypt_and_hash(&ciphertext), Ok(b"secret".to_vec()));
    assert_eq!(reader.handshake_hash(), writer.handshake_hash());
    assert_eq!(reader.nonce(), 1);
    assert_eq!(writer.nonce(), 1);
}

#[test]
fn failed_decrypt_and_hash_leaves_the_hash() {
    let mut writer = SymmetricState::new(XX_NAME);
    let mut reader = SymmetricState::new(XX_NAME);
    writer.mix_key(b"shared");
    reader.mix_key(b"shared");
    let mut ciphertext = writer.encrypt_and_hash(b"secret");
    ciphertext[0] ^= 1;
    let before = reader.handshake_hash();
    assert_eq!(reader.decrypt_and_hash(&ciphertext), Err(CipherError::DecyrptionFail()));
    assert_eq!(reader.handshake_hash(), before);
    assert_eq!(reader.nonce(), 0);
}

#[test]
fn split_keys_come_from_the_chaining_key() {
    let mut state = SymmetricState::new(XX_NAME);
    state.mix_key(b"ikm");
    let (c1, c2) = state.split();
    let (k1, k2, _) = hkdf(&state.chaining_key(), &[], 2);
    assert_eq!(c1.key(), Some(k1));
    assert_eq!(c2.key(), Some(k2));
    assert_eq!(c1.nonce(), 0);
    assert_eq!(c2.nonce(), 0);
    assert_ne!(c1.key(), c2.key());
}
