use ed25519_dalek::{Signature, Signer, SigningKey, Verifier, VerifyingKey};
use noise_handshake::auth::noise::cipher::CipherError;
use noise_handshake::auth::noise::handshake_state::{HandshakeError, HandshakeState, StaticKeypair};
use noise_handshake::auth::noise::protocol::{
    IdentityKeypair, NoiseChannel, NoiseError, NoiseProtocol,
};
use noise_handshake::auth::noise::MessagePattern;
use noise_handshake::auth::SecureChannel;
use noise_handshake::connection::multistream::Multistream;
use noise_handshake::handshake::{NoiseHandshakePayload, PublicKey};

const PREFIX: &[u8] = b"noise-libp2p-static-key:";

fn unhex_protocol(text: &str) -> Vec<u8> {
    let digits: Vec<u8> = text
        .bytes()
        .map(|c| match c {
            b'0'..=b'9' => c - b'0',
            b'a'..=b'f' => c - b'a' + 10,
            _ => panic!("not a hex digit"),
        })
        .collect();
    digits.chunks(2).map(|pair| pair[0] * 16 + pair[1]).collect()
}

fn second_tokens() -> Vec<MessagePattern> {
    vec![
        MessagePattern::E,
        MessagePattern::Ee,
        MessagePattern::S,
        MessagePattern::Es,
    ]
}

fn third_tokens() -> Vec<MessagePattern> {
    vec![MessagePattern::S, MessagePattern::Se]
}

fn payload_with(key_type: u64, key: &[u8], signature: &[u8]) -> Vec<u8> {
    NoiseHandshakePayload {
        identity_key: Some(PublicKey { key_type, data: key.to_vec() }.encode()),
        identity_sig: Some(signature.to_vec()),
    }
    .encode()
}

/// A responder that has read the first message and answers with `payload`.
fn respond(first: &[u8], responder_static: StaticKeypair, payload: &[u8]) -> (HandshakeState, Vec<u8>) {
    let mut bob = HandshakeState::new(false, &[], responder_static, None, None, None);
    bob.read_message(first, vec![MessagePattern::E]).unwrap();
    let second = bob.write_message(payload, second_tokens()).unwrap();
    (bob, second)
}

fn upgraded_pair() -> (NoiseChannel, NoiseChannel) {
    let alice_identity = IdentityKeypair::from_secret(&[1u8; 32]);
    let bob_identity = IdentityKeypair::from_secret(&[2u8; 32]);
    let bob_static = StaticKeypair::new();
    let bob_payload = NoiseProtocol::auth_payload(&bob_identity, &bob_static.0);
    let (hss, first) = NoiseProtocol::initiate(StaticKeypair::new());
    let (mut bob, second) = respond(&first, bob_static, &bob_payload);
    let (third, alice_channel) = NoiseProtocol::complete(hss, &alice_identity, &second).unwrap();
    bob.read_message(&third, third_tokens()).unwrap();
    let (bob_send, bob_recv) = bob.finalize();
    (alice_channel, NoiseChannel::new(bob_send, bob_recv))
}

#[test]
fn identity_public_key_matches_rfc_8032() {
    let secret = unhex_protocol("9d61b19deffd5a60ba844af492ec2cc44449c5697b326919703bac031cae7f60");
    let pair = IdentityKeypair::from_secret(&secret);
    assert_eq!(
        pair.public,
        unhex_protocol("d75a980182b10ab7d54bfed3c964073a0ee172f3daa62325af021a68f707511a")
    );
    assert_eq!(pair.secret, secret);
}

#[test]
fn auth_payload_binds_identity_to_static_key() {
    let secret = [0x11u8; 32];
    let identity = IdentityKeypair::from_secret(&secret);
    let noise_static = StaticKeypair::new();
    let payload = NoiseProtocol::auth_payload(&identity, &noise_static.0);
    assert_eq!(payload.len(), 2 + 36 + 2 + 64);

    let decoded = NoiseHandshakePayload::decode(&payload).unwrap();
    let key = PublicKey::decode(&decoded.identity_key.unwrap()).unwrap();
    assert_eq!(key.key_type, 1);
    assert_eq!(key.data, identity.public);

    let signed = [PREFIX, &noise_static.0[..]].concat();
    assert_eq!(signed.len(), 56);
    let signature_bytes: [u8; 64] = decoded.identity_sig.unwrap().try_into().unwrap();
    let public_bytes: [u8; 32] = key.data.clone().try_into().unwrap();
    let verifying = VerifyingKey::from_bytes(&public_bytes).unwrap();
    assert!(verifying.verify(&signed, &Signature::from_bytes(&signature_bytes)).is_ok());
    // The signature is the one the identity key makes of prefix and key.
    let expected = SigningKey::from_bytes(&secret).sign(&signed).to_bytes();
    assert_eq!(signature_bytes, expected);
    assert_eq!(identity.public, SigningKey::from_bytes(&secret).verifying_key().to_bytes().to_vec());

    assert_eq!(
        NoiseProtocol::verify_payload(&payload, &noise_static.0),
        Ok(identity.public.clone())
    );
}

#[test]
fn signature_for_another_static_key_is_invalid() {
    let identity = IdentityKeypair::from_secret(&[0x11u8; 32]);
    let noise_static = StaticKeypair::new();
    let other_static = StaticKeypair::new();
    let payload = NoiseProtocol::auth_payload(&identity, &noise_static.0);
    assert_eq!(
        NoiseProtocol::verify_payload(&payload, &other_static.0),
        Err(NoiseError::SignatureInvalid())
    );
}

#[test]
fn any_other_signature_is_invalid() {
    let identity = IdentityKeypair::from_secret(&[0x11u8; 32]);
    let noise_static = StaticKeypair::new();
    let payload = NoiseProtocol::auth_payload(&identity, &noise_static.0);
    let decoded = NoiseHandshakePayload::decode(&payload).unwrap();
    let signature = decoded.identity_sig.unwrap();

    let candidates = [vec![0u8; 64], vec![0xffu8; 64], vec![0x5au8; 64]];
    for candidate in candidates {
        assert_eq!(
            NoiseProtocol::verify_payload(&payload_with(1, &identity.public, &candidate), &noise_static.0),
            Err(NoiseError::SignatureInvalid())
        );
    }
    let mut byte = 0;
    while byte < 64 {
        let mut flipped = signature.clone();
        flipped[byte] ^= 0x04;
        assert_eq!(
            NoiseProtocol::verify_payload(&payload_with(1, &identity.public, &flipped), &noise_static.0),
            Err(NoiseError::SignatureInvalid())
        );
        byte += 1;
    }
    // A signature by another identity over the same material.
    let other = IdentityKeypair::from_secret(&[0x22u8; 32]);
    let theirs = NoiseHandshakePayload::decode(&NoiseProtocol::auth_payload(&other, &noise_static.0))
        .unwrap()
        .identity_sig
        .unwrap();
    assert_eq!(
        NoiseProtocol::verify_payload(&payload_with(1, &identity.public, &theirs), &noise_static.0),
        Err(NoiseError::SignatureInvalid())
    );
}

#[test]
fn payloads_of_the_wrong_shape_are_malformed() {
    let identity = IdentityKeypair::from_secret(&[0x11u8; 32]);
    let noise_static = StaticKeypair::new();
    let good = NoiseHandshakePayload::decode(&NoiseProtocol::auth_payload(&identity, &noise_static.0)).unwrap();
    let signature = good.identity_sig.unwrap();
    let malformed = Err(NoiseError::MalformedPayload());

    // Not a protocol buffer.
    assert_eq!(NoiseProtocol::verify_payload(&[0x0a, 0x05], &noise_static.0), malformed);
    // No fields at all, or one of the two missing.
    assert_eq!(NoiseProtocol::verify_payload(&[], &noise_static.0), malformed);
    let no_sig = NoiseHandshakePayload { identity_key: good.identity_key.clone(), identity_sig: None };
    assert_eq!(NoiseProtocol::verify_payload(&no_sig.encode(), &noise_static.0), malformed);
    let no_key = NoiseHandshakePayload { identity_key: None, identity_sig: Some(signature.clone()) };
    assert_eq!(NoiseProtocol::verify_payload(&no_key.encode(), &noise_static.0), malformed);
    // A key that is no protocol buffer.
    let bad_key = NoiseHandshakePayload { identity_key: Some(vec![0x12, 0x09]), identity_sig: Some(signature.clone()) };
    assert_eq!(NoiseProtocol::verify_payload(&bad_key.encode(), &noise_static.0), malformed);
    // A key type other than Ed25519.
    assert_eq!(
        NoiseProtocol::verify_payload(&payload_with(0, &identity.public, &signature), &noise_static.0),
        malformed
    );
    assert_eq!(
        NoiseProtocol::verify_payload(&payload_with(2, &identity.public, &signature), &noise_static.0),
        malformed
    );
    // A key or a signature of the wrong length.
    assert_eq!(
        NoiseProtocol::verify_payload(&payload_with(1, &identity.public[..31], &signature), &noise_static.0),
        malformed
    );
    assert_eq!(
        NoiseProtocol::verify_payload(&payload_with(1, &identity.public, &signature[..63]), &noise_static.0),
        malformed
    );
    assert_eq!(
        NoiseProtocol::verify_payload(&payload_with(1, &identity.public, &[]), &noise_static.0),
        malformed
    );
}

#[test]
fn key_that_is_no_curve_point_is_an_invalid_signature() {
    let noise_static = StaticKeypair::new();
    // y = 2 has no matching x on the curve.
    let mut not_a_point = [0u8; 32];
    not_a_point[0] = 2;
    assert!(VerifyingKey::from_bytes(&not_a_point).is_err());
    assert_eq!(
        NoiseProtocol::verify_payload(&payload_with(1, &not_a_point, &[0u8; 64]), &noise_static.0),
        Err(NoiseError::SignatureInvalid())
    );
}

#[test]
fn initiate_writes_the_ephemeral_key() {
    let noise_static = StaticKeypair::new();
    let static_public = noise_static.0.clone();
    let (hss, first) = NoiseProtocol::initiate(noise_static);
    assert_eq!(first.len(), 32);
    assert!(hss.is_initiator());
    assert_eq!(hss.ephemeral_public(), Some(first));
    assert_eq!(hss.static_public(), static_public);
    assert_eq!(hss.nonce(), 0);
    assert_eq!(hss.remote_static(), None);
}

#[test]
fn upgrade_against_an_in_memory_responder() {
    let alice_identity = IdentityKeypair::from_secret(&[1u8; 32]);
    let bob_identity = IdentityKeypair::from_secret(&[2u8; 32]);
    let alice_static = StaticKeypair::new();
    let alice_static_public = alice_static.0.clone();
    let bob_static = StaticKeypair::new();
    let bob_payload = NoiseProtocol::auth_payload(&bob_identity, &bob_static.0);

    let (hss, first) = NoiseProtocol::initiate(alice_static);
    let (mut bob, second) = respond(&first, bob_static, &bob_payload);
    assert_eq!(second.len(), 32 + 48 + bob_payload.len() + 16);
    let (third, mut alice_channel) = NoiseProtocol::complete(hss, &alice_identity, &second).unwrap();
    assert_eq!(third.len(), 48 + 104 + 16);

    // The responder finds the initiator's identity bound to its static key.
    let alice_payload = bob.read_message(&third, third_tokens()).unwrap();
    assert_eq!(bob.remote_static(), Some(alice_static_public.clone()));
    assert_eq!(
        NoiseProtocol::verify_payload(&alice_payload, &alice_static_public),
        Ok(alice_identity.public.clone())
    );
    let decoded = NoiseHandshakePayload::decode(&alice_payload).unwrap();
    assert_eq!(
        PublicKey::decode(&decoded.identity_key.unwrap()).unwrap().data,
        alice_identity.public
    );

    let (bob_send, bob_recv) = bob.finalize();
    let mut bob_channel = NoiseChannel::new(bob_send, bob_recv);
    let record = alice_channel.write(b"hello");
    assert_eq!(record.len(), 21);
    assert_eq!(bob_channel.read(&record), Ok(b"hello".to_vec()));
    let reply = bob_channel.write(b"hello yourself");
    assert_eq!(alice_channel.read(&reply), Ok(b"hello yourself".to_vec()));
    assert_eq!(alice_channel.sent(), 1);
    assert_eq!(alice_channel.received(), 1);
}

#[test]
fn complete_rejects_a_peer_with_a_forged_signature() {
    let alice_identity = IdentityKeypair::from_secret(&[1u8; 32]);
    let bob_identity = IdentityKeypair::from_secret(&[2u8; 32]);
    let bob_static = StaticKeypair::new();
    let forged = payload_with(1, &bob_identity.public, &[0x42u8; 64]);
    let (hss, first) = NoiseProtocol::initiate(StaticKeypair::new());
    let (_, second) = respond(&first, bob_static, &forged);
    assert!(matches!(
        NoiseProtocol::complete(hss, &alice_identity, &second),
        Err(NoiseError::SignatureInvalid())
    ));
}

#[test]
fn complete_rejects_a_signature_over_another_static_key() {
    let alice_identity = IdentityKeypair::from_secret(&[1u8; 32]);
    let bob_identity = IdentityKeypair::from_secret(&[2u8; 32]);
    let stolen = NoiseProtocol::auth_payload(&bob_identity, &StaticKeypair::new().0);
    let (hss, first) = NoiseProtocol::initiate(StaticKeypair::new());
    let (_, second) = respond(&first, StaticKeypair::new(), &stolen);
    assert!(matches!(
        NoiseProtocol::complete(hss, &alice_identity, &second),
        Err(NoiseError::SignatureInvalid())
    ));
}

#[test]
fn complete_rejects_a_malformed_payload() {
    let alice_identity = IdentityKeypair::from_secret(&[1u8; 32]);
    let (hss, first) = NoiseProtocol::initiate(StaticKeypair::new());
    let (_, second) = respond(&first, StaticKeypair::new(), b"2nd stage");
    assert!(matches!(
        NoiseProtocol::complete(hss, &alice_identity, &second),
        Err(NoiseError::MalformedPayload())
    ));
    let (hss, first) = NoiseProtocol::initiate(StaticKeypair::new());
    let (_, empty) = respond(&first, StaticKeypair::new(), b"");
    assert!(matches!(
        NoiseProtocol::complete(hss, &alice_identity, &empty),
        Err(NoiseError::MalformedPayload())
    ));
}

#[test]
fn complete_reports_handshake_errors() {
    let alice_identity = IdentityKeypair::from_secret(&[1u8; 32]);
    let bob_identity = IdentityKeypair::from_secret(&[2u8; 32]);
    let bob_static = StaticKeypair::new();
    let bob_payload = NoiseProtocol::auth_payload(&bob_identity, &bob_static.0);
    let (hss, first) = NoiseProtocol::initiate(StaticKeypair::new());
    let (_, second) = respond(&first, bob_static, &bob_payload);

    assert!(matches!(
        NoiseProtocol::complete(hss, &alice_identity, &second[..79]),
        Err(NoiseError::Handshake(HandshakeError::MessageTooShort()))
    ));
    let (hss, first) = NoiseProtocol::initiate(StaticKeypair::new());
    let (_, mut tampered) = respond(&first, StaticKeypair::new(), &bob_payload);
    tampered[100] ^= 1;
    assert!(matches!(
        NoiseProtocol::complete(hss, &alice_identity, &tampered),
        Err(NoiseError::Handshake(HandshakeError::DecryptionFail()))
    ));
}

#[test]
fn tampered_transport_record_fails_and_is_not_counted() {
    let (mut alice, mut bob) = upgraded_pair();
    let record = alice.write(b"hello");
    let framed = Multistream::frame(&record, true);
    assert_eq!(framed.len(), 2 + 21);
    let mut byte = 2;
    while byte < framed.len() {
        let mut tampered = framed.clone();
        tampered[byte] ^= 0x10;
        let body = Multistream::unframe(&tampered).unwrap();
        assert_eq!(bob.read(&body), Err(CipherError::DecyrptionFail()));
        assert_eq!(bob.received(), 0);
        byte += 1;
    }
    assert_eq!(bob.read(&Multistream::unframe(&framed).unwrap()), Ok(b"hello".to_vec()));
    assert_eq!(bob.received(), 1);
}

#[test]
fn transport_records_are_read_in_the_order_written() {
    let (mut alice, mut bob) = upgraded_pair();
    let first = alice.write(b"one");
    let second = alice.write(b"two");
    let empty = alice.write(b"");
    assert_eq!(empty.len(), 16);
    assert_eq!(alice.sent(), 3);
    // Out of order the second record does not decrypt.
    assert_eq!(bob.read(&second), Err(CipherError::DecyrptionFail()));
    assert_eq!(bob.read(&first), Ok(b"one".to_vec()));
    assert_eq!(bob.read(&second), Ok(b"two".to_vec()));
    assert_eq!(bob.read(&empty), Ok(vec![]));
    // The two directions count on their own.
    assert_eq!(bob.sent(), 0);
    assert_eq!(alice.received(), 0);
}

/// One end of a channel whose records travel through a queue in memory.
struct QueuedChannel {
    ciphers: NoiseChannel,
    outgoing: Vec<Vec<u8>>,
    incoming: Vec<Vec<u8>>,
}

impl SecureChannel for QueuedChannel {
    type Error = CipherError;

    fn write(&mut self, data: &[u8]) -> Result<(), CipherError> {
        let record = self.ciphers.write(data);
        self.outgoing.push(Multistream::frame(&record, true));
        Ok(())
    }

    fn read(&mut self) -> Result<Vec<u8>, CipherError> {
        let framed = self.incoming.remove(0);
        let length = Multistream::record_length(framed[0], framed[1]);
        assert_eq!(length, framed.len() - 2);
        self.ciphers.read(&framed[2..])
    }
}

#[test]
fn secure_channel_carries_framed_records() {
    let (alice_ciphers, bob_ciphers) = upgraded_pair();
    let mut alice = QueuedChannel { ciphers: alice_ciphers, outgoing: vec![], incoming: vec![] };
    let mut bob = QueuedChannel { ciphers: bob_ciphers, outgoing: vec![], incoming: vec![] };
    alice.write(b"/multistream/1.0.0\n").unwrap();
    alice.write(b"").unwrap();
    assert_eq!(alice.outgoing[0].len(), 2 + 19 + 16);
    assert_eq!(alice.outgoing[0][..2].to_vec(), vec![0, 35]);
    assert_eq!(alice.outgoing[1][..2].to_vec(), vec![0, 16]);
    bob.incoming.append(&mut alice.outgoing);
    assert_eq!(bob.read(), Ok(b"/multistream/1.0.0\n".to_vec()));
    assert_eq!(bob.read(), Ok(vec![]));
    bob.write(b"pong").unwrap();
    let mut tampered = bob.outgoing.remove(0);
    tampered[5] ^= 0x40;
    alice.incoming.push(tampered);
    assert_eq!(alice.read(), Err(CipherError::DecyrptionFail()));
}
