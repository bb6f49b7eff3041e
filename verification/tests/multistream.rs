use noise_handshake::auth::AuthProtocol;
use noise_handshake::connection::multistream::{Action, Event, Multistream, MultistreamError, Stage};

fn sent_bytes(action: Action) -> Vec<u8> {
    match action {
        Action::Send(bytes) => bytes,
        other => panic!("expected bytes to send, got {:?}", other),
    }
}

fn negotiate_with(replies: &[&[u8]]) -> (Stage, Vec<Vec<u8>>, Option<MultistreamError>) {
    let mut connection = Multistream::new();
    let mut sent = Vec::new();
    let mut action = connection.step(Event::Connected);
    let mut next = 0;
    loop {
        match action {
            Action::Send(bytes) => {
                sent.push(bytes);
                let reply = Multistream::serialize(replies[next]);
                next += 1;
                action = connection.step(Event::Received(reply));
            }
            Action::Finish => return (connection.stage(), sent, None),
            Action::Abort(e) => return (connection.stage(), sent, Some(e)),
        }
    }
}

#[test]
fn auth_protocol_name_is_the_noise_line() {
    assert_eq!(AuthProtocol::Noise.name(), b"/noise\n");
}

#[test]
fn serialize_prefixes_the_length() {
    assert_eq!(
        Multistream::serialize(b"/multistream/1.0.0\n"),
        [&[19u8][..], b"/multistream/1.0.0\n"].concat()
    );
    assert_eq!(Multistream::serialize(b"/noise\n"), [&[7u8][..], b"/noise\n"].concat());
    assert_eq!(Multistream::serialize(b""), vec![0u8]);
}

#[test]
fn varint_boundaries_round_trip() {
    let cases: [(usize, &[u8]); 7] = [
        (0, &[0x00]),
        (1, &[0x01]),
        (127, &[0x7f]),
        (128, &[0x80, 0x01]),
        (300, &[0xac, 0x02]),
        (16383, &[0xff, 0x7f]),
        (16384, &[0x80, 0x80, 0x01]),
    ];
    for (length, prefix) in cases {
        let message = vec![b'a'; length];
        let record = Multistream::serialize(&message);
        assert_eq!(record[..prefix.len()].to_vec(), prefix.to_vec());
        assert_eq!(record.len(), prefix.len() + length);
        assert_eq!(record[prefix.len()..].to_vec(), message);
        assert_eq!(Multistream::deserialize(&record), Ok(message));
    }
}

#[test]
fn record_of_128_bytes_comes_back_whole() {
    let record = [&[0x80, 0x01][..], &[0x61; 128][..]].concat();
    assert_eq!(Multistream::deserialize(&record), Ok(vec![0x61; 128]));
}

#[test]
fn large_record_round_trips() {
    let message = vec![0x5au8; 2_097_152];
    let record = Multistream::serialize(&message);
    assert_eq!(record[..4].to_vec(), vec![0x80, 0x80, 0x80, 0x01]);
    assert_eq!(Multistream::deserialize(&record), Ok(message));
}

#[test]
fn deserialize_returns_the_payload_whole() {
    assert_eq!(
        Multistream::deserialize(&Multistream::serialize(b"/multistream/1.0.0\n")),
        Ok(b"/multistream/1.0.0\n".to_vec())
    );
    assert_eq!(Multistream::deserialize(&[2, b'a', b'\n']), Ok(vec![b'a', b'\n']));
    assert_eq!(Multistream::deserialize(&Multistream::serialize(b"a")), Ok(vec![b'a']));
    assert_eq!(Multistream::deserialize(&Multistream::serialize(b"ab")), Ok(vec![b'a', b'b']));
    assert_eq!(Multistream::deserialize(&Multistream::serialize(b"")), Ok(vec![]));
    // The bytes after the varint come back, however many the varint announces.
    assert_eq!(Multistream::deserialize(&[5, b'a']), Ok(vec![b'a']));
}

#[test]
fn owed_counts_the_bytes_still_to_come() {
    let record = Multistream::serialize(b"/noise\n");
    assert_eq!(Multistream::owed(&[]), Ok(1));
    assert_eq!(Multistream::owed(&record[..1]), Ok(7));
    assert_eq!(Multistream::owed(&record[..2]), Ok(6));
    assert_eq!(Multistream::owed(&record[..7]), Ok(1));
    assert_eq!(Multistream::owed(&record), Ok(0));
    assert_eq!(Multistream::owed(&[0]), Ok(0));
    // More than was announced owes nothing more.
    assert_eq!(Multistream::owed(&[1, b'a', b'b']), Ok(0));
    // A varint of two bytes is asked for byte by byte.
    assert_eq!(Multistream::owed(&[0x80]), Ok(1));
    assert_eq!(Multistream::owed(&[0x80, 0x01]), Ok(128));
    let long = Multistream::serialize(&[0x61; 128]);
    assert_eq!(Multistream::owed(&long[..100]), Ok(30));
    assert_eq!(Multistream::owed(&long), Ok(0));
    assert_eq!(Multistream::owed(&[0xff; 9]), Ok(1));
}

#[test]
fn owed_rejects_malformed_varints() {
    assert_eq!(Multistream::owed(&[0x81, 0x00]), Err(MultistreamError::Varint()));
    assert_eq!(Multistream::owed(&[0x80; 10]), Err(MultistreamError::Varint()));
    assert_eq!(Multistream::owed(&[0xff; 11]), Err(MultistreamError::Varint()));
}

#[test]
fn record_is_read_piece_by_piece() {
    // A reader that takes what is owed, and no more, ends with the record.
    let wire = [Multistream::serialize(&[0x62; 300]), b"trailing".to_vec()].concat();
    let mut taken = 0;
    let mut record: Vec<u8> = Vec::new();
    loop {
        let owed = Multistream::owed(&record).unwrap() as usize;
        if owed == 0 {
            break;
        }
        record.extend_from_slice(&wire[taken..taken + owed]);
        taken += owed;
    }
    assert_eq!(record, Multistream::serialize(&[0x62; 300]));
    assert_eq!(Multistream::deserialize(&record), Ok(vec![0x62; 300]));
}

#[test]
fn deserialize_rejects_malformed_varints() {
    assert_eq!(Multistream::deserialize(&[]), Err(MultistreamError::Varint()));
    assert_eq!(Multistream::deserialize(&[0x80]), Err(MultistreamError::Varint()));
    assert_eq!(Multistream::deserialize(&[0xff, 0xff]), Err(MultistreamError::Varint()));
    // Not minimal: a trailing zero byte.
    assert_eq!(Multistream::deserialize(&[0x81, 0x00, b'a']), Err(MultistreamError::Varint()));
    // Eleven bytes.
    let mut long = vec![0x80u8; 10];
    long.push(0x01);
    assert_eq!(Multistream::deserialize(&long), Err(MultistreamError::Varint()));
    // Ten bytes are accepted.
    let mut ten = vec![0x80u8; 9];
    ten.push(0x01);
    ten.extend_from_slice(b"x\n");
    assert_eq!(Multistream::deserialize(&ten), Ok(vec![b'x', b'\n']));
}

#[test]
fn frame_prefixes_sixteen_bits_big_endian() {
    assert_eq!(Multistream::frame(b"", true), vec![0, 0]);
    assert_eq!(Multistream::frame(b"abc", true), vec![0, 3, b'a', b'b', b'c']);
    let record = Multistream::frame(&vec![7u8; 258], true);
    assert_eq!(record[..2].to_vec(), vec![1, 2]);
    assert_eq!(record.len(), 260);
    let largest = Multistream::frame(&vec![1u8; 65535], true);
    assert_eq!(largest[..2].to_vec(), vec![0xff, 0xff]);
    assert_eq!(largest.len(), 65537);
    assert_eq!(Multistream::frame(b"/noise\n", false), Multistream::serialize(b"/noise\n"));
}

#[test]
fn record_length_reads_sixteen_bits_big_endian() {
    assert_eq!(Multistream::record_length(0, 0), 0);
    assert_eq!(Multistream::record_length(0, 21), 21);
    assert_eq!(Multistream::record_length(1, 2), 258);
    assert_eq!(Multistream::record_length(0xff, 0xff), 65535);
}

#[test]
fn unframe_round_trips_and_checks_the_length() {
    for length in [0usize, 1, 255, 256, 65535] {
        let message = vec![0xabu8; length];
        assert_eq!(Multistream::unframe(&Multistream::frame(&message, true)), Some(message));
    }
    assert_eq!(Multistream::unframe(&[]), None);
    assert_eq!(Multistream::unframe(&[0]), None);
    assert_eq!(Multistream::unframe(&[0, 2, 1]), None);
    assert_eq!(Multistream::unframe(&[0, 1, 1, 2]), None);
    assert_eq!(Multistream::unframe(&[0, 0]), Some(vec![]));
}

#[test]
fn negotiation_succeeds_when_the_peer_echoes() {
    let (stage, sent, error) = negotiate_with(&[b"/multistream/1.0.0\n", b"/noise\n"]);
    assert_eq!(stage, Stage::Ready);
    assert_eq!(error, None);
    assert_eq!(
        sent,
        vec![
            [&[19u8][..], b"/multistream/1.0.0\n"].concat(),
            [&[7u8][..], b"/noise\n"].concat(),
        ]
    );
}

#[test]
fn negotiation_fails_when_noise_is_not_accepted() {
    let (stage, sent, error) = negotiate_with(&[b"/multistream/1.0.0\n", b"/tls/1.0.0\n"]);
    assert_eq!(stage, Stage::Failed);
    assert_eq!(error, Some(MultistreamError::Auth()));
    assert_eq!(sent.len(), 2);
    let (_, _, na) = negotiate_with(&[b"/multistream/1.0.0\n", b"na\n"]);
    assert_eq!(na, Some(MultistreamError::Auth()));
    let (_, _, other) = negotiate_with(&[b"/multistream/1.0.0\n", b"/noiseX"]);
    assert_eq!(other, Some(MultistreamError::Auth()));
    let (_, _, bare) = negotiate_with(&[b"/multistream/1.0.0\n", b"/noise"]);
    assert_eq!(bare, Some(MultistreamError::Auth()));
}

#[test]
fn negotiation_fails_when_multistream_is_not_echoed() {
    let (stage, sent, error) = negotiate_with(&[b"/multistream/2.0.0\n"]);
    assert_eq!(stage, Stage::Failed);
    assert_eq!(error, Some(MultistreamError::Negotiation()));
    assert_eq!(sent.len(), 1);
    // The name alone is no echo: the newline must end it.
    let (_, _, short) = negotiate_with(&[b"/multistream/1.0.0"]);
    assert_eq!(short, Some(MultistreamError::Negotiation()));
    // Nor is the name followed by another byte.
    let (_, _, other) = negotiate_with(&[b"/multistream/1.0.0X"]);
    assert_eq!(other, Some(MultistreamError::Negotiation()));
    let (_, _, empty) = negotiate_with(&[b""]);
    assert_eq!(empty, Some(MultistreamError::Negotiation()));
}

#[test]
fn negotiation_fails_on_a_malformed_record() {
    let mut connection = Multistream::new();
    assert_eq!(connection.stage(), Stage::Connecting);
    sent_bytes(connection.step(Event::Connected));
    assert_eq!(connection.stage(), Stage::AwaitingMultistream);
    let action = connection.step(Event::Received(vec![0x80]));
    assert!(matches!(action, Action::Abort(MultistreamError::Varint())));
    assert_eq!(connection.stage(), Stage::Failed);
}

#[test]
fn negotiation_rejects_events_out_of_turn() {
    let mut connection = Multistream::new();
    let action = connection.step(Event::Received(Multistream::serialize(b"/noise\n")));
    assert!(matches!(action, Action::Abort(MultistreamError::Negotiation())));
    assert_eq!(connection.stage(), Stage::Failed);

    let mut again = Multistream::new();
    sent_bytes(again.step(Event::Connected));
    assert!(matches!(
        again.step(Event::Connected),
        Action::Abort(MultistreamError::Negotiation())
    ));

    let mut done = Multistream::new();
    sent_bytes(done.step(Event::Connected));
    sent_bytes(done.step(Event::Received(Multistream::serialize(b"/multistream/1.0.0\n"))));
    assert_eq!(done.stage(), Stage::AwaitingNoise);
    assert!(matches!(
        done.step(Event::Received(Multistream::serialize(b"/noise\n"))),
        Action::Finish
    ));
    assert_eq!(done.stage(), Stage::Ready);
    assert!(matches!(
        done.step(Event::Received(Multistream::serialize(b"/noise\n"))),
        Action::Abort(MultistreamError::Negotiation())
    ));
    assert_eq!(done.stage(), Stage::Failed);
}
