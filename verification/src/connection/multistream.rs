//! Multistream-select: the negotiation of protocol names before the
//! handshake, and the framing of records before and after it.

use crate::auth::{AuthProtocol, NOISE_LINE};
use crate::varint;
use vstd::prelude::*;

verus! {

/// `/multistream/1.0.0`, in ASCII, followed by a newline.
pub const MULTISTREAM_LINE: [u8; 19] = [
    0x2f, 0x6d, 0x75, 0x6c, 0x74, 0x69, 0x73, 0x74, 0x72, 0x65, 0x61, 0x6d, 0x2f, 0x31, 0x2e, 0x30,
    0x2e, 0x30, 0x0a,
];

/// The largest payload of a record after the handshake.
pub const MAX_RECORD: usize = 65535;

/// Why a negotiation or a record failed.
#[derive(Clone, Copy, Debug, PartialEq, Eq, Structural)]
pub enum MultistreamError {
    /// The peer did not echo `/multistream/1.0.0`.
    Negotiation(),
    /// The peer did not accept `/noise`.
    Auth(),
    /// A record does not start with a well-formed varint.
    Varint(),
}

/// How far the negotiation has come.
#[derive(Clone, Copy, Debug, PartialEq, Eq, Structural)]
pub enum Stage {
    /// Nothing was sent yet.
    Connecting,
    /// `/multistream/1.0.0` was offered.
    AwaitingMultistream,
    /// `/noise` was offered.
    AwaitingNoise,
    /// Both were accepted: the handshake can start.
    Ready,
    /// The negotiation failed.
    Failed,
}

/// What happened on the connection.
pub enum Event {
    /// The connection was opened.
    Connected,
    /// A record arrived.
    Received(Vec<u8>),
}

/// What to do on the connection next.
#[derive(Debug)]
pub enum Action {
    /// Send these bytes and wait for a record.
    Send(Vec<u8>),
    /// The negotiation is complete.
    Finish,
    /// Give up with this error.
    Abort(MultistreamError),
}

/// An event in contracts.
pub enum EventView {
    Connected,
    Received(Seq<u8>),
}

/// An action in contracts.
pub enum ActionView {
    Send(Seq<u8>),
    Finish,
    Abort(MultistreamError),
}

impl View for Event {
    type V = EventView;

    open spec fn view(&self) -> EventView {
        match self {
            Event::Connected => EventView::Connected,
            Event::Received(record) => EventView::Received(record@),
        }
    }
}

impl View for Action {
    type V = ActionView;

    open spec fn view(&self) -> ActionView {
        match self {
            Action::Send(bytes) => ActionView::Send(bytes@),
            Action::Finish => ActionView::Finish,
            Action::Abort(e) => ActionView::Abort(*e),
        }
    }
}

/// A record before the handshake: the varint of the length, then the bytes.
pub open spec fn spec_serialize(message: Seq<u8>) -> Seq<u8> {
    varint::encoding(message.len()) + message
}

/// What a record before the handshake carries: the bytes after the leading
/// varint, whole.
pub open spec fn spec_deserialize(message: Seq<u8>) -> Result<Seq<u8>, MultistreamError> {
    match varint::parse(message) {
        Some((_, used)) => Ok(message.skip(used as int)),
        None => Err(MultistreamError::Varint()),
    }
}

/// The protocol name that a line holds: the line without the newline that
/// ends it, or nothing where it does not end in a newline.
pub open spec fn line_name(line: Seq<u8>) -> Option<Seq<u8>> {
    if line.len() > 0 && line.last() == 0x0a {
        Some(line.drop_last())
    } else {
        None
    }
}

/// The number of bytes still owed to a record before the handshake of which
/// `received` has arrived: one more byte while the leading varint has not
/// ended, then as many as the varint announces and have not arrived yet.
/// `Varint` where the leading varint is not well formed.
pub open spec fn spec_owed(received: Seq<u8>) -> Result<nat, MultistreamError> {
    let run = varint::continuation_run(received);
    if run == received.len() && run < varint::MAX_LEN {
        Ok(1)
    } else {
        match varint::parse(received) {
            Some((announced, used)) => {
                let arrived = received.len() - used;
                Ok(
                    if announced >= arrived {
                        (announced - arrived) as nat
                    } else {
                        0
                    },
                )
            },
            None => Err(MultistreamError::Varint()),
        }
    }
}

/// `n` in two bytes, most significant first.
pub open spec fn be16(n: nat) -> Seq<u8> {
    seq![(n / 256) as u8, (n % 256) as u8]
}

/// A record after the handshake: the length in two bytes, then the bytes.
pub open spec fn spec_frame(message: Seq<u8>) -> Seq<u8> {
    be16(message.len()) + message
}

/// What a record after the handshake carries: the bytes after the two length
/// bytes, where there are exactly as many as those announce.
pub open spec fn spec_unframe(record: Seq<u8>) -> Option<Seq<u8>> {
    if record.len() >= 2 && record.len() - 2 == record[0] * 256 + record[1] {
        Some(record.skip(2))
    } else {
        None
    }
}

/// One step of the negotiation. Once connected, `/multistream/1.0.0` is
/// offered; when the peer echoes it, `/noise` is offered; when the peer
/// echoes that, the negotiation is complete. A record echoes a protocol when
/// it carries the protocol's name followed by a newline. A record that is no
/// echo ends the negotiation with `Negotiation` or `Auth`, one without a
/// well-formed length with `Varint`, and an event that the stage does not
/// expect with `Negotiation`.
pub open spec fn transition(stage: Stage, event: EventView) -> (Stage, ActionView) {
    match (stage, event) {
        (Stage::Connecting, EventView::Connected) => (
            Stage::AwaitingMultistream,
            ActionView::Send(spec_serialize(MULTISTREAM_LINE@)),
        ),
        (Stage::AwaitingMultistream, EventView::Received(record)) => match spec_deserialize(
            record,
        ) {
            Ok(line) => if line_name(line) == Some(MULTISTREAM_LINE@.drop_last()) {
                (Stage::AwaitingNoise, ActionView::Send(spec_serialize(NOISE_LINE@)))
            } else {
                (Stage::Failed, ActionView::Abort(MultistreamError::Negotiation()))
            },
            Err(e) => (Stage::Failed, ActionView::Abort(e)),
        },
        (Stage::AwaitingNoise, EventView::Received(record)) => match spec_deserialize(record) {
            Ok(line) => if line_name(line) == Some(NOISE_LINE@.drop_last()) {
                (Stage::Ready, ActionView::Finish)
            } else {
                (Stage::Failed, ActionView::Abort(MultistreamError::Auth()))
            },
            Err(e) => (Stage::Failed, ActionView::Abort(e)),
        },
        _ => (Stage::Failed, ActionView::Abort(MultistreamError::Negotiation())),
    }
}

/// Framing round trip before the handshake: a serialized message
/// deserializes to itself.
pub proof fn lemma_deserialize_serialize(message: Seq<u8>)
    requires
        message.len() <= u64::MAX,
    ensures
        spec_deserialize(spec_serialize(message)) == Ok::<Seq<u8>, MultistreamError>(message),
{
    varint::lemma_parse_encoding(message.len(), message);
}

/// A whole record owes nothing more.
pub proof fn lemma_record_owes_nothing(message: Seq<u8>)
    requires
        message.len() <= u64::MAX,
    ensures
        spec_owed(spec_serialize(message)) == Ok::<nat, MultistreamError>(0),
{
    let record = spec_serialize(message);
    varint::lemma_parse_encoding(message.len(), message);
    varint::lemma_encoding_len(message.len());
    assert(record.len() == varint::encoding(message.len()).len() + message.len());
}

/// Framing round trip after the handshake: a framed message of at most 65535
/// bytes unframes to itself.
pub proof fn lemma_unframe_frame(message: Seq<u8>)
    requires
        message.len() <= MAX_RECORD,
    ensures
        spec_unframe(spec_frame(message)) == Some(message),
{
    let record = spec_frame(message);
    assert(record[0] == (message.len() / 256) as u8);
    assert(record[1] == (message.len() % 256) as u8);
    assert(record.skip(2) =~= message);
}

/// Whether two byte strings are equal.
fn bytes_equal(left: &[u8], right: &[u8]) -> (equal: bool)
    ensures
        equal == (left@ == right@),
{
    if left.len() != right.len() {
        return false;
    }
    let mut index: usize = 0;
    while index < left.len()
        invariant
            index <= left@.len(),
            left@.len() == right@.len(),
            forall|i: int| 0 <= i < index ==> left@[i] == right@[i],
        decreases left@.len() - index,
    {
        if left[index] != right[index] {
            return false;
        }
        index = index + 1;
    }
    assert(left@ =~= right@);
    true
}

/// Whether `line` holds the protocol name of `offered`, a line of at least
/// one byte, and ends in a newline.
fn echoes(line: &[u8], offered: &[u8]) -> (echo: bool)
    requires
        offered@.len() > 0,
    ensures
        echo == (line_name(line@) == Some(offered@.drop_last())),
{
    let length = line.len();
    if length == 0 || line[length - 1] != 0x0a {
        return false;
    }
    let name = vstd::slice::slice_subrange(line, 0, length - 1);
    let expected = vstd::slice::slice_subrange(offered, 0, offered.len() - 1);
    assert(name@ =~= line@.drop_last());
    assert(expected@ =~= offered@.drop_last());
    bytes_equal(name, expected)
}

/// The negotiation of one connection.
pub struct Multistream {
    stage: Stage,
}

impl View for Multistream {
    type V = Stage;

    closed spec fn view(&self) -> Stage {
        self.stage
    }
}

impl Multistream {
    /// A negotiation that has not started.
    pub fn new() -> (connection: Self)
        ensures
            connection@ == Stage::Connecting,
    {
        Multistream { stage: Stage::Connecting }
    }

    /// How far the negotiation has come.
    pub fn stage(&self) -> (stage: Stage)
        ensures
            stage == self@,
    {
        self.stage
    }

    /// Takes the negotiation one step further: returns what to do next on
    /// the connection for what happened on it.
    pub fn step(&mut self, event: Event) -> (action: Action)
        ensures
            (final(self)@, action@) == transition(old(self)@, event@),
    {
        let (stage, action) = match (self.stage, event) {
            (Stage::Connecting, Event::Connected) => (
                Stage::AwaitingMultistream,
                Action::Send(Self::serialize(MULTISTREAM_LINE.as_slice())),
            ),
            (Stage::AwaitingMultistream, Event::Received(record)) => {
                match Self::deserialize(record.as_slice()) {
                    Ok(line) => {
                        if echoes(line.as_slice(), MULTISTREAM_LINE.as_slice()) {
                            let line = AuthProtocol::Noise.name();
                            (Stage::AwaitingNoise, Action::Send(Self::serialize(line)))
                        } else {
                            (Stage::Failed, Action::Abort(MultistreamError::Negotiation()))
                        }
                    },
                    Err(e) => (Stage::Failed, Action::Abort(e)),
                }
            },
            (Stage::AwaitingNoise, Event::Received(record)) => {
                match Self::deserialize(record.as_slice()) {
                    Ok(line) => {
                        if echoes(line.as_slice(), AuthProtocol::Noise.name()) {
                            (Stage::Ready, Action::Finish)
                        } else {
                            (Stage::Failed, Action::Abort(MultistreamError::Auth()))
                        }
                    },
                    Err(e) => (Stage::Failed, Action::Abort(e)),
                }
            },
            _ => (Stage::Failed, Action::Abort(MultistreamError::Negotiation())),
        };
        self.stage = stage;
        action
    }

    /// A record before the handshake: the length of `message` as a varint,
    /// then `message`.
    pub fn serialize(message: &[u8]) -> (record: Vec<u8>)
        ensures
            record@ == spec_serialize(message@),
            spec_deserialize(record@) == Ok::<Seq<u8>, MultistreamError>(message@),
            spec_owed(record@) == Ok::<nat, MultistreamError>(0),
    {
        let mut record = varint::encode(message.len() as u64);
        record.extend_from_slice(message);
        proof {
            assert(record@ =~= spec_serialize(message@));
            lemma_deserialize_serialize(message@);
            lemma_record_owes_nothing(message@);
        }
        record
    }

    /// What a record before the handshake carries: the bytes after the
    /// leading varint, whole. `Varint` where the record does not start with
    /// a well-formed varint.
    pub fn deserialize(message: &[u8]) -> (payload: Result<Vec<u8>, MultistreamError>)
        ensures
            match spec_deserialize(message@) {
                Ok(expected) => payload matches Ok(p) && p@ == expected,
                Err(e) => payload == Err::<Vec<u8>, MultistreamError>(e),
            },
    {
        match varint::decode(message) {
            Ok((_, rest)) => Ok(vstd::slice::slice_to_vec(rest)),
            Err(_) => Err(MultistreamError::Varint()),
        }
    }

    /// The number of bytes still owed to a record before the handshake of
    /// which `received` has arrived: one more byte while the leading varint
    /// has not ended, then as many as it announces and have not arrived yet;
    /// zero for a whole record. `Varint` where the leading varint is not
    /// well formed.
    pub fn owed(received: &[u8]) -> (more: Result<u64, MultistreamError>)
        ensures
            match spec_owed(received@) {
                Ok(expected) => more == Ok::<u64, MultistreamError>(expected as u64) && expected
                    <= u64::MAX,
                Err(e) => more == Err::<u64, MultistreamError>(e),
            },
    {
        let total = received.len();
        let mut index: usize = 0;
        assert(received@.skip(0) =~= received@);
        while index < total && index < varint::MAX_LEN
            invariant
                index <= total,
                total == received@.len(),
                index <= varint::MAX_LEN,
                varint::continuation_run(received@) == index + varint::continuation_run(
                    received@.skip(index as int),
                ),
            decreases total - index,
        {
            proof {
                assert(received@.skip(index as int)[0] == received@[index as int]);
                assert(received@.skip(index as int).skip(1) =~= received@.skip(index + 1));
            }
            if received[index] < 128 {
                return match varint::decode(received) {
                    Ok((announced, rest)) => {
                        let arrived = rest.len() as u64;
                        if announced >= arrived {
                            Ok(announced - arrived)
                        } else {
                            Ok(0)
                        }
                    },
                    Err(_) => Err(MultistreamError::Varint()),
                };
            }
            index = index + 1;
        }
        if index == total && index < varint::MAX_LEN {
            Ok(1)
        } else {
            Err(MultistreamError::Varint())
        }
    }

    /// The bytes that carry `message` over the wire: after the handshake
    /// (`secure`) its length in two bytes, most significant first, then the
    /// message, which unframes to itself; before it, the serialized message.
    pub fn frame(message: &[u8], secure: bool) -> (record: Vec<u8>)
        requires
            secure ==> message@.len() <= MAX_RECORD,
        ensures
            record@ == if secure {
                spec_frame(message@)
            } else {
                spec_serialize(message@)
            },
            secure ==> spec_unframe(record@) == Some(message@),
    {
        if secure {
            let length = message.len();
            let mut record: Vec<u8> = Vec::new();
            record.push((length / 256) as u8);
            record.push((length % 256) as u8);
            record.extend_from_slice(message);
            proof {
                assert(record@ =~= spec_frame(message@));
                lemma_unframe_frame(message@);
            }
            record
        } else {
            Self::serialize(message)
        }
    }

    /// The number of payload bytes that the two length bytes of a record
    /// after the handshake announce.
    pub fn record_length(high: u8, low: u8) -> (length: usize)
        ensures
            length == high * 256 + low,
            length <= MAX_RECORD,
    {
        (high as usize) * 256 + (low as usize)
    }

    /// What a record after the handshake carries, or `None` where the record
    /// does not hold exactly as many bytes as its two length bytes announce.
    pub fn unframe(record: &[u8]) -> (message: Option<Vec<u8>>)
        ensures
            match spec_unframe(record@) {
                Some(expected) => message matches Some(m) && m@ == expected,
                None => message is None,
            },
    {
        if record.len() < 2 {
            return None;
        }
        let announced = Self::record_length(record[0], record[1]);
        if record.len() - 2 != announced {
            return None;
        }
        let body = vstd::slice::slice_subrange(record, 2, record.len());
        assert(body@ =~= record@.skip(2));
        Some(vstd::slice::slice_to_vec(body))
    }
}

} // verus!
