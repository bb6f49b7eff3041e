//! The protocol-buffer messages of the handshake payload.
//!
//! ```text
//! message NoiseHandshakePayload {
//!   optional bytes identity_key = 1;
//!   optional bytes identity_sig = 2;
//! }
//! message PublicKey {
//!   required KeyType type = 1;   // Ed25519 = 1
//!   required bytes   data = 2;
//! }
//! ```
//!
//! A message is a run of fields. Each field starts with a varint key, whose
//! low three bits give the wire type and whose other bits give the field
//! number. Fields that a message does not know are skipped; where a field
//! occurs more than once, its last value counts.

use crate::varint;
use vstd::prelude::*;

verus! {

/// The key type of Ed25519.
pub const ED25519: u64 = 1;

/// The value of a field, by wire type.
pub enum Value {
    /// Wire type 0.
    Varint(u64),
    /// Wire type 1: eight bytes.
    Fixed64(Vec<u8>),
    /// Wire type 2: a length and as many bytes.
    Bytes(Vec<u8>),
    /// Wire type 5: four bytes.
    Fixed32(Vec<u8>),
}

/// One field of a message.
pub struct Field {
    pub number: u64,
    pub value: Value,
}

/// The value of a field in contracts.
pub enum ValueView {
    Varint(u64),
    Fixed64(Seq<u8>),
    Bytes(Seq<u8>),
    Fixed32(Seq<u8>),
}

/// A field in contracts.
pub struct FieldView {
    pub number: nat,
    pub value: ValueView,
}

impl View for Value {
    type V = ValueView;

    open spec fn view(&self) -> ValueView {
        match self {
            Value::Varint(v) => ValueView::Varint(*v),
            Value::Fixed64(b) => ValueView::Fixed64(b@),
            Value::Bytes(b) => ValueView::Bytes(b@),
            Value::Fixed32(b) => ValueView::Fixed32(b@),
        }
    }
}

impl View for Field {
    type V = FieldView;

    open spec fn view(&self) -> FieldView {
        FieldView { number: self.number as nat, value: self.value@ }
    }
}

/// The varint at the start of `bytes` as protocol buffers read it, with the
/// number of bytes it takes: it ends within ten bytes and its value fits in
/// 64 bits. It need not be the shortest varint of its value.
pub open spec fn wire_varint(bytes: Seq<u8>) -> Option<(u64, nat)> {
    let run = varint::continuation_run(bytes);
    let number = varint::value(bytes, run + 1);
    if run < bytes.len() && run < varint::MAX_LEN && number <= u64::MAX {
        Some((number as u64, run + 1))
    } else {
        None
    }
}

/// The value that follows a key of wire type `wire`, and the number of bytes
/// it takes. Groups (wire types 3 and 4) and the unassigned wire types are
/// not accepted.
pub open spec fn parse_value(wire: nat, bytes: Seq<u8>) -> Option<(ValueView, nat)> {
    if wire == 0 {
        match wire_varint(bytes) {
            Some((v, used)) => Some((ValueView::Varint(v), used)),
            None => None,
        }
    } else if wire == 1 {
        if bytes.len() >= 8 {
            Some((ValueView::Fixed64(bytes.take(8)), 8))
        } else {
            None
        }
    } else if wire == 2 {
        match wire_varint(bytes) {
            Some((len, used)) => if bytes.len() - used >= len {
                Some((ValueView::Bytes(bytes.subrange(used as int, used + len)), used + len as nat))
            } else {
                None
            },
            None => None,
        }
    } else if wire == 5 {
        if bytes.len() >= 4 {
            Some((ValueView::Fixed32(bytes.take(4)), 4))
        } else {
            None
        }
    } else {
        None
    }
}

/// The field at the start of `bytes` and the number of bytes it takes. The
/// key must fit in 32 bits and name a field number other than zero.
pub open spec fn parse_field(bytes: Seq<u8>) -> Option<(FieldView, nat)> {
    match wire_varint(bytes) {
        Some((key, used)) => if key > u32::MAX || key / 8 == 0 {
            None
        } else {
            match parse_value((key % 8) as nat, bytes.skip(used as int)) {
                Some((value, more)) => Some(
                    (FieldView { number: (key / 8) as nat, value }, used + more),
                ),
                None => None,
            }
        },
        None => None,
    }
}

/// A field of bytes as it is written: key, length, bytes.
pub open spec fn bytes_field(number: nat, data: Seq<u8>) -> Seq<u8> {
    varint::encoding(number * 8 + 2) + varint::encoding(data.len()) + data
}

/// A varint field as it is written: key, value.
pub open spec fn varint_field(number: nat, value: u64) -> Seq<u8> {
    varint::encoding(number * 8) + varint::encoding(value as nat)
}

/// A `NoiseHandshakePayload` in contracts.
pub struct PayloadView {
    pub identity_key: Option<Seq<u8>>,
    pub identity_sig: Option<Seq<u8>>,
}

/// A `PublicKey` in contracts.
pub struct PublicKeyView {
    pub key_type: u64,
    pub data: Seq<u8>,
}

impl PayloadView {
    /// The message with no field set.
    pub open spec fn empty() -> PayloadView {
        PayloadView { identity_key: None, identity_sig: None }
    }

    /// The message after one more field: fields 1 and 2 must hold bytes,
    /// every other field is skipped.
    pub open spec fn merge(self, field: FieldView) -> Option<PayloadView> {
        if field.number == 1 {
            match field.value {
                ValueView::Bytes(b) => Some(PayloadView { identity_key: Some(b), ..self }),
                _ => None,
            }
        } else if field.number == 2 {
            match field.value {
                ValueView::Bytes(b) => Some(PayloadView { identity_sig: Some(b), ..self }),
                _ => None,
            }
        } else {
            Some(self)
        }
    }

    /// The message after all the fields of `bytes`, or `None` where `bytes`
    /// is not a run of well-formed fields.
    pub open spec fn parse_from(self, bytes: Seq<u8>) -> Option<PayloadView>
        decreases bytes.len(),
    {
        if bytes.len() == 0 {
            Some(self)
        } else {
            match parse_field(bytes) {
                Some((field, used)) => match self.merge(field) {
                    Some(next) => if 0 < used <= bytes.len() {
                        next.parse_from(bytes.skip(used as int))
                    } else {
                        None
                    },
                    None => None,
                },
                None => None,
            }
        }
    }

    /// The message that `bytes` holds.
    pub open spec fn parse(bytes: Seq<u8>) -> Option<PayloadView> {
        PayloadView::empty().parse_from(bytes)
    }

    /// The message as it is written: the fields that are set, in order.
    pub open spec fn encoding(self) -> Seq<u8> {
        (match self.identity_key {
            Some(key) => bytes_field(1, key),
            None => Seq::empty(),
        }) + (match self.identity_sig {
            Some(sig) => bytes_field(2, sig),
            None => Seq::empty(),
        })
    }
}

impl PublicKeyView {
    /// The message with no field set: type 0 and no data.
    pub open spec fn empty() -> PublicKeyView {
        PublicKeyView { key_type: 0, data: Seq::empty() }
    }

    /// The message after one more field: field 1 must hold a varint and
    /// field 2 bytes, every other field is skipped.
    pub open spec fn merge(self, field: FieldView) -> Option<PublicKeyView> {
        if field.number == 1 {
            match field.value {
                ValueView::Varint(v) => Some(PublicKeyView { key_type: v, ..self }),
                _ => None,
            }
        } else if field.number == 2 {
            match field.value {
                ValueView::Bytes(b) => Some(PublicKeyView { data: b, ..self }),
                _ => None,
            }
        } else {
            Some(self)
        }
    }

    /// The message after all the fields of `bytes`, or `None` where `bytes`
    /// is not a run of well-formed fields.
    pub open spec fn parse_from(self, bytes: Seq<u8>) -> Option<PublicKeyView>
        decreases bytes.len(),
    {
        if bytes.len() == 0 {
            Some(self)
        } else {
            match parse_field(bytes) {
                Some((field, used)) => match self.merge(field) {
                    Some(next) => if 0 < used <= bytes.len() {
                        next.parse_from(bytes.skip(used as int))
                    } else {
                        None
                    },
                    None => None,
                },
                None => None,
            }
        }
    }

    /// The message that `bytes` holds.
    pub open spec fn parse(bytes: Seq<u8>) -> Option<PublicKeyView> {
        PublicKeyView::empty().parse_from(bytes)
    }

    /// The message as it is written: the type, then the data.
    pub open spec fn encoding(self) -> Seq<u8> {
        varint_field(1, self.key_type) + bytes_field(2, self.data)
    }
}

/// The identity payload of a handshake message.
#[derive(Debug)]
pub struct NoiseHandshakePayload {
    pub identity_key: Option<Vec<u8>>,
    pub identity_sig: Option<Vec<u8>>,
}

/// A public key with its type.
#[derive(Debug)]
pub struct PublicKey {
    pub key_type: u64,
    pub data: Vec<u8>,
}

/// An optional byte string in contracts.
pub open spec fn optional_bytes(bytes: Option<Vec<u8>>) -> Option<Seq<u8>> {
    match bytes {
        Some(b) => Some(b@),
        None => None,
    }
}

impl View for NoiseHandshakePayload {
    type V = PayloadView;

    open spec fn view(&self) -> PayloadView {
        PayloadView {
            identity_key: optional_bytes(self.identity_key),
            identity_sig: optional_bytes(self.identity_sig),
        }
    }
}

impl View for PublicKey {
    type V = PublicKeyView;

    open spec fn view(&self) -> PublicKeyView {
        PublicKeyView { key_type: self.key_type, data: self.data@ }
    }
}

/// Reads the varint at the start of `bytes`; returns its value with the
/// bytes after it, or `None` where it does not end within ten bytes or does
/// not fit in 64 bits.
pub fn read_varint(bytes: &[u8]) -> (number: Option<(u64, &[u8])>)
    ensures
        match wire_varint(bytes@) {
            Some((expected, used)) => number matches Some((n, rest)) && n == expected && rest@
                == bytes@.skip(used as int) && 0 < used <= bytes@.len(),
            None => number is None,
        },
{
    let total = bytes.len();
    let mut sum: u128 = 0;
    let mut scale: u128 = 1;
    let mut index: usize = 0;
    assert(bytes@.skip(0) =~= bytes@);
    while index < total && index < varint::MAX_LEN
        invariant
            index <= total,
            total == bytes@.len(),
            index <= varint::MAX_LEN,
            varint::continuation_run(bytes@) == index + varint::continuation_run(
                bytes@.skip(index as int),
            ),
            sum == varint::value(bytes@, index as nat),
            scale == varint::radix_pow(index as nat),
        decreases total - index,
    {
        let byte = bytes[index];
        let digit = (byte % 128) as u128;
        proof {
            assert(bytes@.skip(index as int)[0] == bytes@[index as int]);
            assert(bytes@.skip(index as int).skip(1) =~= bytes@.skip(index + 1));
            varint::lemma_value_extends(bytes@, index as nat);
            varint::lemma_radix_pow_top();
            varint::lemma_radix_pow_grows(index as nat, 9);
            assert(digit * scale <= 127 * 0x8000_0000_0000_0000) by (nonlinear_arith)
                requires
                    digit <= 127,
                    scale <= 0x8000_0000_0000_0000,
            ;
        }
        let number = sum + digit * scale;
        if byte < 128 {
            if number > 0xffff_ffff_ffff_ffff {
                return None;
            }
            let rest = vstd::slice::slice_subrange(bytes, index + 1, total);
            assert(rest@ =~= bytes@.skip(index + 1));
            return Some((number as u64, rest));
        }
        if index == 9 {
            return None;
        }
        sum = number;
        scale = scale * 128;
        index = index + 1;
    }
    None
}

/// Reads the value that follows a key of wire type `wire`; returns it with
/// the bytes after it.
fn read_value(wire: u64, bytes: &[u8]) -> (value: Option<(Value, &[u8])>)
    ensures
        match parse_value(wire as nat, bytes@) {
            Some((expected, used)) => value matches Some((v, rest)) && v@ == expected && rest@
                == bytes@.skip(used as int) && 0 < used <= bytes@.len(),
            None => value is None,
        },
{
    let total = bytes.len();
    if wire == 0 {
        match read_varint(bytes) {
            Some((v, rest)) => Some((Value::Varint(v), rest)),
            None => None,
        }
    } else if wire == 1 {
        if total >= 8 {
            let head = vstd::slice::slice_subrange(bytes, 0, 8);
            let rest = vstd::slice::slice_subrange(bytes, 8, total);
            assert(head@ =~= bytes@.take(8));
            assert(rest@ =~= bytes@.skip(8));
            Some((Value::Fixed64(vstd::slice::slice_to_vec(head)), rest))
        } else {
            None
        }
    } else if wire == 2 {
        match read_varint(bytes) {
            Some((len, body)) => {
                let available = body.len();
                if len <= available as u64 {
                    let count = len as usize;
                    let ghost used = wire_varint(bytes@).unwrap().1;
                    let head = vstd::slice::slice_subrange(body, 0, count);
                    let rest = vstd::slice::slice_subrange(body, count, available);
                    assert(head@ =~= bytes@.subrange(used as int, used + len));
                    assert(rest@ =~= bytes@.skip((used + len) as int));
                    Some((Value::Bytes(vstd::slice::slice_to_vec(head)), rest))
                } else {
                    None
                }
            },
            None => None,
        }
    } else if wire == 5 {
        if total >= 4 {
            let head = vstd::slice::slice_subrange(bytes, 0, 4);
            let rest = vstd::slice::slice_subrange(bytes, 4, total);
            assert(head@ =~= bytes@.take(4));
            assert(rest@ =~= bytes@.skip(4));
            Some((Value::Fixed32(vstd::slice::slice_to_vec(head)), rest))
        } else {
            None
        }
    } else {
        None
    }
}

/// Reads the field at the start of `bytes`; returns it with the bytes after
/// it, or `None` where `bytes` does not start with a well-formed field.
pub fn read_field(bytes: &[u8]) -> (field: Option<(Field, &[u8])>)
    ensures
        match parse_field(bytes@) {
            Some((expected, used)) => field matches Some((f, rest)) && f@ == expected && rest@
                == bytes@.skip(used as int) && 0 < used <= bytes@.len(),
            None => field is None,
        },
{
    match read_varint(bytes) {
        Some((key, body)) => {
            if key > 0xffff_ffff || key / 8 == 0 {
                return None;
            }
            let ghost used = wire_varint(bytes@).unwrap().1;
            match read_value(key % 8, body) {
                Some((value, rest)) => {
                    proof {
                        let more = parse_value((key % 8) as nat, body@).unwrap().1;
                        assert(rest@ =~= bytes@.skip((used + more) as int));
                    }
                    Some((Field { number: key / 8, value }, rest))
                },
                None => None,
            }
        },
        None => None,
    }
}

/// Appends a field of bytes to `buffer`.
fn write_bytes_field(buffer: &mut Vec<u8>, number: u64, data: &[u8])
    requires
        number <= 0x1fff_ffff,
    ensures
        final(buffer)@ == old(buffer)@ + bytes_field(number as nat, data@),
        data@.len() <= usize::MAX,
        bytes_field(number as nat, data@).len() <= data@.len() + 2 * varint::MAX_LEN,
{
    let size = data.len();
    proof {
        varint::lemma_encoding_len((number * 8 + 2) as nat);
        varint::lemma_encoding_len(size as nat);
    }
    let ghost before = buffer@;
    let key = varint::encode(number * 8 + 2);
    let length = varint::encode(size as u64);
    buffer.extend_from_slice(key.as_slice());
    buffer.extend_from_slice(length.as_slice());
    buffer.extend_from_slice(data);
    assert(buffer@ =~= before + bytes_field(number as nat, data@));
}

/// Appends a varint field to `buffer`.
fn write_varint_field(buffer: &mut Vec<u8>, number: u64, value: u64)
    requires
        number <= 0x1fff_ffff,
    ensures
        final(buffer)@ == old(buffer)@ + varint_field(number as nat, value),
        varint_field(number as nat, value).len() <= 2 * varint::MAX_LEN,
{
    proof {
        varint::lemma_encoding_len((number * 8) as nat);
        varint::lemma_encoding_len(value as nat);
    }
    let ghost before = buffer@;
    let key = varint::encode(number * 8);
    let bytes = varint::encode(value);
    buffer.extend_from_slice(key.as_slice());
    buffer.extend_from_slice(bytes.as_slice());
    assert(buffer@ =~= before + varint_field(number as nat, value));
}

/// A written varint reads back as its number, whatever follows it.
pub proof fn lemma_wire_varint_of_encoding(n: nat, tail: Seq<u8>)
    requires
        n <= u64::MAX,
    ensures
        wire_varint(varint::encoding(n) + tail) == Some((n as u64, varint::encoding(n).len())),
        (varint::encoding(n) + tail).skip(varint::encoding(n).len() as int) == tail,
{
    varint::lemma_parse_encoding(n, tail);
    varint::lemma_encoding_len(n);
}

/// A field of bytes reads back as itself, whatever follows it.
pub proof fn lemma_parse_bytes_field(number: nat, data: Seq<u8>, tail: Seq<u8>)
    requires
        1 <= number <= 0x1fff_ffff,
        data.len() <= u64::MAX,
    ensures
        parse_field(bytes_field(number, data) + tail) == Some(
            (
                FieldView { number, value: ValueView::Bytes(data) },
                bytes_field(number, data).len(),
            ),
        ),
        (bytes_field(number, data) + tail).skip(bytes_field(number, data).len() as int) == tail,
        bytes_field(number, data).len() > 0,
{
    let key = varint::encoding(number * 8 + 2);
    let length = varint::encoding(data.len());
    let bytes = bytes_field(number, data) + tail;
    let body = length + (data + tail);
    varint::lemma_encoding_len(number * 8 + 2);
    varint::lemma_encoding_len(data.len());
    lemma_wire_varint_of_encoding(number * 8 + 2, body);
    lemma_wire_varint_of_encoding(data.len(), data + tail);
    assert(bytes =~= key + body);
    assert(bytes.skip(key.len() as int) =~= body);
    assert(body.subrange(length.len() as int, (length.len() + data.len()) as int) =~= data);
    assert((number * 8 + 2) / 8 == number);
    assert((number * 8 + 2) % 8 == 2);
    assert(bytes.skip(bytes_field(number, data).len() as int) =~= tail);
}

/// A varint field reads back as itself, whatever follows it.
pub proof fn lemma_parse_varint_field(number: nat, value: u64, tail: Seq<u8>)
    requires
        1 <= number <= 0x1fff_ffff,
    ensures
        parse_field(varint_field(number, value) + tail) == Some(
            (
                FieldView { number, value: ValueView::Varint(value) },
                varint_field(number, value).len(),
            ),
        ),
        (varint_field(number, value) + tail).skip(varint_field(number, value).len() as int)
            == tail,
        varint_field(number, value).len() > 0,
{
    let key = varint::encoding(number * 8);
    let bytes = varint_field(number, value) + tail;
    let body = varint::encoding(value as nat) + tail;
    varint::lemma_encoding_len(number * 8);
    varint::lemma_encoding_len(value as nat);
    lemma_wire_varint_of_encoding(number * 8, body);
    lemma_wire_varint_of_encoding(value as nat, tail);
    assert(bytes =~= key + body);
    assert(bytes.skip(key.len() as int) =~= body);
    assert((number * 8) / 8 == number);
    assert((number * 8) % 8 == 0);
    assert(bytes.skip(varint_field(number, value).len() as int) =~= tail);
}

/// Codec round trip: a written payload reads back as itself.
pub proof fn lemma_payload_round_trip(payload: PayloadView)
    requires
        payload.identity_key matches Some(key) ==> key.len() <= u64::MAX,
        payload.identity_sig matches Some(sig) ==> sig.len() <= u64::MAX,
    ensures
        PayloadView::parse(payload.encoding()) == Some(payload),
{
    let empty = PayloadView::empty();
    let nothing = Seq::<u8>::empty();
    let second = match payload.identity_sig {
        Some(sig) => bytes_field(2, sig),
        None => nothing,
    };
    let keyed = PayloadView { identity_key: payload.identity_key, identity_sig: None };
    assert(keyed.parse_from(second) == Some(payload)) by {
        match payload.identity_sig {
            Some(sig) => {
                lemma_parse_bytes_field(2, sig, nothing);
                assert(second + nothing =~= second);
                assert(second.skip(second.len() as int) =~= nothing);
                assert(payload.parse_from(nothing) == Some(payload));
                assert(keyed.merge(FieldView { number: 2, value: ValueView::Bytes(sig) })
                    == Some(payload));
            },
            None => {
                assert(keyed == payload);
            },
        }
    }
    match payload.identity_key {
        Some(key) => {
            lemma_parse_bytes_field(1, key, second);
            assert(payload.encoding() =~= bytes_field(1, key) + second);
            assert(empty.merge(FieldView { number: 1, value: ValueView::Bytes(key) }) == Some(
                keyed,
            ));
        },
        None => {
            assert(payload.encoding() =~= second);
        },
    }
}

/// Codec round trip: a written public key reads back as itself.
pub proof fn lemma_public_key_round_trip(key: PublicKeyView)
    requires
        key.data.len() <= u64::MAX,
    ensures
        PublicKeyView::parse(key.encoding()) == Some(key),
{
    let nothing = Seq::<u8>::empty();
    let second = bytes_field(2, key.data);
    let typed = PublicKeyView { key_type: key.key_type, data: nothing };
    lemma_parse_bytes_field(2, key.data, nothing);
    assert(second + nothing =~= second);
    assert(second.skip(second.len() as int) =~= nothing);
    assert(key.parse_from(nothing) == Some(key));
    assert(typed.merge(FieldView { number: 2, value: ValueView::Bytes(key.data) }) == Some(key));
    assert(typed.parse_from(second) == Some(key));
    lemma_parse_varint_field(1, key.key_type, second);
    assert(PublicKeyView::empty().merge(
        FieldView { number: 1, value: ValueView::Varint(key.key_type) },
    ) == Some(typed));
}

impl NoiseHandshakePayload {
    /// The payload as protocol-buffer bytes, which `decode` reads back.
    pub fn encode(&self) -> (bytes: Vec<u8>)
        ensures
            bytes@ == self@.encoding(),
            PayloadView::parse(bytes@) == Some(self@),
            bytes@.len() <= 4 * varint::MAX_LEN + (match self@.identity_key {
                Some(key) => key.len(),
                None => 0,
            }) + (match self@.identity_sig {
                Some(sig) => sig.len(),
                None => 0,
            }),
    {
        let mut bytes: Vec<u8> = Vec::new();
        match &self.identity_key {
            Some(key) => {
                write_bytes_field(&mut bytes, 1, key.as_slice());
            },
            None => {},
        }
        match &self.identity_sig {
            Some(sig) => {
                write_bytes_field(&mut bytes, 2, sig.as_slice());
            },
            None => {},
        }
        proof {
            assert(bytes@ =~= self@.encoding());
            lemma_payload_round_trip(self@);
        }
        bytes
    }

    /// The payload that `bytes` holds, or `None` where `bytes` is not a run
    /// of well-formed fields or field 1 or 2 does not hold bytes.
    pub fn decode(bytes: &[u8]) -> (payload: Option<NoiseHandshakePayload>)
        ensures
            match PayloadView::parse(bytes@) {
                Some(expected) => payload matches Some(p) && p@ == expected,
                None => payload is None,
            },
    {
        let mut payload = NoiseHandshakePayload { identity_key: None, identity_sig: None };
        let mut rest: &[u8] = bytes;
        while rest.len() > 0
            invariant
                PayloadView::parse(bytes@) == payload@.parse_from(rest@),
            decreases rest@.len(),
        {
            match read_field(rest) {
                Some((field, after)) => {
                    if field.number == 1 || field.number == 2 {
                        match field.value {
                            Value::Bytes(data) => {
                                if field.number == 1 {
                                    payload.identity_key = Some(data);
                                } else {
                                    payload.identity_sig = Some(data);
                                }
                            },
                            _ => {
                                return None;
                            },
                        }
                    }
                    rest = after;
                },
                None => {
                    return None;
                },
            }
        }
        Some(payload)
    }
}

impl PublicKey {
    /// The key as protocol-buffer bytes, which `decode` reads back.
    pub fn encode(&self) -> (bytes: Vec<u8>)
        ensures
            bytes@ == self@.encoding(),
            PublicKeyView::parse(bytes@) == Some(self@),
            bytes@.len() <= 4 * varint::MAX_LEN + self@.data.len(),
    {
        let mut bytes: Vec<u8> = Vec::new();
        write_varint_field(&mut bytes, 1, self.key_type);
        write_bytes_field(&mut bytes, 2, self.data.as_slice());
        proof {
            assert(bytes@ =~= self@.encoding());
            lemma_public_key_round_trip(self@);
        }
        bytes
    }

    /// The key that `bytes` holds, or `None` where `bytes` is not a run of
    /// well-formed fields, field 1 holds no varint or field 2 no bytes. A
    /// field that is absent leaves type 0 or empty data.
    pub fn decode(bytes: &[u8]) -> (key: Option<PublicKey>)
        ensures
            match PublicKeyView::parse(bytes@) {
                Some(expected) => key matches Some(k) && k@ == expected,
                None => key is None,
            },
    {
        let mut key = PublicKey { key_type: 0, data: Vec::new() };
        let mut rest: &[u8] = bytes;
        while rest.len() > 0
            invariant
                PublicKeyView::parse(bytes@) == key@.parse_from(rest@),
            decreases rest@.len(),
        {
            match read_field(rest) {
                Some((field, after)) => {
                    if field.number == 1 {
                        match field.value {
                            Value::Varint(v) => {
                                key.key_type = v;
                            },
                            _ => {
                                return None;
                            },
                        }
                    } else if field.number == 2 {
                        match field.value {
                            Value::Bytes(data) => {
                                key.data = data;
                            },
                            _ => {
                                return None;
                            },
                        }
                    }
                    rest = after;
                },
                None => {
                    return None;
                },
            }
        }
        Some(key)
    }
}

} // verus!
