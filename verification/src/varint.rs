//! Unsigned varints (LEB128), which prefix multistream records and delimit
//! protocol-buffer fields.
//!
//! The two conversions are those of the `unsigned-varint` crate; what they
//! compute is stated here over byte sequences, and their agreement is proved.

use vstd::arithmetic::div_mod::{lemma_fundamental_div_mod, lemma_small_mod};
use vstd::prelude::*;

verus! {

/// The most bytes a 64-bit varint takes.
pub const MAX_LEN: usize = 10;

/// The varint of `n`: seven bits to a byte, least significant first, and the
/// high bit set on every byte but the last.
pub open spec fn encoding(n: nat) -> Seq<u8>
    decreases n,
{
    if n < 128 {
        seq![n as u8]
    } else {
        seq![(n % 128 + 128) as u8] + encoding(n / 128)
    }
}

/// The number of leading bytes of `bytes` that have the high bit set.
pub open spec fn continuation_run(bytes: Seq<u8>) -> nat
    decreases bytes.len(),
{
    if bytes.len() == 0 || bytes[0] < 128 {
        0
    } else {
        1 + continuation_run(bytes.skip(1))
    }
}

/// The number that the low seven bits of the first `count` bytes spell,
/// least significant first.
pub open spec fn value(bytes: Seq<u8>, count: nat) -> nat
    decreases count,
{
    if count == 0 || bytes.len() == 0 {
        0
    } else {
        (bytes[0] % 128) as nat + 128 * value(bytes.skip(1), (count - 1) as nat)
    }
}

/// Whether `bytes` starts with a varint that is accepted: it ends within ten
/// bytes, and where it is longer than one byte its last byte is not zero.
pub open spec fn accepted(bytes: Seq<u8>) -> bool {
    let run = continuation_run(bytes);
    &&& run < bytes.len()
    &&& run < MAX_LEN
    &&& (run > 0 ==> bytes[run as int] != 0)
}

/// The number of bytes that the varint at the start of `bytes` takes.
pub open spec fn length(bytes: Seq<u8>) -> nat {
    continuation_run(bytes) + 1
}

/// The varint at the start of `bytes`: its value, of which the low 64 bits
/// are kept, and the number of bytes it takes; `None` where it is not
/// accepted.
pub open spec fn parse(bytes: Seq<u8>) -> Option<(u64, nat)> {
    if accepted(bytes) {
        Some(((value(bytes, length(bytes)) % 0x1_0000_0000_0000_0000) as u64, length(bytes)))
    } else {
        None
    }
}

/// The error type of `unsigned_varint::decode`.
#[verifier::external_type_specification]
#[verifier::external_body]
pub struct ExDecodeError(unsigned_varint::decode::Error);

/// `unsigned_varint::encode::u64`: the varint of `n`.
#[verifier::external_body]
pub(crate) fn encode(n: u64) -> (bytes: Vec<u8>)
    ensures
        bytes@ == encoding(n as nat),
{
    let mut buffer = unsigned_varint::encode::u64_buffer();
    unsigned_varint::encode::u64(n, &mut buffer).to_vec()
}

/// `unsigned_varint::decode::u64`: the value of the varint that `bytes`
/// starts with and the bytes after it; an error where `bytes` is empty, the
/// varint does not end within ten bytes, or it ends in a zero byte that could
/// have been left out.
#[verifier::external_body]
pub(crate) fn decode(bytes: &[u8]) -> (decoded: Result<
    (u64, &[u8]),
    unsigned_varint::decode::Error,
>)
    ensures
        match decoded {
            Ok((n, rest)) => parse(bytes@) == Some((n, length(bytes@))) && rest@ == bytes@.skip(
                length(bytes@) as int,
            ),
            Err(_) => parse(bytes@) is None,
        },
{
    unsigned_varint::decode::u64(bytes)
}

/// 128 to the power `digits`.
pub open spec fn radix_pow(digits: nat) -> nat
    decreases digits,
{
    if digits == 0 {
        1
    } else {
        128 * radix_pow((digits - 1) as nat)
    }
}

/// A number below 128^`digits` has a varint of at most `digits` bytes.
proof fn lemma_encoding_len_bound(n: nat, digits: nat)
    requires
        digits >= 1,
        n < radix_pow(digits),
    ensures
        1 <= encoding(n).len() <= digits,
    decreases digits,
{
    if n >= 128 {
        assert(radix_pow(1) == 128) by {
            assert(radix_pow(0) == 1);
        }
        if digits == 1 {
            assert(false);
        } else {
            assert(n / 128 < radix_pow((digits - 1) as nat)) by {
                lemma_fundamental_div_mod(n as int, 128);
            }
            lemma_encoding_len_bound(n / 128, (digits - 1) as nat);
        }
    }
}

/// The ninth and the tenth power of 128.
pub proof fn lemma_radix_pow_top()
    ensures
        radix_pow(9) == 0x8000_0000_0000_0000,
        radix_pow(10) == 0x40_0000_0000_0000_0000,
{
    assert(radix_pow(0) == 1);
    assert(radix_pow(1) == 0x80);
    assert(radix_pow(2) == 0x4000);
    assert(radix_pow(3) == 0x20_0000);
    assert(radix_pow(4) == 0x1000_0000);
    assert(radix_pow(5) == 0x8_0000_0000);
    assert(radix_pow(6) == 0x400_0000_0000);
    assert(radix_pow(7) == 0x2_0000_0000_0000);
    assert(radix_pow(8) == 0x100_0000_0000_0000);
    assert(radix_pow(9) == 0x8000_0000_0000_0000);
}

/// A higher power of 128 is no smaller.
pub proof fn lemma_radix_pow_grows(lower: nat, higher: nat)
    requires
        lower <= higher,
    ensures
        1 <= radix_pow(lower) <= radix_pow(higher),
    decreases higher,
{
    if lower < higher {
        lemma_radix_pow_grows(lower, (higher - 1) as nat);
    } else if lower > 0 {
        lemma_radix_pow_grows((lower - 1) as nat, (lower - 1) as nat);
    }
}

/// One more byte adds its low seven bits at the next power of 128.
pub proof fn lemma_value_extends(bytes: Seq<u8>, count: nat)
    requires
        count < bytes.len(),
    ensures
        value(bytes, count + 1) == value(bytes, count) + (bytes[count as int] % 128) * radix_pow(
            count,
        ),
        value(bytes, count) < radix_pow(count),
    decreases count,
{
    let digit = (bytes[0] % 128) as nat;
    let tail = bytes.skip(1);
    if count == 0 {
        assert(value(tail, 0) == 0);
        assert(value(bytes, 0) == 0);
        assert(value(bytes, 1) == digit + 128 * value(tail, 0));
        assert(radix_pow(0) == 1);
        assert(digit * 1 == digit) by (nonlinear_arith);
    } else {
        let before = (count - 1) as nat;
        lemma_value_extends(tail, before);
        assert(tail[before as int] == bytes[count as int]);
        let added = (bytes[count as int] % 128) as nat;
        let low = value(tail, before);
        let power = radix_pow(before);
        assert(value(bytes, count + 1) == digit + 128 * value(tail, count));
        assert(value(bytes, count) == digit + 128 * low);
        assert(radix_pow(count) == 128 * power);
        assert(value(tail, count) == low + added * power);
        assert(128 * (low + added * power) == 128 * low + added * (128 * power))
            by (nonlinear_arith);
        assert(digit + 128 * low < 128 * power) by (nonlinear_arith)
            requires
                digit < 128,
                low < power,
        ;
    }
}

/// A varint takes between one and ten bytes.
pub proof fn lemma_encoding_len(n: nat)
    requires
        n <= u64::MAX,
    ensures
        1 <= encoding(n).len() <= MAX_LEN,
{
    lemma_radix_pow_top();
    lemma_encoding_len_bound(n, 10);
}

/// Reading back: whatever follows the varint of `n`, the varint is accepted,
/// takes as many bytes as it has, and has the value `n`.
pub proof fn lemma_parse_encoding(n: nat, tail: Seq<u8>)
    requires
        n <= u64::MAX,
    ensures
        parse(encoding(n) + tail) == Some((n as u64, encoding(n).len())),
        (encoding(n) + tail).skip(encoding(n).len() as int) == tail,
        continuation_run(encoding(n) + tail) == encoding(n).len() - 1,
        value(encoding(n) + tail, encoding(n).len()) == n,
{
    let bytes = encoding(n) + tail;
    lemma_encoding_len(n);
    lemma_run_of_encoding(n, tail);
    lemma_value_of_encoding(n, tail);
    lemma_last_byte(n);
    assert(bytes[encoding(n).len() - 1] == encoding(n)[encoding(n).len() - 1]);
    lemma_small_mod(n, 0x1_0000_0000_0000_0000);
    assert(bytes.skip(encoding(n).len() as int) =~= tail);
}

/// Every byte of a varint but the last has the high bit set.
proof fn lemma_run_of_encoding(n: nat, tail: Seq<u8>)
    ensures
        continuation_run(encoding(n) + tail) == encoding(n).len() - 1,
    decreases n,
{
    let bytes = encoding(n) + tail;
    if n >= 128 {
        assert(bytes[0] == (n % 128 + 128) as u8);
        assert(bytes.skip(1) =~= encoding(n / 128) + tail);
        lemma_run_of_encoding(n / 128, tail);
    } else {
        assert(bytes[0] == n as u8);
    }
}

/// The bytes of a varint spell the number it was made of.
proof fn lemma_value_of_encoding(n: nat, tail: Seq<u8>)
    ensures
        value(encoding(n) + tail, encoding(n).len()) == n,
    decreases n,
{
    let bytes = encoding(n) + tail;
    if n >= 128 {
        assert(bytes[0] == (n % 128 + 128) as u8);
        assert(bytes.skip(1) =~= encoding(n / 128) + tail);
        lemma_value_of_encoding(n / 128, tail);
        lemma_fundamental_div_mod(n as int, 128);
        assert(value(bytes, encoding(n).len()) == (bytes[0] % 128) as nat + 128 * value(
            bytes.skip(1),
            (encoding(n).len() - 1) as nat,
        ));
    } else {
        assert(bytes[0] == n as u8);
        assert(bytes.skip(1) =~= tail);
        assert(value(bytes, 1) == (bytes[0] % 128) as nat + 128 * value(bytes.skip(1), 0));
    }
}

/// A varint of more than one byte does not end in zero.
proof fn lemma_last_byte(n: nat)
    ensures
        encoding(n).len() >= 1,
        encoding(n).len() > 1 ==> encoding(n)[encoding(n).len() - 1] != 0,
    decreases n,
{
    if n >= 128 {
        lemma_last_byte(n / 128);
        let rest = encoding(n / 128);
        assert(encoding(n)[encoding(n).len() - 1] == rest[rest.len() - 1]);
        if rest.len() == 1 {
            if n / 128 >= 128 {
                lemma_last_byte(n / 128 / 128);
            }
            assert(n / 128 >= 1);
            assert(n / 128 < 128);
            assert(rest[0] == (n / 128) as u8);
        }
    }
}

} // verus!
