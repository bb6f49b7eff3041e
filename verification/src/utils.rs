//! Byte-string helpers of the XOR metric.

use vstd::prelude::*;

verus! {

/// The number that `bytes` spell, most significant byte first.
pub open spec fn be_value(bytes: Seq<u8>) -> nat
    decreases bytes.len(),
{
    if bytes.len() == 0 {
        0
    } else {
        be_value(bytes.drop_last()) * 256 + bytes.last() as nat
    }
}

/// `bytes` followed by zero bytes up to eight bytes.
pub open spec fn padded(bytes: Seq<u8>) -> Seq<u8> {
    bytes + Seq::new((8 - bytes.len()) as nat, |i: int| 0u8)
}

/// What `assume_u64` returns: nothing for more than eight bytes; else the
/// number that the bytes, filled up with zeros to eight, spell.
pub open spec fn spec_assume_u64(bytes: Seq<u8>) -> Option<u64> {
    if bytes.len() > 8 {
        None
    } else {
        Some(be_value(padded(bytes)) as u64)
    }
}

/// The byte-wise XOR of two byte strings of one length.
pub open spec fn xor_bytes(a: Seq<u8>, b: Seq<u8>) -> Seq<u8> {
    Seq::new(a.len(), |i: int| a[i] ^ b[i])
}

/// What `xor_distance` returns: nothing for strings of different lengths;
/// else what `assume_u64` makes of their byte-wise XOR.
pub open spec fn spec_xor_distance(a: Seq<u8>, b: Seq<u8>) -> Option<u64> {
    if a.len() == b.len() {
        spec_assume_u64(xor_bytes(a, b))
    } else {
        None
    }
}

/// 256 to the power `digits`.
pub open spec fn radix_pow(digits: nat) -> nat
    decreases digits,
{
    if digits == 0 {
        1
    } else {
        256 * radix_pow((digits - 1) as nat)
    }
}

/// A byte string spells a number below 256 to the power of its length.
pub proof fn lemma_be_value_bound(bytes: Seq<u8>)
    ensures
        be_value(bytes) < radix_pow(bytes.len()),
    decreases bytes.len(),
{
    if bytes.len() > 0 {
        lemma_be_value_bound(bytes.drop_last());
    }
}

/// The seventh and the eighth power of 256.
pub proof fn lemma_radix_pow_top()
    ensures
        radix_pow(7) == 0x100_0000_0000_0000,
        radix_pow(8) == 0x1_0000_0000_0000_0000,
{
    assert(radix_pow(0) == 1);
    assert(radix_pow(1) == 0x100);
    assert(radix_pow(2) == 0x1_0000);
    assert(radix_pow(3) == 0x100_0000);
    assert(radix_pow(4) == 0x1_0000_0000);
    assert(radix_pow(5) == 0x100_0000_0000);
    assert(radix_pow(6) == 0x1_0000_0000_0000);
    assert(radix_pow(7) == 0x100_0000_0000_0000);
}

/// A higher power of 256 is no smaller.
pub proof fn lemma_radix_pow_grows(lower: nat, higher: nat)
    requires
        lower <= higher,
    ensures
        radix_pow(lower) <= radix_pow(higher),
    decreases higher,
{
    if lower < higher {
        lemma_radix_pow_grows(lower, (higher - 1) as nat);
    }
}

/// Eight bytes spell a number that fits in 64 bits.
pub proof fn lemma_eight_bytes_fit(bytes: Seq<u8>)
    requires
        bytes.len() <= 8,
    ensures
        be_value(bytes) <= u64::MAX,
        bytes.len() < 8 ==> be_value(bytes) < 0x100_0000_0000_0000,
{
    lemma_be_value_bound(bytes);
    lemma_radix_pow_top();
    lemma_radix_pow_grows(bytes.len(), 8);
    if bytes.len() < 8 {
        lemma_radix_pow_grows(bytes.len(), 7);
    }
}

/// Reads at most eight bytes as a 64-bit number, most significant byte
/// first; fewer than eight bytes are the leading ones and zeros follow. More
/// than eight bytes give `None`.
pub fn assume_u64(vec: Vec<u8>) -> (value: Option<u64>)
    ensures
        value == spec_assume_u64(vec@),
{
    if vec.len() > 8 {
        return None;
    }
    let ghost all = padded(vec@);
    let mut value: u64 = 0;
    let mut index: usize = 0;
    while index < 8
        invariant
            index <= 8,
            vec@.len() <= 8,
            all == padded(vec@),
            value == be_value(all.take(index as int)),
        decreases 8 - index,
    {
        let byte: u8 = if index < vec.len() {
            vec[index]
        } else {
            0
        };
        proof {
            let next = all.take(index + 1);
            assert(next.drop_last() =~= all.take(index as int));
            assert(next.last() == byte);
            lemma_eight_bytes_fit(all.take(index as int));
            lemma_eight_bytes_fit(next);
        }
        value = value * 256 + byte as u64;
        index = index + 1;
    }
    assert(all.take(8) =~= all);
    Some(value)
}

/// The XOR distance of two byte strings of one length of at most eight
/// bytes; `None` for strings that differ in length or are longer.
pub fn xor_distance(a: &Vec<u8>, b: &Vec<u8>) -> (distance: Option<u64>)
    ensures
        distance == spec_xor_distance(a@, b@),
{
    if a.len() != b.len() {
        return None;
    }
    let mut combined: Vec<u8> = Vec::new();
    let mut index: usize = 0;
    while index < a.len()
        invariant
            index <= a@.len(),
            a@.len() == b@.len(),
            combined@.len() == index,
            forall|i: int| 0 <= i < index ==> combined@[i] == a@[i] ^ b@[i],
        decreases a@.len() - index,
    {
        combined.push(a[index] ^ b[index]);
        index = index + 1;
    }
    assert(combined@ =~= xor_bytes(a@, b@));
    assume_u64(combined)
}

/// A distance between two values of one type.
pub trait Metric {
    /// Whether the distance between the two is defined.
    spec fn comparable(&self, other: &Self) -> bool;

    /// The distance between the two.
    spec fn distance(&self, other: &Self) -> u64;

    /// Computes the distance between the two.
    fn distance_to(&self, other: &Self) -> (d: u64)
        requires
            self.comparable(other),
        ensures
            d == self.distance(other),
    ;
}

} // verus!
