use noise_handshake::kad::node::IpfsId;
use noise_handshake::utils::{assume_u64, xor_distance, Metric};

#[test]
fn assume_u64_reads_eight_bytes_big_endian() {
    assert_eq!(assume_u64(vec![0, 0, 0, 0, 0, 0, 0, 1]), Some(1));
    assert_eq!(assume_u64(vec![0, 0, 0, 0, 0, 0, 1, 0]), Some(256));
    assert_eq!(
        assume_u64(vec![1, 2, 3, 4, 5, 6, 7, 8]),
        Some(0x0102_0304_0506_0708)
    );
    assert_eq!(assume_u64(vec![0xff; 8]), Some(u64::MAX));
}

#[test]
fn assume_u64_fills_short_input_with_trailing_zeros() {
    assert_eq!(assume_u64(vec![]), Some(0));
    assert_eq!(assume_u64(vec![1]), Some(1 << 56));
    assert_eq!(assume_u64(vec![0xab, 0xcd]), Some(0xabcd_0000_0000_0000));
    assert_eq!(assume_u64(vec![1, 2, 3, 4, 5, 6, 7]), Some(0x0102_0304_0506_0700));
}

#[test]
fn assume_u64_refuses_more_than_eight_bytes() {
    assert_eq!(assume_u64(vec![0; 9]), None);
    assert_eq!(assume_u64(vec![1; 32]), None);
}

#[test]
fn xor_distance_is_the_xor_read_as_a_number() {
    let a = vec![0, 0, 0, 0, 0, 0, 0, 0b1100];
    let b = vec![0, 0, 0, 0, 0, 0, 0, 0b1010];
    assert_eq!(xor_distance(&a, &b), Some(0b0110));
    assert_eq!(xor_distance(&a, &a), Some(0));
    assert_eq!(xor_distance(&b, &a), xor_distance(&a, &b));
    assert_eq!(xor_distance(&vec![0xff], &vec![0x0f]), Some(0xf0 << 56));
    assert_eq!(xor_distance(&vec![], &vec![]), Some(0));
}

#[test]
fn xor_distance_needs_equal_lengths_of_at_most_eight() {
    assert_eq!(xor_distance(&vec![1, 2], &vec![1]), None);
    assert_eq!(xor_distance(&vec![0; 9], &vec![0; 9]), None);
    assert_eq!(xor_distance(&vec![0; 32], &vec![1; 32]), None);
}

#[test]
fn identifiers_measure_their_xor_distance() {
    let a: IpfsId = vec![0, 0, 0, 0, 0, 0, 1, 0];
    let b: IpfsId = vec![0, 0, 0, 0, 0, 0, 0, 1];
    assert_eq!(a.distance_to(&b), 257);
    assert_eq!(a.distance_to(&a), 0);
    assert_eq!(b.distance_to(&a), 257);
}
