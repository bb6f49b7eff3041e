//! Node identifiers and their XOR metric.

use crate::utils::{spec_xor_distance, xor_distance, Metric};
use vstd::prelude::*;

verus! {

/// The identifier of a node.
pub type IpfsId = Vec<u8>;

impl Metric for IpfsId {
    /// Two identifiers are comparable when their XOR distance is defined:
    /// they have one length of at most eight bytes.
    open spec fn comparable(&self, other: &Self) -> bool {
        spec_xor_distance(self@, other@) is Some
    }

    open spec fn distance(&self, other: &Self) -> u64 {
        spec_xor_distance(self@, other@).unwrap()
    }

    /// The XOR distance of the two identifiers.
    fn distance_to(&self, other: &Self) -> (d: u64) {
        xor_distance(self, other).unwrap()
    }
}

} // verus!
