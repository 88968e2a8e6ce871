//! The fixed hashes of the sparse Merkle tree: the hash of an occupied leaf,
//! the hash of an empty leaf, and the hash that an empty subtree has on each level.
use vstd::prelude::*;

use crate::merkle::hash_node;
use crate::merkle::sha256_digest;

verus! {

/// Hash of an empty leaf (SHA-256 of the single byte 0).
pub open spec fn zero_hash_spec() -> Seq<u8> {
    seq![110, 52, 11, 156, 255, 179, 122, 152, 156, 165, 68, 230, 187, 120, 10, 44, 120, 144, 29, 63, 179, 55, 56, 118, 133, 17, 163, 6, 23, 175, 160, 29]
}

/// Hash of an occupied leaf (SHA-256 of the single byte 1).
pub open spec fn one_hash_spec() -> Seq<u8> {
    seq![75, 245, 18, 47, 52, 69, 84, 197, 59, 222, 46, 187, 140, 210, 183, 227, 209, 96, 10, 214, 49, 195, 133, 165, 215, 204, 226, 60, 119, 133, 69, 154]
}

/// `default_hash_spec(d)` is the hash of an empty subtree whose root lies at depth `d + 1`;
/// it stands for a child of a node at depth `d` that the tree does not store. An
/// empty leaf (depth 32) hashes to `zero_hash_spec()`, and an empty node above it
/// hashes to the SHA-256 of its two empty children.
pub open spec fn default_hash_spec(level: int) -> Seq<u8>
    decreases 31 - level,
{
    if level >= 31 {
        zero_hash_spec()
    } else {
        sha256_digest(default_hash_spec(level + 1) + default_hash_spec(level + 1))@
    }
}

/// Hash of an empty leaf.
pub fn zero_hash() -> (r: [u8; 32])
    ensures
        r@ == zero_hash_spec(),
{
    [110, 52, 11, 156, 255, 179, 122, 152, 156, 165, 68, 230, 187, 120, 10, 44, 120, 144, 29, 63, 179, 55, 56, 118, 133, 17, 163, 6, 23, 175, 160, 29]
}

/// Hash of an occupied leaf.
pub fn one_hash() -> (r: [u8; 32])
    ensures
        r@ == one_hash_spec(),
{
    [75, 245, 18, 47, 52, 69, 84, 197, 59, 222, 46, 187, 140, 210, 183, 227, 209, 96, 10, 214, 49, 195, 133, 165, 215, 204, 226, 60, 119, 133, 69, 154]
}

/// The hash of an empty subtree that hangs below a node of depth `level`, computed
/// from the empty leaf upwards.
pub fn default_hash(level: usize) -> (r: [u8; 32])
    requires
        level < 32,
    ensures
        r@ == default_hash_spec(level as int),
{
    let mut h = zero_hash();
    let mut d: usize = 31;
    while d > level
        invariant
            level <= d <= 31,
            h@ == default_hash_spec(d as int),
        decreases d,
    {
        h = hash_node(&h, &h);
        d -= 1;
    }
    h
}

} // verus!
