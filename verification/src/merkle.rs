//! Sparse Merkle tree over the 2^32 leaves indexed by `u32` values.
//!
//! A leaf is occupied when its index belongs to the tree's value set. The tree
//! stores only the nodes that differ from the hash of an empty subtree of their
//! level; every other node takes that default hash.
use vstd::prelude::*;
use std::collections::HashMap;
use std::collections::HashSet;
use sha2::Digest;
use sha2::Sha256;
use vstd::std_specs::iter::IteratorSpec;
use vstd::arithmetic::power2::pow2;
use vstd::arithmetic::power2::lemma_pow2_unfold;
use vstd::arithmetic::power2::lemma2_to64;

use crate::default_hashes::default_hash;
use crate::default_hashes::default_hash_spec;
use crate::default_hashes::one_hash;
use crate::default_hashes::one_hash_spec;
use crate::default_hashes::zero_hash_spec;

verus! {

broadcast use {vstd::std_specs::hash::group_hash_axioms, vstd::seq_lib::group_seq_properties};

/// Depth of the tree: leaves lie at depth 32, the root at depth 0.
pub const TREE_DEPTH: usize = 32;

/// The SHA-256 digest of a byte sequence, as `sha2` computes it.
pub uninterp spec fn sha256_digest(data: Seq<u8>) -> [u8; 32];

/// Calls `sha2::Sha256::digest`. Trusted: the result is the SHA-256 digest of
/// `data`, a function of the bytes alone; nothing more is said of its value.
#[verifier::external_body]
fn sha256(data: &[u8]) -> (r: [u8; 32])
    ensures
        r == sha256_digest(data@),
{
    Sha256::digest(data).into()
}

/// Compute parent as the hash of two child nodes: SHA-256 of `left || right`.
pub fn hash_node(left: &[u8; 32], right: &[u8; 32]) -> (r: [u8; 32])
    ensures
        r == sha256_digest(left@ + right@),
{
    let mut buf = [0u8; 64];
    let mut i: usize = 0;
    while i < 32
        invariant
            0 <= i <= 32,
            forall|j: int| 0 <= j < i ==> buf@[j] == left@[j],
            forall|j: int| 0 <= j < i ==> buf@[32 + j] == right@[j],
        decreases 32 - i,
    {
        buf[i] = left[i];
        buf[32 + i] = right[i];
        i += 1;
    }
    assert(buf@ =~= left@ + right@);
    sha256(&buf)
}

/// Byte-wise equality of two 32-byte hashes.
pub fn hash_eq(a: &[u8; 32], b: &[u8; 32]) -> (r: bool)
    ensures
        r == (a@ == b@),
{
    let mut i: usize = 0;
    while i < 32
        invariant
            0 <= i <= 32,
            forall|j: int| 0 <= j < i ==> a@[j] == b@[j],
        decreases 32 - i,
    {
        if a[i] != b[i] {
            return false;
        }
        i += 1;
    }
    assert(a@ =~= b@);
    true
}

/// The hash the tree stores for the node at `depth` and `index`, or `None` when
/// the node equals the default hash of its level and is not stored.
pub open spec fn node_hash(values: Set<u32>, depth: nat, index: int) -> Option<Seq<u8>>
    decreases 32 - depth,
{
    if depth >= 32 {
        if 0 <= index <= u32::MAX && values.contains(index as u32) {
            Some(one_hash_spec())
        } else {
            None
        }
    } else {
        let dflt = default_hash_spec(depth as int);
        let l = match node_hash(values, depth + 1, 2 * index) {
            Some(h) => h,
            None => dflt,
        };
        let r = match node_hash(values, depth + 1, 2 * index + 1) {
            Some(h) => h,
            None => dflt,
        };
        if l != dflt || r != dflt {
            Some(sha256_digest(l + r)@)
        } else {
            None
        }
    }
}

/// Hash of the node at `depth` (at least 1) and `index` as seen by its parent:
/// the stored hash, or the default hash of the level.
pub open spec fn child_hash(values: Set<u32>, depth: nat, index: int) -> Seq<u8> {
    match node_hash(values, depth, index) {
        Some(h) => h,
        None => default_hash_spec(depth - 1),
    }
}

/// Root of the tree over `values`. With no stored root node, the tree answers
/// with `default_hash_spec(0)`.
pub open spec fn tree_root(values: Set<u32>) -> Seq<u8> {
    match node_hash(values, 0, 0) {
        Some(h) => h,
        None => default_hash_spec(0),
    }
}

/// Index of the ancestor `k` levels above leaf `v`: `v >> k`.
pub open spec fn shifted(v: int, k: nat) -> int
    decreases k,
{
    if k == 0 {
        v
    } else {
        shifted(v, (k - 1) as nat) / 2
    }
}

/// Index of the other child of the same parent: `x ^ 1`.
pub open spec fn sibling(x: int) -> int {
    if x % 2 == 0 {
        x + 1
    } else {
        x - 1
    }
}

/// Entry `k` of the authentication path of `value`: the hash of the sibling of
/// the node `k` levels above the leaf.
pub open spec fn auth_path_entry(values: Set<u32>, value: u32, k: nat) -> Seq<u8> {
    child_hash(values, (32 - k) as nat, sibling(shifted(value as int, k)))
}

/// The whole authentication path of `value`, from the leaf level upwards.
pub open spec fn auth_path_spec(values: Set<u32>, value: u32) -> Seq<Seq<u8>> {
    Seq::new(32, |k: int| auth_path_entry(values, value, k as nat))
}

/// Hash obtained by climbing `k` levels from a leaf hashing to `start` at index
/// `value`, combining with `path[0]`, ..., `path[k - 1]`.
pub open spec fn climb_from(start: Seq<u8>, value: int, path: Seq<Seq<u8>>, k: nat) -> Seq<u8>
    decreases k,
{
    if k == 0 {
        start
    } else {
        let h = climb_from(start, value, path, (k - 1) as nat);
        if shifted(value, (k - 1) as nat) % 2 == 0 {
            sha256_digest(h + path[k - 1])@
        } else {
            sha256_digest(path[k - 1] + h)@
        }
    }
}

/// Hash obtained by climbing `k` levels from the occupied leaf `value`, combining
/// with `path[0]`, ..., `path[k - 1]`.
pub open spec fn climb(value: int, path: Seq<Seq<u8>>, k: nat) -> Seq<u8> {
    climb_from(one_hash_spec(), value, path, k)
}

/// The stored nodes of one depth: `m` holds exactly the nodes that `node_hash`
/// stores at `depth`, with their hashes.
pub open spec fn level_matches(m: Map<u32, [u8; 32]>, values: Set<u32>, depth: nat) -> bool {
    &&& forall|i: u32| #[trigger] m.contains_key(i) == (node_hash(values, depth, i as int) is Some)
    &&& forall|i: u32|
        m.contains_key(i) ==> node_hash(values, depth, i as int) == Some(#[trigger] m[i]@)
}

/// A stored node has an index that fits in a `u32`.
proof fn lemma_node_index_bound(values: Set<u32>, depth: nat, index: int)
    requires
        node_hash(values, depth, index) is Some,
    ensures
        0 <= index <= u32::MAX,
    decreases 32 - depth,
{
    if depth < 32 {
        if node_hash(values, depth + 1, 2 * index) is Some {
            lemma_node_index_bound(values, depth + 1, 2 * index);
        } else {
            lemma_node_index_bound(values, depth + 1, 2 * index + 1);
        }
    }
}

/// The view of a `HashSet` as a duplicate-free vector.
fn collect_values(values: &HashSet<u32>) -> (r: Vec<u32>)
    ensures
        r@.to_set() == values@,
        r@.no_duplicates(),
{
    let mut out: Vec<u32> = Vec::new();
    let ghost keys = values.iter().remaining().unref();
    for v in it: values.iter()
        invariant
            it.seq().unref() == keys,
            keys.to_set() == values@,
            keys.no_duplicates(),
            out@ == keys.take(it.index() as int),
    {
        out.push(*v);
    }
    assert(keys.take(keys.len() as int) == keys);
    out
}

/// Stored hash of `index`, or `dflt` when the level does not store it.
fn lookup(level: &HashMap<u32, [u8; 32]>, index: u32, dflt: [u8; 32]) -> (r: [u8; 32])
    ensures
        level@.contains_key(index) ==> r == level@[index],
        !level@.contains_key(index) ==> r == dflt,
{
    match level.get(&index) {
        Some(h) => *h,
        None => dflt,
    }
}

/// The stored leaves: every value of the set maps to the occupied-leaf hash.
fn leaf_level(leaves: &Vec<u32>, Ghost(values): Ghost<Set<u32>>) -> (r: HashMap<u32, [u8; 32]>)
    requires
        leaves@.to_set() == values,
    ensures
        level_matches(r@, values, 32),
{
    let mut level: HashMap<u32, [u8; 32]> = HashMap::new();
    let mut j: usize = 0;
    while j < leaves.len()
        invariant
            0 <= j <= leaves.len(),
            leaves@.to_set() == values,
            forall|i: u32| #[trigger] level@.contains_key(i) == leaves@.take(j as int).contains(i),
            forall|i: u32| level@.contains_key(i) ==> (#[trigger] level@[i])@ == one_hash_spec(),
        decreases leaves.len() - j,
    {
        let v = leaves[j];
        level.insert(v, one_hash());
        assert forall|i: u32| #[trigger] level@.contains_key(i) == leaves@.take(j + 1).contains(i) by {
            assert(leaves@.take(j + 1) == leaves@.take(j as int).push(v));
        }
        j += 1;
    }
    assert(leaves@.take(leaves.len() as int) == leaves@);
    assert forall|i: u32| #[trigger] level@.contains_key(i) == (node_hash(values, 32, i as int) is Some) by {
        if level@.contains_key(i) {
            assert(leaves@.contains(i));
            assert(values.contains(i));
        }
        if values.contains(i) {
            assert(leaves@.to_set().contains(i));
        }
    }
    level
}

/// Builds the stored nodes of depth `child_depth - 1` from those of `child_depth`:
/// for each stored child, its parent is computed from both children and kept when
/// it differs from the default hash.
fn parent_level(
    child: &HashMap<u32, [u8; 32]>,
    child_keys: &Vec<u32>,
    child_depth: usize,
    Ghost(values): Ghost<Set<u32>>,
) -> (r: (HashMap<u32, [u8; 32]>, Vec<u32>))
    requires
        1 <= child_depth <= 32,
        level_matches(child@, values, child_depth as nat),
        forall|i: u32| #[trigger] child@.contains_key(i) == child_keys@.contains(i),
    ensures
        level_matches(r.0@, values, (child_depth - 1) as nat),
        forall|i: u32| #[trigger] r.0@.contains_key(i) == r.1@.contains(i),
{
    let depth = child_depth - 1;
    let ghost d = depth as nat;
    let dflt = default_hash(depth);
    let mut parent: HashMap<u32, [u8; 32]> = HashMap::new();
    let mut keys: Vec<u32> = Vec::new();
    let mut j: usize = 0;
    while j < child_keys.len()
        invariant
            0 <= j <= child_keys.len(),
            depth + 1 == child_depth,
            1 <= child_depth <= 32,
            d == depth,
            dflt@ == default_hash_spec(depth as int),
            level_matches(child@, values, child_depth as nat),
            forall|i: u32| #[trigger] child@.contains_key(i) == child_keys@.contains(i),
            forall|q: u32|
                parent@.contains_key(q) ==> node_hash(values, d, q as int) == Some(
                    (#[trigger] parent@[q])@,
                ),
            forall|q: u32| #[trigger] parent@.contains_key(q) == keys@.contains(q),
            forall|jj: int|
                0 <= jj < j ==> (node_hash(values, d, ((#[trigger] child_keys@[jj]) / 2) as int) is Some
                    ==> parent@.contains_key(child_keys@[jj] / 2)),
        decreases child_keys.len() - j,
    {
        let p = child_keys[j] / 2;
        let left = lookup(child, p * 2, dflt);
        let right = lookup(child, p * 2 + 1, dflt);
        proof {
            assert(left@ == child_hash(values, child_depth as nat, 2 * p));
            assert(right@ == child_hash(values, child_depth as nat, 2 * p + 1));
        }
        if !hash_eq(&left, &dflt) || !hash_eq(&right, &dflt) {
            let h = hash_node(&left, &right);
            assert(node_hash(values, d, p as int) == Some(h@));
            parent.insert(p, h);
            keys.push(p);
            assert forall|q: u32| #[trigger] parent@.contains_key(q) == keys@.contains(q) by {
                if q == p {
                    assert(keys@[keys@.len() - 1] == p);
                }
            }
        } else {
            assert(node_hash(values, d, p as int) is None);
        }
        j += 1;
    }
    assert forall|q: u32| #[trigger] parent@.contains_key(q) == (node_hash(values, d, q as int) is Some) by {
        if parent@.contains_key(q) {
            assert(node_hash(values, d, q as int) == Some(parent@[q]@));
        }
        if node_hash(values, d, q as int) is Some {
            let c: int = if node_hash(values, child_depth as nat, 2 * q) is Some {
                2 * q
            } else {
                2 * q + 1
            };
            assert(node_hash(values, child_depth as nat, c) is Some);
            lemma_node_index_bound(values, child_depth as nat, c);
            assert(child@.contains_key(c as u32));
            assert(child_keys@.contains(c as u32));
            let jj = choose|jj: int| 0 <= jj < child_keys@.len() && child_keys@[jj] == c as u32;
            assert(child_keys@[jj] / 2 == q);
            assert(node_hash(values, d, (child_keys@[jj] / 2) as int) is Some);
            assert(parent@.contains_key(child_keys@[jj] / 2));
        }
    }
    (parent, keys)
}

/// All stored nodes of the tree over `values`: entry `k` holds the nodes of depth `32 - k`.
fn node_map(values: &HashSet<u32>) -> (levels: Vec<HashMap<u32, [u8; 32]>>)
    ensures
        levels@.len() == 33,
        forall|k: int| 0 <= k <= 32 ==> level_matches(#[trigger] levels@[k]@, values@, (32 - k) as nat),
{
    let leaves = collect_values(values);
    let mut level = leaf_level(&leaves, Ghost(values@));
    let mut keys = leaves;
    let mut levels: Vec<HashMap<u32, [u8; 32]>> = Vec::new();
    let mut k: usize = 0;
    while k < TREE_DEPTH
        invariant
            0 <= k <= 32,
            levels@.len() == k,
            forall|kk: int| 0 <= kk < k ==> level_matches(#[trigger] levels@[kk]@, values@, (32 - kk) as nat),
            level_matches(level@, values@, (32 - k) as nat),
            forall|i: u32| #[trigger] level@.contains_key(i) == keys@.contains(i),
        decreases 32 - k,
    {
        let (next, next_keys) = parent_level(&level, &keys, TREE_DEPTH - k, Ghost(values@));
        levels.push(level);
        level = next;
        keys = next_keys;
        k += 1;
    }
    levels.push(level);
    levels
}

/// `v >> k` stays below `2^(32 - k)` for a `u32` value `v`; in particular `v >> 32 == 0`.
proof fn lemma_shifted_bound(v: u32, k: nat)
    requires
        k <= 32,
    ensures
        0 <= shifted(v as int, k) < pow2((32 - k) as nat),
    decreases k,
{
    if k == 0 {
        lemma2_to64();
    } else {
        lemma_shifted_bound(v, (k - 1) as nat);
        lemma_pow2_unfold((33 - k) as nat);
    }
}

/// Every default hash is 32 bytes long.
proof fn lemma_default_len(level: int)
    ensures
        default_hash_spec(level).len() == 32,
{
    if level < 31 {
        assert(default_hash_spec(level) == sha256_digest(
            default_hash_spec(level + 1) + default_hash_spec(level + 1),
        )@);
    }
}

/// Every stored hash is 32 bytes long.
proof fn lemma_node_hash_len(values: Set<u32>, depth: nat, index: int)
    ensures
        node_hash(values, depth, index) matches Some(h) ==> h.len() == 32,
{
}

/// Every entry of an authentication path is 32 bytes long.
pub proof fn lemma_tree_hash_len(values: Set<u32>, value: u32, k: int)
    requires
        0 <= k < 32,
    ensures
        auth_path_spec(values, value)[k].len() == 32,
{
    lemma_default_len(31 - k);
    lemma_node_hash_len(values, (32 - k) as nat, sibling(shifted(value as int, k as nat)));
}

/// Below the root, the hash a parent sees of a node is the SHA-256 of what it sees
/// of the node's two children, stored or not: an empty node's default hash is the
/// hash of two empty children.
proof fn lemma_child_hash_is_hash(values: Set<u32>, depth: nat, index: int)
    requires
        1 <= depth <= 31,
    ensures
        child_hash(values, depth, index) == sha256_digest(
            child_hash(values, depth + 1, 2 * index) + child_hash(values, depth + 1, 2 * index + 1),
        )@,
{
    assert(default_hash_spec(depth - 1) == sha256_digest(
        default_hash_spec(depth as int) + default_hash_spec(depth as int),
    )@);
}

/// Climbing `k` levels (below the root) from any leaf along its own authentication
/// path gives what the parent above sees of the leaf's ancestor `k` levels up.
proof fn lemma_climb_sees_ancestor(values: Set<u32>, value: u32, k: nat)
    requires
        k <= 31,
    ensures
        child_hash(values, (32 - k) as nat, shifted(value as int, k)) == climb_from(
            child_hash(values, 32, value as int),
            value as int,
            auth_path_spec(values, value),
            k,
        ),
    decreases k,
{
    if k > 0 {
        let j = (k - 1) as nat;
        lemma_climb_sees_ancestor(values, value, j);
        let x = shifted(value as int, j);
        let q = shifted(value as int, k);
        let depth = (32 - k) as nat;
        let path = auth_path_spec(values, value);
        assert(q == x / 2);
        assert(path[j as int] == child_hash(values, depth + 1, sibling(x)));
        lemma_child_hash_is_hash(values, depth, q);
        if x % 2 == 0 {
            assert(x == 2 * q);
            assert(sibling(x) == 2 * q + 1);
        } else {
            assert(x == 2 * q + 1);
            assert(sibling(x) == 2 * q);
        }
    }
}

/// The root of the tree is the climb of 32 levels from any leaf along its own
/// path, except when no root node is stored: then both nodes of depth 1 are empty
/// and the root is `default_hash_spec(0)`.
proof fn lemma_root_is_climb(values: Set<u32>, value: u32)
    ensures
        node_hash(values, 0, 0) is Some ==> tree_root(values) == climb_from(
            child_hash(values, 32, value as int),
            value as int,
            auth_path_spec(values, value),
            32,
        ),
        node_hash(values, 0, 0) is None ==> tree_root(values) == default_hash_spec(0) && climb_from(
            child_hash(values, 32, value as int),
            value as int,
            auth_path_spec(values, value),
            31,
        ) == default_hash_spec(0) && auth_path_spec(values, value)[31] == default_hash_spec(0),
{
    lemma_climb_sees_ancestor(values, value, 31);
    lemma_shifted_bound(value, 31);
    lemma_shifted_bound(value, 32);
    assert(pow2(1) == 2 && pow2(0) == 1) by {
        lemma2_to64();
    }
    let x = shifted(value as int, 31);
    assert(shifted(value as int, 32) == x / 2);
    if x == 0 {
        assert(sibling(x) == 1);
    } else {
        assert(sibling(x) == 0);
    }
}

/// The authentication path of an occupied leaf leads to the root: climbing from
/// `value` along `auth_path_spec(values, value)` gives `tree_root(values)`. It is
/// stated for trees whose root differs from the root of the empty tree,
/// `default_hash_spec(0)` (with an occupied leaf, an equal root would take a
/// SHA-256 collision).
pub proof fn lemma_member_path_reaches_root(values: Set<u32>, value: u32)
    requires
        values.contains(value),
        tree_root(values) != default_hash_spec(0),
    ensures
        climb(value as int, auth_path_spec(values, value), 32) == tree_root(values),
{
    lemma_root_is_climb(values, value);
}

/// Two climbs along the same path from different leaf hashes stay apart at every
/// level where SHA-256 does not collide on the pair of inputs of that level.
pub open spec fn climbs_stay_apart(a: Seq<u8>, b: Seq<u8>, value: int, path: Seq<Seq<u8>>) -> bool {
    forall|k: nat|
        k < 32 && #[trigger] climb_from(a, value, path, k) != climb_from(b, value, path, k) ==> climb_from(
            a,
            value,
            path,
            k + 1,
        ) != climb_from(b, value, path, k + 1)
}

proof fn lemma_climbs_apart(a: Seq<u8>, b: Seq<u8>, value: int, path: Seq<Seq<u8>>, k: nat)
    requires
        a != b,
        k <= 32,
        climbs_stay_apart(a, b, value, path),
    ensures
        climb_from(a, value, path, k) != climb_from(b, value, path, k),
    decreases k,
{
    if k > 0 {
        lemma_climbs_apart(a, b, value, path, (k - 1) as nat);
        assert(climb_from(a, value, path, (k - 1) as nat) != climb_from(b, value, path, (k - 1) as nat));
    }
}

/// The authentication path of an empty leaf does not verify: climbing from the
/// occupied-leaf hash along the path of an unoccupied `value` misses the root. It
/// is stated under the collision resistance of SHA-256 on the inputs met on the
/// way (the climbs from the occupied and from the empty leaf hash stay apart), and
/// provided the climb does not end at the empty tree's root `default_hash_spec(0)`.
pub proof fn lemma_non_member_path_misses_root(values: Set<u32>, value: u32)
    requires
        !values.contains(value),
        climbs_stay_apart(one_hash_spec(), zero_hash_spec(), value as int, auth_path_spec(values, value)),
        climb(value as int, auth_path_spec(values, value), 32) != default_hash_spec(0),
    ensures
        climb(value as int, auth_path_spec(values, value), 32) != tree_root(values),
{
    lemma_root_is_climb(values, value);
    assert(child_hash(values, 32, value as int) == zero_hash_spec());
    assert(one_hash_spec()[0] != zero_hash_spec()[0]);
    lemma_climbs_apart(one_hash_spec(), zero_hash_spec(), value as int, auth_path_spec(values, value), 32);
}

/// Occupying leaf `value` changes no node outside its own line of ancestors.
proof fn lemma_insert_keeps_other_nodes(values: Set<u32>, value: u32, depth: nat, index: int)
    requires
        depth <= 32,
        shifted(value as int, (32 - depth) as nat) != index,
    ensures
        node_hash(values.insert(value), depth, index) == node_hash(values, depth, index),
    decreases 32 - depth,
{
    if depth < 32 {
        let k = (31 - depth) as nat;
        let x = shifted(value as int, k);
        assert(shifted(value as int, k + 1) == x / 2);
        assert(x != 2 * index) by {
            if x == 2 * index {
                assert(x / 2 == index);
            }
        }
        assert(x != 2 * index + 1) by {
            if x == 2 * index + 1 {
                assert(x / 2 == index);
            }
        }
        lemma_insert_keeps_other_nodes(values, value, depth + 1, 2 * index);
        lemma_insert_keeps_other_nodes(values, value, depth + 1, 2 * index + 1);
    }
}

/// Occupying leaf `value` leaves its own authentication path as it was: every
/// entry is a sibling of one of its ancestors, outside their line.
pub proof fn lemma_insert_keeps_own_path(values: Set<u32>, value: u32)
    ensures
        auth_path_spec(values.insert(value), value) == auth_path_spec(values, value),
{
    assert forall|k: int| 0 <= k < 32 implies #[trigger] auth_path_spec(values.insert(value), value)[k]
        == auth_path_spec(values, value)[k] by {
        let x = shifted(value as int, k as nat);
        assert(sibling(x) != x);
        lemma_insert_keeps_other_nodes(values, value, (32 - k) as nat, sibling(x));
    }
    assert(auth_path_spec(values.insert(value), value) =~= auth_path_spec(values, value));
}

/// Occupying a new leaf changes the root, under the collision resistance of
/// SHA-256 on the inputs met on the leaf's path (as in
/// `lemma_non_member_path_misses_root`) and provided neither climb ends at the
/// empty tree's root.
pub proof fn lemma_new_value_changes_root(values: Set<u32>, value: u32)
    requires
        !values.contains(value),
        climbs_stay_apart(one_hash_spec(), zero_hash_spec(), value as int, auth_path_spec(values, value)),
        climb(value as int, auth_path_spec(values, value), 32) != default_hash_spec(0),
        tree_root(values.insert(value)) != default_hash_spec(0),
    ensures
        tree_root(values.insert(value)) != tree_root(values),
{
    lemma_insert_keeps_own_path(values, value);
    lemma_member_path_reaches_root(values.insert(value), value);
    lemma_non_member_path_misses_root(values, value);
}

/// The root depends on the set of occupied leaves alone: occupying `x` and `y`
/// in either order gives the same root, and occupying an occupied leaf again
/// leaves the root and every authentication path as they were.
pub proof fn lemma_root_ignores_insertion_order(values: Set<u32>, x: u32, y: u32)
    ensures
        tree_root(values.insert(x).insert(y)) == tree_root(values.insert(y).insert(x)),
        values.contains(x) ==> tree_root(values.insert(x)) == tree_root(values),
        values.contains(x) ==> auth_path_spec(values.insert(x), y) == auth_path_spec(values, y),
{
    assert(values.insert(x).insert(y) =~= values.insert(y).insert(x));
    if values.contains(x) {
        assert(values.insert(x) =~= values);
    }
}

/// A copy of a set of values, element by element.
fn copy_values(values: &HashSet<u32>) -> (r: HashSet<u32>)
    ensures
        r@ == values@,
{
    let leaves = collect_values(values);
    let mut out: HashSet<u32> = HashSet::new();
    let mut j: usize = 0;
    while j < leaves.len()
        invariant
            0 <= j <= leaves.len(),
            out@ == leaves@.take(j as int).to_set(),
        decreases leaves.len() - j,
    {
        out.insert(leaves[j]);
        assert(leaves@.take(j + 1) == leaves@.take(j as int).push(leaves@[j as int]));
        j += 1;
    }
    assert(leaves@.take(leaves.len() as int) == leaves@);
    out
}

/// Sparse Merkle Tree with 2^32 leaves
pub struct SparseMerkleTree {
    values: HashSet<u32>,
    levels: Vec<HashMap<u32, [u8; 32]>>,
}

impl View for SparseMerkleTree {
    type V = Set<u32>;

    /// The set of occupied leaves.
    closed spec fn view(&self) -> Set<u32> {
        self.values@
    }
}

impl SparseMerkleTree {
    /// The stored nodes are exactly those of the tree over the value set.
    pub closed spec fn wf(&self) -> bool {
        &&& self.levels@.len() == 33
        &&& forall|k: int|
            0 <= k <= 32 ==> level_matches(#[trigger] self.levels@[k]@, self.values@, (32 - k) as nat)
    }

    /// The tree whose occupied leaves are `values`.
    pub fn new(values: HashSet<u32>) -> (r: Self)
        ensures
            r.wf(),
            r@ == values@,
    {
        let levels = node_map(&values);
        Self { values, levels }
    }

    /// The tree with no occupied leaf.
    pub fn new_empty() -> (r: Self)
        ensures
            r.wf(),
            r@ == Set::<u32>::empty(),
    {
        Self::new(HashSet::new())
    }

    /// Occupies the leaf `new_value`; the tree is unchanged when it was occupied already.
    pub fn add_value(&mut self, new_value: u32)
        requires
            old(self).wf(),
        ensures
            final(self).wf(),
            final(self)@ == old(self)@.insert(new_value),
    {
        if self.values.insert(new_value) {
            self.levels = node_map(&self.values);
        } else {
            assert(self.values@ =~= old(self).values@);
        }
    }

    /// The root hash of the tree.
    pub fn root(&self) -> (r: [u8; 32])
        requires
            self.wf(),
        ensures
            r@ == tree_root(self@),
    {
        let top = &self.levels[TREE_DEPTH];
        lookup(top, 0, default_hash(0))
    }

    /// The authentication path of leaf `value`: entry `k` is the hash of the
    /// sibling of the node `k` levels above the leaf.
    pub fn get_authentication_path_for_value(&self, value: u32) -> (r: [[u8; 32]; 32])
        requires
            self.wf(),
        ensures
            forall|k: int| 0 <= k < 32 ==> (#[trigger] r@[k])@ == auth_path_entry(self@, value, k as nat),
            r@.map_values(|h: [u8; 32]| h@) == auth_path_spec(self@, value),
    {
        let mut path = [[0u8; 32]; 32];
        let mut current_index = value;
        let mut k: usize = 0;
        while k < TREE_DEPTH
            invariant
                0 <= k <= 32,
                self.wf(),
                current_index == shifted(value as int, k as nat),
                forall|kk: int| 0 <= kk < k ==> (#[trigger] path@[kk])@ == auth_path_entry(self@, value, kk as nat),
            decreases 32 - k,
        {
            let sibling_index = current_index ^ 1;
            assert(sibling_index == sibling(current_index as int)) by (bit_vector)
                requires
                    sibling_index == current_index ^ 1,
            ;
            let level = &self.levels[k];
            assert(level_matches(level@, self@, (32 - k) as nat));
            let sibling_hash = lookup(level, sibling_index, default_hash(TREE_DEPTH - 1 - k));
            path[k] = sibling_hash;
            let next = current_index >> 1;
            assert(next == current_index / 2) by (bit_vector)
                requires
                    next == current_index >> 1,
            ;
            current_index = next;
            k += 1;
        }
        assert(path@.map_values(|h: [u8; 32]| h@) =~= auth_path_spec(self@, value));
        path
    }

    /// A copy of the set of occupied leaves.
    pub fn values(&self) -> (r: HashSet<u32>)
        ensures
            r@ == self@,
    {
        copy_values(&self.values)
    }

    /// Whether climbing from the occupied leaf `value` along `path` reaches `root`.
    pub fn verify_value_is_in_set(value: u32, path: [[u8; 32]; 32], root: [u8; 32]) -> (r: bool)
        ensures
            r == (climb(value as int, path@.map_values(|h: [u8; 32]| h@), 32) == root@),
    {
        let ghost hashes = path@.map_values(|h: [u8; 32]| h@);
        let mut hash = one_hash();
        let mut current_index = value;
        let mut k: usize = 0;
        while k < TREE_DEPTH
            invariant
                0 <= k <= 32,
                hashes == path@.map_values(|h: [u8; 32]| h@),
                current_index == shifted(value as int, k as nat),
                hash@ == climb(value as int, hashes, k as nat),
            decreases 32 - k,
        {
            let path_value = &path[k];
            assert(hashes[k as int] == path_value@);
            let bit = current_index & 1;
            assert((bit == 0) == (current_index % 2 == 0)) by (bit_vector)
                requires
                    bit == current_index & 1,
            ;
            if bit == 0 {
                hash = hash_node(&hash, path_value);
            } else {
                hash = hash_node(path_value, &hash);
            }
            let next = current_index >> 1;
            assert(next == current_index / 2) by (bit_vector)
                requires
                    next == current_index >> 1,
            ;
            current_index = next;
            k += 1;
        }
        hash_eq(&root, &hash)
    }
}

} // verus!
