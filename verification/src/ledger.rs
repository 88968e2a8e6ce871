//! Hashing, commitments, nullifiers and membership proofs of accounts, and the
//! chain rule that every execution must keep.
use vstd::prelude::*;
use risc0_zkvm::sha::Impl;
use risc0_zkvm::sha::Sha256;

use crate::merkle::sha256_digest;
use crate::merkle::shifted;
use crate::merkle::climb;
use crate::merkle::auth_path_spec;
use crate::merkle::tree_root;
use crate::merkle::lemma_member_path_reaches_root;
use crate::merkle::lemma_tree_hash_len;
use crate::default_hashes::default_hash_spec;
use crate::default_hashes::one_hash_spec;
use crate::types::Account;
use crate::types::Address;
use crate::types::AuthenticationPath;
use crate::types::Commitment;
use crate::types::Key;
use crate::types::Nullifier;
use crate::types::ProgramId;

verus! {

/// The four little-endian bytes of a word.
pub open spec fn word_le_bytes(w: u32) -> Seq<u8> {
    seq![(w % 256) as u8, ((w / 256) % 256) as u8, ((w / 65536) % 256) as u8, (w / 16777216) as u8]
}

/// The words laid out as bytes, each word as its four little-endian bytes.
pub open spec fn words_le_bytes(words: Seq<u32>) -> Seq<u8> {
    Seq::new(4 * words.len(), |i: int| word_le_bytes(words[i / 4])[i % 4])
}

/// Bytes read four at a time as little-endian words (a trailing partial word is dropped).
pub open spec fn bytes_le_words(bytes: Seq<u8>) -> Seq<u32> {
    Seq::new(
        bytes.len() / 4,
        |i: int| le_word(bytes[4 * i], bytes[4 * i + 1], bytes[4 * i + 2], bytes[4 * i + 3]) as u32,
    )
}

/// The words of the digest that `risc0_zkvm` computes for a slice of words: the
/// SHA-256 digest of the words' little-endian bytes, read back as little-endian words.
pub open spec fn risc0_hash_words(words: Seq<u32>) -> Seq<u32> {
    bytes_le_words(sha256_digest(words_le_bytes(words))@)
}

/// Calls `risc0_zkvm::sha::Impl::hash_words` and returns the digest as 8 words.
/// Trusted: `hash_words` hashes the words' in-memory bytes with `sha2::Sha256` and
/// reads the 32 digest bytes back as words in native byte order; on little-endian
/// machines (the zkVM guest and the usual hosts) that is `risc0_hash_words`.
#[verifier::external_body]
pub fn hash(bytes: &[u32]) -> (r: [u32; 8])
    ensures
        r@ == risc0_hash_words(bytes@),
{
    Impl::hash_words(bytes).as_words().try_into().unwrap()
}

/// The words `risc0_zkvm::serde` writes for a `u128`: its little-endian bytes, four per word.
pub open spec fn u128_words(v: u128) -> Seq<u32> {
    seq![
        (v % 0x1_0000_0000) as u32,
        ((v / 0x1_0000_0000) % 0x1_0000_0000) as u32,
        ((v / 0x1_0000_0000_0000_0000) % 0x1_0000_0000) as u32,
        (v / 0x1_0000_0000_0000_0000_0000_0000) as u32,
    ]
}

/// The words `risc0_zkvm::serde` writes for an optional program id.
pub open spec fn owner_words(owner: Option<ProgramId>) -> Seq<u32> {
    match owner {
        None => seq![0u32],
        Some(id) => seq![1u32] + id@,
    }
}

/// The serialized form of an account: its fields in order.
pub open spec fn account_words(a: Account) -> Seq<u32> {
    owner_words(a.program_owner) + a.address@ + u128_words(a.balance) + a.nonce@
}

/// Calls `risc0_zkvm::serde::to_vec` on the fields of an account, which is what it
/// writes for the account itself. Trusted: the words are those of `account_words`,
/// as the serializer's source writes them (`None` as 0, `Some` as 1 and the value,
/// each `u32` as one word, a `u128` as its 16 little-endian bytes in 4 words); the
/// serializer cannot fail on these types.
#[verifier::external_body]
fn serialize_account(owner: Option<ProgramId>, address: Address, balance: u128, nonce: [u32; 8]) -> (r:
    Vec<u32>)
    ensures
        r@ == account_words(Account { program_owner: owner, address, balance, nonce }),
{
    risc0_zkvm::serde::to_vec(&(owner, address, balance, nonce)).unwrap()
}

/// Commitment of an account: the first word of the hash of its serialized form.
pub open spec fn commitment_spec(a: Account) -> u32 {
    risc0_hash_words(account_words(a))[0]
}

/// Eight zero words.
pub open spec fn zero_words() -> Seq<u32> {
    seq![0u32, 0, 0, 0, 0, 0, 0, 0]
}

impl Account {
    pub fn new(address: Address, balance: u128) -> (r: Self)
        ensures
            r.program_owner is None,
            r.address == address,
            r.balance == balance,
            r.nonce@ == zero_words(),
    {
        let r = Self { program_owner: None, address, balance, nonce: [0; 8] };
        assert(r.nonce@ =~= zero_words());
        r
    }

    /// Creates a new account with address = hash(private_key) and balance = 0
    pub fn new_from_private_key(private_key: Key) -> (r: Self)
        ensures
            r.program_owner is None,
            r.address@ == risc0_hash_words(private_key@),
            r.balance == 0,
            r.nonce@ == zero_words(),
    {
        let address = Self::address_for_key(&private_key);
        Self::new(address, 0)
    }

    /// Computes the address corresponding to the given private key
    pub fn address_for_key(private_key: &Key) -> (r: Address)
        ensures
            r@ == risc0_hash_words(private_key@),
    {
        hash(private_key)
    }

    /// Returns the first word of the hash of the serialized account
    pub fn commitment(&self) -> (r: Commitment)
        ensures
            r == commitment_spec(*self),
    {
        let words = serialize_account(self.program_owner, self.address, self.balance, self.nonce);
        let digest = hash(words.as_slice());
        digest[0]
    }
}

/// The hash of the occupied leaf in word form.
pub open spec fn hash_one_words() -> Seq<u32> {
    seq![789771595u32, 3310634292, 3140410939, 3820475020, 3591004369, 2777006897, 1021496535, 2588247415]
}

/// Hash obtained by climbing `k` levels from the leaf `commitment`, combining
/// with `path[0]`, ..., `path[k - 1]`.
pub open spec fn words_climb(commitment: int, path: Seq<Seq<u32>>, k: nat) -> Seq<u32>
    decreases k,
{
    if k == 0 {
        hash_one_words()
    } else {
        let h = words_climb(commitment, path, (k - 1) as nat);
        if shifted(commitment, (k - 1) as nat) % 2 == 0 {
            risc0_hash_words(h + path[k - 1])
        } else {
            risc0_hash_words(path[k - 1] + h)
        }
    }
}

/// Whether the authentication path leads from the leaf `commitment` to `root`.
pub fn is_in_tree(commitment: Commitment, path: &AuthenticationPath, root: [u32; 8]) -> (r: bool)
    ensures
        r == (words_climb(commitment as int, path@.map_values(|w: [u32; 8]| w@), 32) == root@),
{
    let ghost hashes = path@.map_values(|w: [u32; 8]| w@);
    let mut hash: [u32; 8] = [
        789771595, 3310634292, 3140410939, 3820475020, 3591004369, 2777006897, 1021496535, 2588247415,
    ];
    assert(hash@ == hash_one_words());
    let mut current_index = commitment;
    let mut k: usize = 0;
    while k < 32
        invariant
            0 <= k <= 32,
            hashes == path@.map_values(|w: [u32; 8]| w@),
            current_index == shifted(commitment as int, k as nat),
            hash@ == words_climb(commitment as int, hashes, k as nat),
        decreases 32 - k,
    {
        let path_value = &path[k];
        assert(hashes[k as int] == path_value@);
        let bit = current_index & 1;
        assert((bit == 0) == (current_index % 2 == 0)) by (bit_vector)
            requires
                bit == current_index & 1,
        ;
        if bit == 0 {
            hash = hash_two(&hash, path_value);
        } else {
            hash = hash_two(path_value, &hash);
        }
        let next = current_index >> 1;
        assert(next == current_index / 2) by (bit_vector)
            requires
                next == current_index >> 1,
        ;
        current_index = next;
        k += 1;
    }
    words_eq(&root, &hash)
}

/// The guest's climb over words follows the host's climb over bytes: with each
/// path entry read as little-endian words, climbing `k` levels gives the host's
/// hash read as words.
proof fn lemma_words_climb_follows_bytes(commitment: int, path: Seq<Seq<u8>>, k: nat)
    requires
        k <= 32,
        path.len() == 32,
        forall|j: int| 0 <= j < 32 ==> (#[trigger] path[j]).len() == 32,
    ensures
        climb(commitment, path, k).len() == 32,
        words_climb(commitment, path.map_values(|h: Seq<u8>| bytes_le_words(h)), k) == bytes_le_words(
            climb(commitment, path, k),
        ),
    decreases k,
{
    let wpath = path.map_values(|h: Seq<u8>| bytes_le_words(h));
    if k == 0 {
        let one = one_hash_spec();
        assert(bytes_le_words(one).len() == 8);
        assert forall|i: int| 0 <= i < 8 implies #[trigger] bytes_le_words(one)[i] == hash_one_words()[i] by {
            assert(one[4 * i] == one_hash_spec()[4 * i]);
        }
        assert(hash_one_words() =~= bytes_le_words(one));
    } else {
        let j = (k - 1) as nat;
        lemma_words_climb_follows_bytes(commitment, path, j);
        let hb = climb(commitment, path, j);
        let pb = path[j as int];
        let hw = bytes_le_words(hb);
        let pw = bytes_le_words(pb);
        assert(wpath[j as int] == pw);
        lemma_bytes_words_bijection(hb, seq![]);
        lemma_bytes_words_bijection(pb, seq![]);
        if shifted(commitment, j) % 2 == 0 {
            lemma_words_le_bytes_concat(hw, pw);
            assert(words_le_bytes(hw + pw) == hb + pb);
        } else {
            lemma_words_le_bytes_concat(pw, hw);
            assert(words_le_bytes(pw + hw) == pb + hb);
        }
    }
}

/// The guest's membership check agrees with the tree's: `is_in_tree` on the path
/// and root read as little-endian words accepts exactly when
/// `SparseMerkleTree::verify_value_is_in_set` accepts on the bytes.
pub proof fn lemma_guest_and_host_checks_agree(commitment: u32, path: Seq<Seq<u8>>, root: Seq<u8>)
    requires
        path.len() == 32,
        forall|j: int| 0 <= j < 32 ==> (#[trigger] path[j]).len() == 32,
        root.len() == 32,
    ensures
        (words_climb(commitment as int, path.map_values(|h: Seq<u8>| bytes_le_words(h)), 32)
            == bytes_le_words(root)) == (climb(commitment as int, path, 32) == root),
{
    lemma_words_climb_follows_bytes(commitment as int, path, 32);
    let c = climb(commitment as int, path, 32);
    lemma_bytes_words_bijection(c, seq![]);
    lemma_bytes_words_bijection(root, seq![]);
}

/// An honest path passes the guest's check: for an occupied leaf of a tree whose
/// root is not the empty tree's root, the tree's authentication path and root,
/// read as little-endian words, satisfy `is_in_tree`.
pub proof fn lemma_host_path_passes_guest_check(values: Set<u32>, commitment: u32)
    requires
        values.contains(commitment),
        tree_root(values) != default_hash_spec(0),
    ensures
        words_climb(
            commitment as int,
            auth_path_spec(values, commitment).map_values(|h: Seq<u8>| bytes_le_words(h)),
            32,
        ) == bytes_le_words(tree_root(values)),
{
    let path = auth_path_spec(values, commitment);
    assert forall|j: int| 0 <= j < 32 implies (#[trigger] path[j]).len() == 32 by {
        lemma_tree_hash_len(values, commitment, j);
    }
    lemma_member_path_reaches_root(values, commitment);
    lemma_words_climb_follows_bytes(commitment as int, path, 32);
}

/// Word-wise equality of two 8-word values.
pub fn words_eq(a: &[u32; 8], b: &[u32; 8]) -> (r: bool)
    ensures
        r == (a@ == b@),
{
    let mut i: usize = 0;
    while i < 8
        invariant
            0 <= i <= 8,
            forall|j: int| 0 <= j < i ==> a@[j] == b@[j],
        decreases 8 - i,
    {
        if a[i] != b[i] {
            return false;
        }
        i += 1;
    }
    assert(a@ =~= b@);
    true
}

/// Returns Hash(Commitment || private_key)
pub fn compute_nullifier(commitment: &Commitment, private_key: &Key) -> (r: Nullifier)
    ensures
        r@ == risc0_hash_words(seq![*commitment] + private_key@),
{
    let mut bytes_to_hash = [0u32; 9];
    bytes_to_hash[0] = *commitment;
    let mut i: usize = 0;
    while i < 8
        invariant
            0 <= i <= 8,
            bytes_to_hash@[0] == *commitment,
            forall|j: int| 0 <= j < i ==> bytes_to_hash@[1 + j] == private_key@[j],
        decreases 8 - i,
    {
        bytes_to_hash[1 + i] = private_key[i];
        i += 1;
    }
    assert(bytes_to_hash@ =~= seq![*commitment] + private_key@);
    hash(&bytes_to_hash)
}

/// Hash of the concatenation of two 8-word values.
fn hash_two(left: &[u32; 8], right: &[u32; 8]) -> (r: [u32; 8])
    ensures
        r@ == risc0_hash_words(left@ + right@),
{
    let mut bytes_to_hash = [0u32; 16];
    let mut i: usize = 0;
    while i < 8
        invariant
            0 <= i <= 8,
            forall|j: int| 0 <= j < i ==> bytes_to_hash@[j] == left@[j],
            forall|j: int| 0 <= j < i ==> bytes_to_hash@[8 + j] == right@[j],
        decreases 8 - i,
    {
        bytes_to_hash[i] = left[i];
        bytes_to_hash[8 + i] = right[i];
        i += 1;
    }
    assert(bytes_to_hash@ =~= left@ + right@);
    hash(&bytes_to_hash)
}

/// The word of four little-endian bytes.
pub open spec fn le_word(b0: u8, b1: u8, b2: u8, b3: u8) -> int {
    b0 + 256 * b1 + 65536 * b2 + 16777216 * b3
}

/// Reads 32 bytes as 8 little-endian words.
pub fn bytes_to_words(bytes: &[u8; 32]) -> (r: [u32; 8])
    ensures
        r@ == bytes_le_words(bytes@),
        forall|i: int|
            0 <= i < 8 ==> #[trigger] r@[i] == le_word(
                bytes@[4 * i],
                bytes@[4 * i + 1],
                bytes@[4 * i + 2],
                bytes@[4 * i + 3],
            ),
{
    let mut words = [0u32; 8];
    let mut i: usize = 0;
    while i < 8
        invariant
            0 <= i <= 8,
            forall|j: int|
                0 <= j < i ==> #[trigger] words@[j] == le_word(
                    bytes@[4 * j],
                    bytes@[4 * j + 1],
                    bytes@[4 * j + 2],
                    bytes@[4 * j + 3],
                ),
        decreases 8 - i,
    {
        let b0 = bytes[4 * i] as u32;
        let b1 = bytes[4 * i + 1] as u32;
        let b2 = bytes[4 * i + 2] as u32;
        let b3 = bytes[4 * i + 3] as u32;
        words[i] = b0 + b1 * 256 + b2 * 65536 + b3 * 16777216;
        i += 1;
    }
    assert(words@ =~= bytes_le_words(bytes@));
    words
}

/// A word's little-endian bytes read back give the word, and four bytes read as a
/// word give back the bytes.
proof fn lemma_word_bytes_round_trip(w: u32, b0: u8, b1: u8, b2: u8, b3: u8)
    ensures
        le_word(
            word_le_bytes(w)[0],
            word_le_bytes(w)[1],
            word_le_bytes(w)[2],
            word_le_bytes(w)[3],
        ) == w,
        0 <= le_word(b0, b1, b2, b3) <= u32::MAX,
        word_le_bytes(le_word(b0, b1, b2, b3) as u32) == seq![b0, b1, b2, b3],
{
    let x0 = (w % 256) as u8;
    let x1 = ((w / 256) % 256) as u8;
    let x2 = ((w / 65536) % 256) as u8;
    let x3 = (w / 16777216) as u8;
    assert(x0 + 256 * x1 + 65536 * x2 + 16777216 * x3 == w) by (nonlinear_arith)
        requires
            x0 == w % 256,
            x1 == (w / 256) % 256,
            x2 == (w / 65536) % 256,
            x3 == w / 16777216,
    ;
    let v = b0 + 256 * b1 + 65536 * b2 + 16777216 * b3;
    assert(0 <= v <= u32::MAX && v % 256 == b0 && (v / 256) % 256 == b1 && (v / 65536) % 256 == b2
        && v / 16777216 == b3) by (nonlinear_arith)
        requires
            v == b0 + 256 * b1 + 65536 * b2 + 16777216 * b3,
            0 <= b0 < 256,
            0 <= b1 < 256,
            0 <= b2 < 256,
            0 <= b3 < 256,
    ;
    assert(word_le_bytes(v as u32) =~= seq![b0, b1, b2, b3]);
}

/// Reading 32 bytes as words and writing the words back as bytes is the identity,
/// and so is the other way round for 8 words: `bytes_to_words` is a bijection
/// between 32 bytes and 8 words.
pub proof fn lemma_bytes_words_bijection(bytes: Seq<u8>, words: Seq<u32>)
    requires
        bytes.len() % 4 == 0,
    ensures
        words_le_bytes(bytes_le_words(bytes)) == bytes,
        bytes_le_words(words_le_bytes(words)) == words,
{
    let ws = bytes_le_words(bytes);
    assert forall|i: int| 0 <= i < bytes.len() implies #[trigger] words_le_bytes(ws)[i] == bytes[i] by {
        let q = i / 4;
        let j = 4 * q;
        lemma_word_bytes_round_trip(0, bytes[j], bytes[j + 1], bytes[j + 2], bytes[j + 3]);
        assert(ws[q] == le_word(bytes[j], bytes[j + 1], bytes[j + 2], bytes[j + 3]) as u32);
        assert(i % 4 == i - j);
    }
    assert(words_le_bytes(ws) =~= bytes);
    let bs = words_le_bytes(words);
    assert forall|i: int| 0 <= i < words.len() implies #[trigger] bytes_le_words(bs)[i] == words[i] by {
        lemma_word_bytes_round_trip(words[i], 0, 0, 0, 0);
        assert(bs[4 * i] == word_le_bytes(words[i])[0]);
        assert(bs[4 * i + 1] == word_le_bytes(words[i])[1]);
        assert(bs[4 * i + 2] == word_le_bytes(words[i])[2]);
        assert(bs[4 * i + 3] == word_le_bytes(words[i])[3]);
    }
    assert(bytes_le_words(bs) =~= words);
}

/// The bytes of two word sequences laid end to end are the bytes of each, end to end.
pub proof fn lemma_words_le_bytes_concat(a: Seq<u32>, b: Seq<u32>)
    ensures
        words_le_bytes(a + b) == words_le_bytes(a) + words_le_bytes(b),
{
    assert forall|i: int| 0 <= i < 4 * (a.len() + b.len()) implies #[trigger] words_le_bytes(a + b)[i]
        == (words_le_bytes(a) + words_le_bytes(b))[i] by {
        if i >= 4 * a.len() {
            assert((i - 4 * a.len()) / 4 == i / 4 - a.len());
            assert((i - 4 * a.len()) % 4 == i % 4);
        }
    }
    assert(words_le_bytes(a + b) =~= words_le_bytes(a) + words_le_bytes(b));
}

/// Total balance of a sequence of accounts.
pub open spec fn balance_sum(accounts: Seq<Account>) -> int
    decreases accounts.len(),
{
    if accounts.len() == 0 {
        0
    } else {
        balance_sum(accounts.drop_last()) + accounts.last().balance
    }
}

/// Pairwise, the program kept every address and nonce.
pub open spec fn keeps_addresses_and_nonces(pre: Seq<Account>, post: Seq<Account>) -> bool {
    &&& pre.len() == post.len()
    &&& forall|i: int|
        0 <= i < pre.len() ==> (#[trigger] pre[i]).address@ == post[i].address@ && pre[i].nonce@
            == post[i].nonce@
}

/// The chain's rules for an execution: same number of accounts, same addresses and
/// nonces, same total supply.
pub open spec fn preserves_invariants(pre: Seq<Account>, post: Seq<Account>) -> bool {
    keeps_addresses_and_nonces(pre, post) && balance_sum(pre) == balance_sum(post)
}

/// The chain's rules, spelled out: an execution keeps them exactly when it gives
/// as many post states as there were pre states, each with the address and nonce
/// of its pre state, and the total balance is unchanged.
pub proof fn lemma_chain_rules(pre: Seq<Account>, post: Seq<Account>)
    ensures
        preserves_invariants(pre, post) <==> {
            &&& pre.len() == post.len()
            &&& forall|i: int|
                0 <= i < pre.len() ==> (#[trigger] pre[i]).address@ == post[i].address@ && pre[i].nonce@
                    == post[i].nonce@
            &&& balance_sum(pre) == balance_sum(post)
        },
{
}

/// 2^128, one more than the largest `u128`.
pub open spec fn two_pow_128() -> int {
    u128::MAX + 1
}

/// Exact total balance of the accounts, as a count of wraps past `u128::MAX`
/// and the remainder: the total is `r.0 * 2^128 + r.1`.
fn wide_total_balance(accounts: &[Account]) -> (r: (usize, u128))
    ensures
        r.0 * two_pow_128() + r.1 == balance_sum(accounts@),
{
    let mut wraps: usize = 0;
    let mut low: u128 = 0;
    let mut i: usize = 0;
    while i < accounts.len()
        invariant
            0 <= i <= accounts@.len(),
            wraps <= i,
            wraps * two_pow_128() + low == balance_sum(accounts@.take(i as int)),
        decreases accounts.len() - i,
    {
        proof {
            assert(accounts@.take(i + 1).drop_last() =~= accounts@.take(i as int));
        }
        let b = accounts[i].balance;
        match low.checked_add(b) {
            Some(t) => {
                low = t;
            },
            None => {
                low = b - (u128::MAX - low) - 1;
                wraps = wraps + 1;
                assert(wraps * two_pow_128() == (wraps - 1) * two_pow_128() + two_pow_128())
                    by (nonlinear_arith);
            },
        }
        i += 1;
    }
    assert(accounts@.take(accounts@.len() as int) =~= accounts@);
    (wraps, low)
}

/// A number below 2^128 plus a multiple of 2^128 determines both parts.
proof fn lemma_wide_unique(c1: int, l1: int, c2: int, l2: int)
    requires
        0 <= c1,
        0 <= c2,
        0 <= l1 < two_pow_128(),
        0 <= l2 < two_pow_128(),
        c1 * two_pow_128() + l1 == c2 * two_pow_128() + l2,
    ensures
        c1 == c2,
        l1 == l2,
{
    let k = two_pow_128();
    assert(c1 == c2) by (nonlinear_arith)
        requires
            0 <= c1,
            0 <= c2,
            0 <= l1 < k,
            0 <= l2 < k,
            c1 * k + l1 == c2 * k + l2,
    ;
}

/// Verifies that a program public execution didn't break the chain's rules.
/// `input_accounts` are the accounts provided as inputs to the program.
/// `output_accounts` are the accounts post states after execution of the program
pub fn inputs_outputs_preserve_invariants(input_accounts: &[Account], output_accounts: &[Account]) -> (r:
    bool)
    ensures
        r == preserves_invariants(input_accounts@, output_accounts@),
        r ==> input_accounts@.len() == output_accounts@.len(),
        r ==> forall|i: int|
            0 <= i < input_accounts@.len() ==> (#[trigger] input_accounts@[i]).address@
                == output_accounts@[i].address@ && input_accounts@[i].nonce@ == output_accounts@[i].nonce@,
        r ==> balance_sum(input_accounts@) == balance_sum(output_accounts@),
{
    proof {
        lemma_chain_rules(input_accounts@, output_accounts@);
    }
    // Fail if the number of input and output accounts differ
    if input_accounts.len() != output_accounts.len() {
        return false;
    }
    let mut i: usize = 0;
    while i < input_accounts.len()
        invariant
            0 <= i <= input_accounts@.len(),
            input_accounts@.len() == output_accounts@.len(),
            forall|j: int|
                0 <= j < i ==> (#[trigger] input_accounts@[j]).address@ == output_accounts@[j].address@
                    && input_accounts@[j].nonce@ == output_accounts@[j].nonce@,
        decreases input_accounts.len() - i,
    {
        // Fail if the program modified the addresses of the input accounts
        if !words_eq(&input_accounts[i].address, &output_accounts[i].address) {
            return false;
        }
        // Fail if the program modified the nonces of the input accounts
        if !words_eq(&input_accounts[i].nonce, &output_accounts[i].nonce) {
            return false;
        }
        i += 1;
    }
    // Fail if the execution didn't preserve the total supply.
    let total_balance_pre = wide_total_balance(input_accounts);
    let total_balance_post = wide_total_balance(output_accounts);
    proof {
        if balance_sum(input_accounts@) == balance_sum(output_accounts@) {
            lemma_wide_unique(
                total_balance_pre.0 as int,
                total_balance_pre.1 as int,
                total_balance_post.0 as int,
                total_balance_post.1 as int,
            );
        }
    }
    total_balance_pre.0 == total_balance_post.0 && total_balance_pre.1 == total_balance_post.1
}

} // verus!
